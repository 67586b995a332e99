//! Filename decomposition.
//!
//! A filename splits into a stem, an optional duplicate counter and an
//! optional extension.  The extension is everything from the last `.` to
//! the end (absent when there is no dot, the dot is the first character,
//! or nothing follows the dot).  The counter is read from between the last
//! `(` and the last `)` of the remaining name; it is recognized only when
//! the open parenthesis comes before the close one and the text strictly
//! between them parses as an integer, and it is stripped from the stem
//! only when `"(<counter>)"` is literally a suffix of it.  Filenames with
//! unrelated parentheses may therefore be misparsed; this permissive
//! heuristic is deliberate, and decomposition never fails — it degrades to
//! the whole name with no counter and no extension.

use vstd::prelude::*;

use crate::decimal::{
    all_digits,
    dec_val,
    is_digit,
    lemma_dec_rep_val,
    lemma_dec_val_nonneg,
    lemma_dec_val_prefix,
    lemma_signed_rep_injective,
    parse_int,
    signed_rep,
    to_decimal,
};
use crate::path::filename_of;
use crate::path::filename_str;
use crate::text::{
    find_last,
    last_index_of,
    lemma_last_index_of_append,
    lemma_last_index_of_unique,
};

verus! {

/// The extension of `name` including its leading dot, when there is one.
pub open spec fn dot_ext_of(name: Seq<char>) -> Option<Seq<char>> {
    let d = last_index_of(name, '.');
    if 0 < d && d < name.len() - 1 {
        Option::Some(name.subrange(d, name.len() as int))
    } else {
        Option::None
    }
}

/// The name with its extension removed.
pub open spec fn working_of(name: Seq<char>) -> Seq<char> {
    if dot_ext_of(name) is Some {
        name.subrange(0, last_index_of(name, '.'))
    } else {
        name
    }
}

/// The duplicate counter recognized in `name`, if any.
pub open spec fn counter_of(name: Seq<char>) -> Option<i64> {
    let w = working_of(name);
    let ob = last_index_of(w, '(');
    let cb = last_index_of(w, ')');
    if 0 <= ob && ob < cb {
        match parse_int(w.subrange(ob + 1, cb)) {
            Option::Some(v) => if i64::MIN <= v <= i64::MAX {
                Option::Some(v as i64)
            } else {
                Option::None
            },
            Option::None => Option::None,
        }
    } else {
        Option::None
    }
}

/// The `"(<counter>)"` suffix that is stripped when present.
pub open spec fn counter_suffix(v: i64) -> Seq<char> {
    seq!['('] + signed_rep(v as int) + seq![')']
}

/// The stem of `name`: the working name, minus the counter suffix when the
/// recognized counter is literally a suffix of it.
pub open spec fn stem_of(name: Seq<char>) -> Seq<char> {
    let w = working_of(name);
    match counter_of(name) {
        Option::None => w,
        Option::Some(v) => {
            let suf = counter_suffix(v);
            if suf.len() <= w.len() && w.subrange(w.len() - suf.len(), w.len() as int) == suf {
                w.subrange(0, w.len() - suf.len())
            } else {
                w
            }
        },
    }
}

/// What `str::parse::<i64>` returns: the integer in `parse_int` whenever
/// there is one and it fits in an `i64`.
pub fn parse_i64(s: &str) -> (r: Option<i64>)
    ensures
        (match parse_int(s@) {
            Option::Some(v) => if i64::MIN <= v <= i64::MAX {
                r == Option::<i64>::Some(v as i64)
            } else {
                r is None
            },
            Option::None => r is None,
        }),
{
    let n = s.unicode_len();
    if n == 0 {
        return Option::None;
    }
    let first = s.get_char(0);
    let signed = first == '+' || first == '-';
    let negative = first == '-';
    let start: usize = if signed {
        1
    } else {
        0
    };
    if n == start {
        return Option::None;
    }
    let ghost body = if signed {
        s@.subrange(1, s@.len() as int)
    } else {
        s@
    };
    let mut acc: u128 = 0;
    let mut i: usize = start;
    while i < n
        invariant
            start <= i <= n,
            n == s@.len(),
            start == if signed {
                1int
            } else {
                0int
            },
            signed == (s@[0] == '+' || s@[0] == '-'),
            negative == (s@[0] == '-'),
            body == if signed {
                s@.subrange(1, s@.len() as int)
            } else {
                s@
            },
            n >= start + 1,
            acc <= 9223372036854775808u128,
            all_digits(body.subrange(0, i - start)),
            acc == dec_val(body.subrange(0, i - start)),
        decreases n - i,
    {
        let c = s.get_char(i);
        let d: u128 = match c {
            '0' => 0,
            '1' => 1,
            '2' => 2,
            '3' => 3,
            '4' => 4,
            '5' => 5,
            '6' => 6,
            '7' => 7,
            '8' => 8,
            '9' => 9,
            _ => {
                proof {
                    assert(body[i - start] == s@[i as int]);
                    assert(!is_digit(body[i - start]));
                }
                return Option::None;
            },
        };
        proof {
            assert(body[i - start] == s@[i as int]);
            assert(is_digit(body[i - start]));
            assert(crate::decimal::digit_val(body[i - start]) == d);
            assert(body.subrange(0, i + 1 - start).drop_last() =~= body.subrange(0, i - start));
            assert(body.subrange(0, i + 1 - start).last() == body[i - start]);
        }
        let next: u128 = acc * 10 + d;
        i = i + 1;
        acc = next;
        if acc > 9223372036854775808u128 {
            proof {
                let k = i - start;
                assert(dec_val(body.subrange(0, k)) == acc);
                if body.len() > 0 && all_digits(body) {
                    lemma_dec_val_prefix(body, k);
                    assert(dec_val(body) >= acc > 9223372036854775808int);
                }
            }
            return Option::None;
        }
    }
    proof {
        assert(body.subrange(0, i - start) =~= body);
        assert(body.len() > 0 && all_digits(body));
        lemma_dec_val_nonneg(body);
    }
    if negative {
        if acc == 9223372036854775808u128 {
            Option::Some(i64::MIN)
        } else {
            Option::Some(-((acc as i64)))
        }
    } else {
        if acc <= 9223372036854775807u128 {
            Option::Some(acc as i64)
        } else {
            Option::None
        }
    }
}

/// Decompose the final component of `path` into stem, duplicate counter
/// and extension.  This never fails: when nothing is recognized the stem
/// is the whole name.
pub fn parse_filepath(path: &str) -> (r: (String, Option<i64>, Option<String>))
    ensures
        r.0@ == stem_of(filename_of(path@)),
        r.1 == counter_of(filename_of(path@)),
        (match r.2 {
            Some(e) => dot_ext_of(filename_of(path@)) matches Some(ev) && e@ == ev,
            None => dot_ext_of(filename_of(path@)) is None,
        }),
{
    let name = filename_str(path);
    let nlen = name.as_str().unicode_len();
    let mut working = name.clone();
    let mut ext: Option<String> = Option::None;
    match find_last(name.as_str(), '.') {
        Option::Some(d) => {
            if 0 < d && d + 1 < nlen {
                working = name.as_str().substring_char(0, d).to_owned();
                ext = Option::Some(name.as_str().substring_char(d, nlen).to_owned());
            }
        },
        Option::None => {
        },
    }
    let wlen = working.as_str().unicode_len();
    let mut counter: Option<i64> = Option::None;
    let mut stem = working.clone();
    let ob = find_last(working.as_str(), '(');
    let cb = find_last(working.as_str(), ')');
    match (ob, cb) {
        (Option::Some(o), Option::Some(c)) => {
            if o < c {
                match parse_i64(working.as_str().substring_char(o + 1, c)) {
                    Option::Some(v) => {
                        counter = Option::Some(v);
                        proof {
                            reveal_strlit("(");
                            reveal_strlit(")");
                        }
                        let mut suffix = String::from_str("(");
                        suffix.append(to_decimal(v).as_str());
                        suffix.append(")");
                        proof {
                            assert(suffix@ =~= counter_suffix(v));
                        }
                        let slen = suffix.as_str().unicode_len();
                        if slen <= wlen {
                            let tail = working.as_str().substring_char(wlen - slen, wlen);
                            if tail.to_owned() == suffix {
                                stem = working.as_str().substring_char(0, wlen - slen).to_owned();
                            }
                        }
                    },
                    Option::None => {
                    },
                }
            }
        },
        _ => {
        },
    }
    (stem, counter, ext)
}

/// The candidate name for a given stem, counter and extension: the counter
/// in parentheses is appended to the stem, and the extension follows
/// unless it is empty or a bare dot.
pub open spec fn spec_assemble(stem: Seq<char>, c: int, ext: Seq<char>) -> Seq<char> {
    stem + seq!['('] + signed_rep(c) + seq![')'] + (if ext.len() > 0 && ext != seq!['.'] {
        ext
    } else {
        Seq::empty()
    })
}

/// The executable candidate name.
pub fn assemble(stem: &str, counter: i64, ext: &str) -> (r: String)
    ensures
        r@ == spec_assemble(stem@, counter as int, ext@),
{
    proof {
        reveal_strlit("(");
        reveal_strlit(")");
        reveal_strlit(".");
    }
    let mut s = stem.to_owned();
    s.append("(");
    s.append(to_decimal(counter).as_str());
    s.append(")");
    let elen = ext.unicode_len();
    let plain_dot = elen == 1 && ext.get_char(0) == '.';
    proof {
        assert(plain_dot == (ext@ == seq!['.'])) by {
            if elen == 1 && ext@[0] == '.' {
                assert(ext@ =~= seq!['.']);
            }
            if ext@ == seq!['.'] {
                assert(ext@[0] == '.');
            }
        }
    }
    if elen > 0 && !plain_dot {
        s.append(ext);
        proof {
            assert(s@ =~= spec_assemble(stem@, counter as int, ext@));
        }
        s
    } else {
        proof {
            assert(s@ =~= spec_assemble(stem@, counter as int, ext@));
        }
        s
    }
}

/// Candidate names with the same stem and extension but distinct counters
/// are distinct.
pub proof fn lemma_assemble_injective(stem: Seq<char>, c1: int, c2: int, ext: Seq<char>)
    requires
        spec_assemble(stem, c1, ext) == spec_assemble(stem, c2, ext),
    ensures
        c1 == c2,
{
    let e = if ext.len() > 0 && ext != seq!['.'] {
        ext
    } else {
        Seq::<char>::empty()
    };
    let r1 = signed_rep(c1);
    let r2 = signed_rep(c2);
    let s1 = spec_assemble(stem, c1, ext);
    let s2 = spec_assemble(stem, c2, ext);
    assert(s1.len() == stem.len() + 1 + r1.len() + 1 + e.len());
    assert(s2.len() == stem.len() + 1 + r2.len() + 1 + e.len());
    assert(r1.len() == r2.len());
    assert(r1 =~= r2) by {
        assert(forall|j: int|
            0 <= j < r1.len() ==> r1[j] == s1[stem.len() + 1 + j] && r2[j] == s2[stem.len() + 1
                + j]);
    }
    lemma_signed_rep_injective(c1, c2);
}

/// A candidate name contains no slash when its stem and extension contain
/// none.
pub proof fn lemma_assemble_no_slash(stem: Seq<char>, c: int, ext: Seq<char>)
    requires
        forall|j: int| 0 <= j < stem.len() ==> stem[j] != '/',
        forall|j: int| 0 <= j < ext.len() ==> ext[j] != '/',
    ensures
        forall|j: int|
            0 <= j < spec_assemble(stem, c, ext).len() ==> spec_assemble(stem, c, ext)[j] != '/',
{
    let s = spec_assemble(stem, c, ext);
    let r = signed_rep(c);
    lemma_dec_rep_val((if c < 0 {
        -c
    } else {
        c
    }) as nat);
    assert forall|j: int| 0 <= j < s.len() implies s[j] != '/' by {
        let e = if ext.len() > 0 && ext != seq!['.'] {
            ext
        } else {
            Seq::<char>::empty()
        };
        if j < stem.len() {
            assert(s[j] == stem[j]);
        } else if j == stem.len() {
            assert(s[j] == '(');
        } else if j < stem.len() + 1 + r.len() {
            assert(s[j] == r[j - stem.len() - 1]);
            if c < 0 {
                if j - stem.len() - 1 == 0 {
                    assert(s[j] == '-');
                } else {
                    assert(is_digit(s[j]));
                }
            } else {
                assert(is_digit(s[j]));
            }
        } else if j == stem.len() + 1 + r.len() {
            assert(s[j] == ')');
        } else {
            assert(s[j] == e[j - stem.len() - r.len() - 2]);
        }
    }
}

/// Decomposing an assembled name recovers its parts: for a non-negative
/// counter and a well-formed extension (a dot followed by at least one
/// character, none of them another dot), the stem, counter and extension
/// are read back exactly, whatever the stem contains.
pub proof fn lemma_decompose_assembled(stem: Seq<char>, n: i64, ext: Seq<char>)
    requires
        n >= 0,
        ext.len() >= 2,
        ext[0] == '.',
        forall|i: int| 1 <= i < ext.len() ==> ext[i] != '.',
    ensures
        stem_of(spec_assemble(stem, n as int, ext)) == stem,
        counter_of(spec_assemble(stem, n as int, ext)) == Option::Some(n),
        dot_ext_of(spec_assemble(stem, n as int, ext)) matches Some(e) && e == ext,
{
    let rep = signed_rep(n as int);
    lemma_dec_rep_val(n as nat);
    let mid = seq!['('] + rep + seq![')'];
    let w = stem + mid;
    let nm = spec_assemble(stem, n as int, ext);
    assert(ext != seq!['.']);
    assert(nm =~= w + ext);

    // The last dot is the one that starts the extension.
    assert(last_index_of(ext, '.') == 0) by {
        lemma_last_index_of_unique(ext, '.', 0);
    }
    lemma_last_index_of_append(w, ext, '.');
    let d = last_index_of(nm, '.');
    assert(d == w.len());
    assert(0 < d && d < nm.len() - 1);
    assert(nm.subrange(d, nm.len() as int) =~= ext);
    assert(dot_ext_of(nm) matches Some(e) && e == ext);
    assert(working_of(nm) =~= w);

    // The last parentheses are the ones around the counter.
    assert(forall|j: int| 0 <= j < rep.len() ==> is_digit(#[trigger] rep[j]));
    assert(last_index_of(mid, '(') == 0) by {
        lemma_last_index_of_unique(mid, '(', 0);
    }
    assert(last_index_of(mid, ')') == mid.len() - 1) by {
        lemma_last_index_of_unique(mid, ')', mid.len() - 1);
    }
    lemma_last_index_of_append(stem, mid, '(');
    lemma_last_index_of_append(stem, mid, ')');
    let ob = last_index_of(w, '(');
    let cb = last_index_of(w, ')');
    assert(ob == stem.len());
    assert(cb == stem.len() + mid.len() - 1);
    assert(0 <= ob && ob < cb);

    // The text between them is the counter.
    assert(w.subrange(ob + 1, cb) =~= rep);
    assert(parse_int(rep) == Option::Some(n as int)) by {
        assert(is_digit(rep[0]));
        assert(rep[0] != '+' && rep[0] != '-');
    }
    assert(counter_of(nm) == Option::Some(n));

    // The counter suffix is stripped, giving the stem back.
    let suf = counter_suffix(n);
    assert(suf =~= mid);
    assert(w.subrange(w.len() - suf.len(), w.len() as int) =~= mid);
    assert(w.subrange(0, w.len() - suf.len()) =~= stem);
    assert(stem_of(nm) == stem);
}

} // verus!
