//! Textual paths.
//!
//! Paths are plain strings with `/` as the separator, split at the last
//! slash into a parent and a filename component, and joined back with a
//! separator unless one is already there.  This mirrors how the resolution
//! pipeline builds paths: a base directory, then one component per
//! subdirectory, then the filename.  No canonicalization is attempted.

use vstd::prelude::*;

use crate::text::{find_last, last_index_of, lemma_last_index_of, lemma_last_index_of_append};

verus! {

/// The component after the last `/`, or the whole string when there is no
/// slash.
pub open spec fn filename_of(p: Seq<char>) -> Seq<char> {
    let i = last_index_of(p, '/');
    if i >= 0 {
        p.subrange(i + 1, p.len() as int)
    } else {
        p
    }
}

/// The part before the last `/`: `None` for an empty path or the root
/// itself, `Some("")` for a bare filename, `Some("/")` directly under the
/// root, otherwise the prefix up to the last slash.
pub open spec fn parent_of(p: Seq<char>) -> Option<Seq<char>> {
    let i = last_index_of(p, '/');
    if p.len() == 0 {
        None
    } else if i < 0 {
        Some(Seq::empty())
    } else if i == 0 {
        if p.len() == 1 {
            None
        } else {
            Some(seq!['/'])
        }
    } else {
        Some(p.subrange(0, i))
    }
}

/// Joining a filename under an optional parent.  An absent or empty parent
/// contributes nothing; a parent that already ends in `/` is not given a
/// second separator.
pub open spec fn join_dir(d: Option<Seq<char>>, f: Seq<char>) -> Seq<char> {
    match d {
        Option::None => f,
        Option::Some(dd) => if dd.len() == 0 {
            f
        } else if dd.last() == '/' {
            dd + f
        } else {
            dd + seq!['/'] + f
        },
    }
}

/// A concatenation with a common prefix is injective in the suffix.
proof fn lemma_concat_cancel(a: Seq<char>, x: Seq<char>, y: Seq<char>)
    requires
        a + x == a + y,
    ensures
        x == y,
{
    assert((a + x).len() == a.len() + x.len());
    assert((a + y).len() == a.len() + y.len());
    assert(x =~= y) by {
        assert(forall|j: int|
            0 <= j < x.len() ==> x[j] == (a + x)[a.len() + j] && y[j] == (a + y)[a.len() + j]);
    }
}

/// Two filenames joined under the same parent agree only if they agree.
pub proof fn lemma_join_injective(d: Option<Seq<char>>, f1: Seq<char>, f2: Seq<char>)
    requires
        join_dir(d, f1) == join_dir(d, f2),
    ensures
        f1 == f2,
{
    match d {
        Option::None => {
        },
        Option::Some(dd) => {
            if dd.len() == 0 {
            } else if dd.last() == '/' {
                lemma_concat_cancel(dd, f1, f2);
            } else {
                assert(dd + seq!['/'] + f1 == (dd + seq!['/']) + f1);
                assert(dd + seq!['/'] + f2 == (dd + seq!['/']) + f2);
                lemma_concat_cancel(dd + seq!['/'], f1, f2);
            }
        },
    }
}

/// A joined path ends in its filename component whenever the filename
/// itself contains no slash.
pub proof fn lemma_filename_of_join(d: Option<Seq<char>>, f: Seq<char>)
    requires
        forall|j: int| 0 <= j < f.len() ==> f[j] != '/',
    ensures
        filename_of(join_dir(d, f)) == f,
{
    let p = join_dir(d, f);
    match d {
        Option::None => {
            crate::text::lemma_last_index_of_absent(f, '/');
        },
        Option::Some(dd) => {
            if dd.len() == 0 {
                crate::text::lemma_last_index_of_absent(f, '/');
            } else if dd.last() == '/' {
                crate::text::lemma_last_index_of_absent(f, '/');
                lemma_last_index_of_append(dd, f, '/');
                lemma_last_index_of(dd, '/');
                assert(last_index_of(dd, '/') == dd.len() - 1);
                assert(filename_of(p) =~= f);
            } else {
                crate::text::lemma_last_index_of_absent(f, '/');
                lemma_last_index_of_append(dd + seq!['/'], f, '/');
                lemma_last_index_of_append(dd, seq!['/'], '/');
                assert(last_index_of(seq!['/'], '/') == 0);
                assert(p =~= (dd + seq!['/']) + f);
                assert(last_index_of(p, '/') == dd.len());
                assert(filename_of(p) =~= f);
            }
        },
    }
}

/// The executable filename split.
pub fn filename_str(p: &str) -> (r: String)
    ensures
        r@ == filename_of(p@),
{
    let n = p.unicode_len();
    match find_last(p, '/') {
        Option::Some(i) => p.substring_char(i + 1, n).to_owned(),
        Option::None => p.to_owned(),
    }
}

/// The executable parent split.
pub fn parent_str(p: &str) -> (r: Option<String>)
    ensures
        (match r {
            Some(d) => parent_of(p@) matches Some(dv) && d@ == dv,
            None => parent_of(p@) is None,
        }),
{
    let n = p.unicode_len();
    if n == 0 {
        return Option::None;
    }
    match find_last(p, '/') {
        Option::Some(i) => {
            if i == 0 {
                if n == 1 {
                    Option::None
                } else {
                    let r = p.substring_char(0, 1).to_owned();
                    proof {
                        lemma_last_index_of(p@, '/');
                        assert(r@ =~= seq!['/']);
                    }
                    Option::Some(r)
                }
            } else {
                Option::Some(p.substring_char(0, i).to_owned())
            }
        },
        Option::None => Option::Some(String::new()),
    }
}

/// The executable join of a filename under an optional parent.
pub fn join_under(d: &Option<String>, f: &str) -> (r: String)
    ensures
        r@ == join_dir(opt_view(d), f@),
{
    match d {
        Option::None => f.to_owned(),
        Option::Some(dd) => {
            let n = dd.as_str().unicode_len();
            if n == 0 {
                f.to_owned()
            } else if dd.as_str().get_char(n - 1) == '/' {
                let r = dd.clone().concat(f);
                proof {
                    assert(dd@.last() == dd@[n - 1]);
                }
                r
            } else {
                proof {
                    reveal_strlit("/");
                }
                let r = dd.clone().concat("/").concat(f);
                proof {
                    assert(r@ =~= dd@ + seq!['/'] + f@);
                }
                r
            }
        },
    }
}

/// The view of an optional owned string.
pub open spec fn opt_view(d: &Option<String>) -> Option<Seq<char>> {
    match d {
        Option::None => Option::None,
        Option::Some(s) => Option::Some(s@),
    }
}

/// Appending one path component, as `PathBuf::push` does for a relative
/// component.
pub open spec fn spec_push(base: Seq<char>, c: Seq<char>) -> Seq<char> {
    join_dir(Option::Some(base), c)
}

/// Appending a whole list of components in order.
pub open spec fn spec_push_all(base: Seq<char>, cs: Seq<Seq<char>>) -> Seq<char>
    decreases cs.len(),
{
    if cs.len() == 0 {
        base
    } else {
        spec_push_all(spec_push(base, cs[0]), cs.drop_first())
    }
}

/// The executable fold of `spec_push_all` over a vector of components.
pub fn join_all(base: &str, subdirs: &Vec<String>) -> (r: String)
    ensures
        r@ == spec_push_all(base@, subdirs.deep_view()),
{
    let mut acc = base.to_owned();
    let ghost all = subdirs.deep_view();
    proof {
        assert(all.skip(0) =~= all);
    }
    let mut k: usize = 0;
    while k < subdirs.len()
        invariant
            k <= subdirs.len(),
            all == subdirs.deep_view(),
            spec_push_all(acc@, all.skip(k as int)) == spec_push_all(base@, all),
        decreases subdirs.len() - k,
    {
        let next = join_under(&Option::Some(acc), subdirs[k].as_str());
        proof {
            assert(all.skip(k as int)[0] == subdirs.deep_view()[k as int]);
            assert(all.skip(k as int).drop_first() =~= all.skip(k as int + 1));
        }
        acc = next;
        k = k + 1;
    }
    proof {
        assert(all.skip(k as int) =~= Seq::<Seq<char>>::empty());
    }
    acc
}

} // verus!
