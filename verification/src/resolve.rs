//! Collision resolution against a file store.
//!
//! [`FileStore`] is an in-memory filesystem: a map from paths to file
//! contents.  [`setup_in`] runs the creation-policy engine against it and
//! is the fully verified form of the resolution pipeline: the same engine
//! that an unverified driver runs against the real disk is driven here
//! against the store, so every decision — when a file is created, which
//! candidate name ends the collision search, which error is reported — is
//! covered by the contracts below.

use vstd::prelude::*;

use crate::create::Create;
use crate::document_error::DocumentError;
use crate::engine::{counter_or_zero, ext_or_empty, phase_rank, wf, Engine, Step};
use crate::filename::{lemma_assemble_injective, spec_assemble, stem_of};
use crate::path::{filename_of, join_dir, lemma_join_injective, parent_of};

verus! {

broadcast use vstd::set::group_set_axioms, vstd::seq::group_seq_axioms;

/// The contents of a store: each entry is a path with the bytes stored
/// under it, later entries winning (the invariant keeps keys unique, so
/// the order never matters).
pub open spec fn entries_map(s: Seq<(String, Vec<u8>)>) -> Map<Seq<char>, Seq<u8>>
    decreases s.len(),
{
    if s.len() == 0 {
        Map::empty()
    } else {
        entries_map(s.drop_last()).insert(s.last().0@, s.last().1@)
    }
}

/// Whether the keys of an entry list are pairwise distinct.
pub open spec fn keys_unique(s: Seq<(String, Vec<u8>)>) -> bool {
    forall|i: int, j: int| 0 <= i < j < s.len() ==> (#[trigger] s[i]).0@ != (#[trigger] s[j]).0@
}

proof fn lemma_entries_map_dom(s: Seq<(String, Vec<u8>)>)
    ensures
        forall|x: Seq<char>|
            entries_map(s).dom().contains(x) <==> exists|i: int|
                0 <= i < s.len() && (#[trigger] s[i]).0@ == x,
        entries_map(s).dom().finite(),
        entries_map(s).dom().len() <= s.len(),
    decreases s.len(),
{
    if s.len() > 0 {
        lemma_entries_map_dom(s.drop_last());
        assert(forall|i: int| 0 <= i < s.len() - 1 ==> s.drop_last()[i] == s[i]);
        assert forall|x: Seq<char>|
            entries_map(s).dom().contains(x) implies exists|i: int|
            0 <= i < s.len() && (#[trigger] s[i]).0@ == x by {
            if x == s.last().0@ {
                assert(s[s.len() - 1].0@ == x);
            } else {
                let i = choose|i: int| 0 <= i < s.len() - 1 && (#[trigger] s.drop_last()[i]).0@
                    == x;
                assert(s[i].0@ == x);
            }
        }
        assert forall|x: Seq<char>| (exists|i: int| 0 <= i < s.len() && (#[trigger] s[i]).0@ == x)
            implies entries_map(s).dom().contains(x) by {
            let i = choose|i: int| 0 <= i < s.len() && (#[trigger] s[i]).0@ == x;
            if i < s.len() - 1 {
                assert(s.drop_last()[i].0@ == x);
            }
        }
    }
}

proof fn lemma_entries_map_at(s: Seq<(String, Vec<u8>)>, i: int)
    requires
        keys_unique(s),
        0 <= i < s.len(),
    ensures
        entries_map(s).dom().contains(s[i].0@),
        entries_map(s)[s[i].0@] == s[i].1@,
    decreases s.len(),
{
    lemma_entries_map_dom(s);
    if i == s.len() - 1 {
    } else {
        assert(forall|j: int| 0 <= j < s.len() - 1 ==> s.drop_last()[j] == s[j]);
        lemma_entries_map_at(s.drop_last(), i);
        assert(s[i].0@ != s.last().0@);
    }
}

/// An in-memory filesystem: paths mapped to their contents.  Folder
/// creation is a free operation in the store, so only files are modeled.
pub struct FileStore {
    entries: Vec<(String, Vec<u8>)>,
}

impl View for FileStore {
    type V = Map<Seq<char>, Seq<u8>>;

    closed spec fn view(&self) -> Map<Seq<char>, Seq<u8>> {
        entries_map(self.entries@)
    }
}

impl FileStore {
    /// The store's internal well-formedness: keys are unique.
    pub closed spec fn inv(&self) -> bool {
        keys_unique(self.entries@)
    }

    /// An empty store.
    pub fn new() -> (r: FileStore)
        ensures
            r.inv(),
            r@ == Map::<Seq<char>, Seq<u8>>::empty(),
            r@.dom().finite(),
            r@.dom().len() == 0,
    {
        let r = FileStore { entries: Vec::new() };
        proof {
            assert(r.entries@.len() == 0);
            assert(r@.dom() =~= Set::<Seq<char>>::empty());
        }
        r
    }

    /// How many files the store holds.
    pub fn file_count(&self) -> (r: usize)
        requires
            self.inv(),
        ensures
            r == self@.dom().len(),
    {
        proof {
            lemma_entries_map_dom(self.entries@);
            lemma_dom_len_exact(self.entries@);
        }
        self.entries.len()
    }

    /// Whether a file exists at `p`.
    pub fn contains(&self, p: &str) -> (b: bool)
        requires
            self.inv(),
        ensures
            b == self@.dom().contains(p@),
    {
        proof {
            lemma_entries_map_dom(self.entries@);
        }
        let key = p.to_owned();
        let n = self.entries.len();
        let mut i: usize = 0;
        while i < n
            invariant
                0 <= i <= n,
                n == self.entries@.len(),
                key@ == p@,
                forall|j: int| 0 <= j < i ==> (#[trigger] self.entries@[j]).0@ != p@,
            decreases n - i,
        {
            if self.entries[i].0 == key {
                proof {
                    lemma_entries_map_dom(self.entries@);
                    assert((self.entries@[i as int]).0@ == p@);
                    assert(exists|j: int|
                        0 <= j < self.entries@.len() && (#[trigger] self.entries@[j]).0@ == p@);
                }
                return true;
            }
            i = i + 1;
        }
        proof {
            if self@.dom().contains(p@) {
                let j = choose|j: int|
                    0 <= j < self.entries@.len() && (#[trigger] self.entries@[j]).0@ == p@;
            }
        }
        false
    }

    /// The contents stored at `p`, when a file is there.
    pub fn read(&self, p: &str) -> (r: Option<&Vec<u8>>)
        requires
            self.inv(),
        ensures
            (match r {
                Some(v) => self@.dom().contains(p@) && v@ == self@[p@],
                None => !self@.dom().contains(p@),
            }),
    {
        proof {
            lemma_entries_map_dom(self.entries@);
        }
        let key = p.to_owned();
        let n = self.entries.len();
        let mut i: usize = 0;
        while i < n
            invariant
                0 <= i <= n,
                n == self.entries@.len(),
                key@ == p@,
                self.inv(),
                forall|j: int| 0 <= j < i ==> (#[trigger] self.entries@[j]).0@ != p@,
            decreases n - i,
        {
            if self.entries[i].0 == key {
                proof {
                    lemma_entries_map_at(self.entries@, i as int);
                }
                return Option::Some(&self.entries[i].1);
            }
            i = i + 1;
        }
        proof {
            if self@.dom().contains(p@) {
                let j = choose|j: int|
                    0 <= j < self.entries@.len() && (#[trigger] self.entries@[j]).0@ == p@;
            }
        }
        Option::None
    }

    /// Create an empty file at `p`, which must be free.
    pub fn create_empty(&mut self, p: &str)
        requires
            old(self).inv(),
            !old(self)@.dom().contains(p@),
        ensures
            final(self).inv(),
            final(self)@ == old(self)@.insert(p@, Seq::<u8>::empty()),
            final(self)@.dom().finite() == old(self)@.dom().finite(),
    {
        proof {
            lemma_entries_map_dom(self.entries@);
        }
        let entry = (p.to_owned(), Vec::<u8>::new());
        self.entries.push(entry);
        proof {
            let s = self.entries@;
            assert(s.drop_last() =~= old(self).entries@);
            assert(s.last().0@ == p@);
            assert forall|i: int, j: int| 0 <= i < j < s.len() implies (#[trigger] s[i]).0@ != (
            #[trigger] s[j]).0@ by {
                if j == s.len() - 1 {
                    assert(old(self).entries@[i] == s[i]);
                }
            }
        }
    }

    /// Replace the contents of the file at `p`, which must exist.
    pub fn overwrite(&mut self, p: &str, data: Vec<u8>)
        requires
            old(self).inv(),
            old(self)@.dom().contains(p@),
        ensures
            final(self).inv(),
            final(self)@ == old(self)@.insert(p@, data@),
    {
        proof {
            lemma_entries_map_dom(self.entries@);
        }
        let key = p.to_owned();
        let n = self.entries.len();
        let mut i: usize = 0;
        while i < n
            invariant
                0 <= i <= n,
                n == self.entries@.len(),
                key@ == p@,
                self == old(self),
                self.inv(),
                old(self)@.dom().contains(p@),
                forall|j: int| 0 <= j < i ==> (#[trigger] self.entries@[j]).0@ != p@,
            decreases n - i,
        {
            if self.entries[i].0 == key {
                self.entries.set(i, (key, data));
                proof {
                    lemma_update_entry(old(self).entries@, i as int, self.entries@[i as int]);
                    assert(self.entries@ =~= old(self).entries@.update(
                        i as int,
                        self.entries@[i as int],
                    ));
                }
                return ;
            }
            i = i + 1;
        }
        proof {
            let j = choose|j: int|
                0 <= j < self.entries@.len() && (#[trigger] self.entries@[j]).0@ == p@;
            assert(false);
        }
    }
}

/// With unique keys the map has exactly one entry per list element.
proof fn lemma_dom_len_exact(s: Seq<(String, Vec<u8>)>)
    requires
        keys_unique(s),
    ensures
        entries_map(s).dom().len() == s.len(),
        entries_map(s).dom().finite(),
    decreases s.len(),
{
    lemma_entries_map_dom(s);
    if s.len() > 0 {
        assert(forall|i: int| 0 <= i < s.len() - 1 ==> s.drop_last()[i] == s[i]);
        lemma_dom_len_exact(s.drop_last());
        lemma_entries_map_dom(s.drop_last());
        assert(!entries_map(s.drop_last()).dom().contains(s.last().0@)) by {
            if entries_map(s.drop_last()).dom().contains(s.last().0@) {
                let i = choose|i: int|
                    0 <= i < s.len() - 1 && (#[trigger] s.drop_last()[i]).0@ == s.last().0@;
                assert(s[i].0@ == s[s.len() - 1].0@);
            }
        }
        assert(entries_map(s).dom() =~= entries_map(s.drop_last()).dom().insert(s.last().0@));
    } else {
        assert(entries_map(s).dom() =~= Set::<Seq<char>>::empty());
    }
}

/// The candidate path tried for counter `k` when resolving `path`: the
/// assembled name joined back under the path's parent.
pub open spec fn candidate(path: Seq<char>, k: int) -> Seq<char> {
    join_dir(
        parent_of(path),
        spec_assemble(
            stem_of(filename_of(path)),
            k,
            ext_or_empty(filename_of(path)),
        ),
    )
}

/// Distinct counters give distinct candidate paths.
pub proof fn lemma_candidate_injective(path: Seq<char>, k1: int, k2: int)
    requires
        candidate(path, k1) == candidate(path, k2),
    ensures
        k1 == k2,
{
    let fname = filename_of(path);
    lemma_join_injective(
        parent_of(path),
        spec_assemble(stem_of(fname), k1, ext_or_empty(fname)),
        spec_assemble(stem_of(fname), k2, ext_or_empty(fname)),
    );
    lemma_assemble_injective(stem_of(fname), k1, k2, ext_or_empty(fname));
}

/// When the candidates for every counter in `[lo, hi)` lie in a finite
/// set, the range is no larger than the set.
proof fn lemma_candidate_range_card(path: Seq<char>, lo: int, hi: int, s: Set<Seq<char>>)
    requires
        s.finite(),
        lo <= hi,
        forall|k: int| lo <= k < hi ==> s.contains(#[trigger] candidate(path, k)),
    ensures
        hi - lo <= s.len(),
    decreases hi - lo,
{
    if lo < hi {
        let x = candidate(path, hi - 1);
        let s2 = s.remove(x);
        assert(s.contains(x));
        assert(s2.len() == s.len() - 1);
        assert forall|k: int| lo <= k < hi - 1 implies s2.contains(
            #[trigger] candidate(path, k),
        ) by {
            if candidate(path, k) == x {
                lemma_candidate_injective(path, k, hi - 1);
            }
        }
        lemma_candidate_range_card(path, lo, hi - 1, s2);
    }
}

/// What a successful resolution of `path` under `policy` means: `out` is
/// the path handed back and `fs1` the store afterwards, starting from
/// `fs0`.
///
/// Under `No` nothing changes and, outside a dry run, the path had to
/// exist.  Under `OnlyIfNotExists` the path is handed back unchanged and
/// an empty file is created exactly when it was missing.  Under
/// `AutoRenameIfExists` the result is the path itself when free, else the
/// candidate for the first free counter past the starting one, and an
/// empty file is created there unless this is a dry run.
pub open spec fn setup_ok(
    fs0: Map<Seq<char>, Seq<u8>>,
    path: Seq<char>,
    policy: Create,
    dry_run: bool,
    out: Seq<char>,
    fs1: Map<Seq<char>, Seq<u8>>,
) -> bool {
    match policy {
        Create::No => out == path && fs1 == fs0 && (dry_run || fs0.dom().contains(path)),
        Create::OnlyIfNotExists => out == path && fs1 == if dry_run || fs0.dom().contains(path) {
            fs0
        } else {
            fs0.insert(path, Seq::empty())
        },
        Create::AutoRenameIfExists => {
            let c0 = counter_or_zero(filename_of(path));
            &&& (if fs0.dom().contains(path) {
                exists|n: int|
                    {
                        &&& c0 < n <= i64::MAX
                        &&& out == #[trigger] candidate(path, n)
                        &&& !fs0.dom().contains(candidate(path, n))
                        &&& forall|k: int|
                            c0 < k < n ==> fs0.dom().contains(#[trigger] candidate(path, k))
                    }
            } else {
                out == path
            })
            &&& !fs0.dom().contains(out)
            &&& fs1 == if dry_run {
                fs0
            } else {
                fs0.insert(out, Seq::<u8>::empty())
            }
        },
    }
}

/// The only failure a resolution against the store can end with: under
/// policy `No`, outside a dry run, the file was not there.
pub open spec fn setup_err(
    fs0: Map<Seq<char>, Seq<u8>>,
    path: Seq<char>,
    policy: Create,
    dry_run: bool,
    e: DocumentError,
    fs1: Map<Seq<char>, Seq<u8>>,
) -> bool {
    &&& policy is No
    &&& !dry_run
    &&& !fs0.dom().contains(path)
    &&& e matches DocumentError::FileNotFound(p) && p@ == path
    &&& fs1 == fs0
}

/// Where the collision search stands when it is about to create: `out` is
/// free, and it is either the starting path itself or the candidate for
/// counter `c`, every earlier candidate being taken.
pub open spec fn resolved_at(
    fs0: Map<Seq<char>, Seq<u8>>,
    path: Seq<char>,
    out: Seq<char>,
    c: int,
    c0: int,
) -> bool {
    &&& !fs0.dom().contains(out)
    &&& (if c == c0 {
        out == path
    } else {
        &&& c0 < c
        &&& out == candidate(path, c)
        &&& fs0.dom().contains(path)
        &&& forall|k: int| c0 < k < c ==> fs0.dom().contains(#[trigger] candidate(path, k))
    })
}

/// Resolve `path` under `policy` against the store: the fully verified
/// resolution pipeline.  The engine drives exactly as against a real
/// filesystem; the store stands in for the disk, with folder creation
/// always succeeding.  In a dry run the store is left untouched and the
/// result only previews the chosen name.
pub fn setup_in(fs: &mut FileStore, path: &str, policy: Create, dry_run: bool) -> (r: Result<
    String,
    DocumentError,
>)
    requires
        old(fs).inv(),
        old(fs)@.dom().finite(),
        counter_or_zero(filename_of(path@)) + old(fs)@.dom().len() + 2 <= i64::MAX,
    ensures
        final(fs).inv(),
        final(fs)@.dom().finite(),
        (match r {
            Ok(p) => setup_ok(old(fs)@, path@, policy, dry_run, p@, final(fs)@),
            Err(e) => setup_err(old(fs)@, path@, policy, dry_run, e, final(fs)@),
        }),
{
    let ghost fs0 = old(fs)@;
    let ghost c0 = counter_or_zero(filename_of(path@));
    let ghost fs_size = fs0.dom().len() as int;
    let mut eng = Engine::new(path, policy, dry_run);
    loop
        invariant
            fs.inv(),
            fs@.dom().finite(),
            fs0 == old(fs)@,
            fs0.dom().finite(),
            c0 == counter_or_zero(filename_of(path@)),
            fs_size == fs0.dom().len(),
            c0 + fs_size + 2 <= i64::MAX,
            wf(eng@),
            eng@.start == path@,
            eng@.policy == policy,
            eng@.dry_run == dry_run,
            eng@.counter0 == c0,
            eng@.counter <= c0 + fs_size + 2,
            (eng@.phase is EnsureParent || eng@.phase is Probe ==> fs@ == fs0 && eng@.counter
                == c0),
            (eng@.phase is Scan ==> fs@ == fs0 && (eng@.counter > c0 ==> fs0.dom().contains(
                path@,
            )) && (forall|k: int|
                c0 < k < eng@.counter ==> fs0.dom().contains(#[trigger] candidate(path@, k)))),
            (eng@.phase is Create ==> !dry_run && !(policy is No) && fs@ == fs0 && resolved_at(
                fs0,
                path@,
                eng@.path,
                eng@.counter,
                c0,
            ) && (policy is OnlyIfNotExists ==> eng@.counter == c0)),
            (eng@.phase is FinalCheck ==> ((policy is No && !dry_run && fs@ == fs0 && eng@.path
                == path@ && eng@.counter == c0) || (policy is OnlyIfNotExists && fs@ == fs0
                && fs0.dom().contains(path@) && eng@.path == path@ && eng@.counter == c0) || (!(
            policy is No) && !dry_run && resolved_at(fs0, path@, eng@.path, eng@.counter, c0) && (
            policy is OnlyIfNotExists ==> eng@.counter == c0) && fs@ == fs0.insert(
                eng@.path,
                Seq::<u8>::empty(),
            )))),
            (eng@.phase is Done ==> setup_ok(fs0, path@, policy, dry_run, eng@.path, fs@)),
            (eng@.phase is FailedMissing ==> policy is No && !dry_run && !fs0.dom().contains(
                path@,
            ) && fs@ == fs0 && eng@.path == path@),
            !(eng@.phase is FailedParent),
            !(eng@.phase is FailedCreate),
            !(eng@.phase is FailedFull),
        decreases phase_rank(eng@.phase), c0 + fs_size + 2 - eng@.counter,
    {
        let step = eng.next();
        match step {
            Step::MakeParentDir(_) => {
                eng.feed(true);
            },
            Step::CheckExists(p) => {
                let b = fs.contains(p.as_str());
                let ghost v = eng@;
                proof {
                    if v.phase is Scan && b {
                        if v.counter > c0 {
                            assert(fs0.dom().contains(candidate(path@, v.counter)));
                            lemma_candidate_range_card(
                                path@,
                                c0 + 1,
                                v.counter + 1,
                                fs0.dom(),
                            );
                            assert(v.counter - c0 <= fs_size);
                        }
                        assert(v.counter < i64::MAX);
                    }
                }
                eng.feed(b);
                proof {
                    if v.phase is Scan && !b {
                        assert(resolved_at(fs0, path@, v.path, v.counter, c0)) by {
                            if v.counter == c0 {
                                assert(v.path == path@);
                            }
                        }
                        if dry_run {
                            assert(setup_ok(fs0, path@, policy, dry_run, v.path, fs@)) by {
                                if fs0.dom().contains(path@) {
                                    assert(v.counter > c0);
                                    assert({
                                        &&& c0 < v.counter <= i64::MAX
                                        &&& v.path == candidate(path@, v.counter)
                                        &&& !fs0.dom().contains(candidate(path@, v.counter))
                                        &&& forall|k: int|
                                            c0 < k < v.counter ==> fs0.dom().contains(
                                                #[trigger] candidate(path@, k),
                                            )
                                    });
                                }
                            }
                        }
                    }
                    if v.phase is FinalCheck {
                        if !(policy is No) && !dry_run && resolved_at(
                            fs0,
                            path@,
                            v.path,
                            v.counter,
                            c0,
                        ) && fs@ == fs0.insert(v.path, Seq::<u8>::empty()) {
                            assert(fs@.dom().contains(v.path));
                            assert(b);
                            assert(setup_ok(fs0, path@, policy, dry_run, v.path, fs@)) by {
                                if policy is AutoRenameIfExists && fs0.dom().contains(path@) {
                                    assert(v.counter > c0);
                                    assert({
                                        &&& c0 < v.counter <= i64::MAX
                                        &&& v.path == candidate(path@, v.counter)
                                        &&& !fs0.dom().contains(candidate(path@, v.counter))
                                        &&& forall|k: int|
                                            c0 < k < v.counter ==> fs0.dom().contains(
                                                #[trigger] candidate(path@, k),
                                            )
                                    });
                                }
                            }
                        }
                    }
                }
            },
            Step::CreateNew(p) => {
                fs.create_empty(p.as_str());
                eng.feed(true);
            },
            Step::Done(p) => {
                return Result::Ok(p);
            },
            Step::Failed(e) => {
                return Result::Err(e);
            },
        }
    }
}

/// Renaming on collision never hands back the same path twice in a row:
/// the first resolution creates its result, and the second never chooses
/// a path that already exists when it runs.
pub proof fn lemma_rename_never_repeats(
    fs0: Map<Seq<char>, Seq<u8>>,
    path: Seq<char>,
    q1: Seq<char>,
    fs1: Map<Seq<char>, Seq<u8>>,
    q2: Seq<char>,
    fs2: Map<Seq<char>, Seq<u8>>,
)
    requires
        setup_ok(fs0, path, Create::AutoRenameIfExists, false, q1, fs1),
        setup_ok(fs1, path, Create::AutoRenameIfExists, false, q2, fs2),
    ensures
        q2 != q1,
{
    assert(fs1.dom().contains(q1));
    assert(!fs1.dom().contains(q2));
}

/// A start path whose filename is an assembled candidate is its own
/// candidate for that counter, and its candidates are the assembled names
/// joined under the same parent.  The parent must not carry a redundant
/// trailing separator, and the stem and extension must be free of
/// separators, with the extension a dot followed by at least one
/// character and no further dot.
pub proof fn lemma_candidate_start(
    dir: Option<Seq<char>>,
    stem: Seq<char>,
    ext: Seq<char>,
    k: i64,
)
    requires
        k >= 0,
        ext.len() >= 2,
        ext[0] == '.',
        forall|i: int| 1 <= i < ext.len() ==> ext[i] != '.',
        forall|i: int| 0 <= i < stem.len() ==> stem[i] != '/',
        forall|i: int| 0 <= i < ext.len() ==> ext[i] != '/',
        (match dir {
            Option::Some(d) => d.len() == 0 || d == seq!['/'] || d.last() != '/',
            Option::None => true,
        }),
    ensures
        ({
            let start = join_dir(dir, spec_assemble(stem, k as int, ext));
            &&& counter_or_zero(filename_of(start)) == k
            &&& start == candidate(start, k as int)
            &&& forall|j: int| #[trigger]
                candidate(start, j) == join_dir(dir, spec_assemble(stem, j, ext))
        }),
{
    let built = spec_assemble(stem, k as int, ext);
    let start = join_dir(dir, built);
    crate::filename::lemma_assemble_no_slash(stem, k as int, ext);
    crate::path::lemma_filename_of_join(dir, built);
    assert(filename_of(start) == built);
    crate::filename::lemma_decompose_assembled(stem, k, ext);
    assert(stem_of(built) == stem);
    assert(counter_or_zero(built) == k);
    assert(ext_or_empty(built) == ext);
    assert(built.len() > 0) by {
        crate::decimal::lemma_signed_rep_len(k as int);
    }
    // The parent recorded in the start path joins the same way the given
    // parent does.
    assert forall|x: Seq<char>| #[trigger]
        join_dir(parent_of(start), x) == join_dir(dir, x) by {
        crate::text::lemma_last_index_of(start, '/');
        match dir {
            Option::None => {
                crate::text::lemma_last_index_of_absent(built, '/');
                assert(join_dir(parent_of(start), x) == x);
            },
            Option::Some(d) => {
                if d.len() == 0 {
                    crate::text::lemma_last_index_of_absent(built, '/');
                    assert(join_dir(parent_of(start), x) == x);
                } else if d == seq!['/'] {
                    assert(start =~= seq!['/'] + built);
                    crate::text::lemma_last_index_of_absent(built, '/');
                    crate::text::lemma_last_index_of_append(d, built, '/');
                    assert(crate::text::last_index_of(start, '/') == 0);
                    assert(start.len() > 1);
                    assert(parent_of(start) == Option::Some(seq!['/']));
                    assert(join_dir(parent_of(start), x) =~= join_dir(dir, x));
                } else {
                    assert(start =~= (d + seq!['/']) + built);
                    crate::text::lemma_last_index_of_absent(built, '/');
                    crate::text::lemma_last_index_of_append(d + seq!['/'], built, '/');
                    crate::text::lemma_last_index_of_append(d, seq!['/'], '/');
                    assert(crate::text::last_index_of(seq!['/'], '/') == 0);
                    assert(crate::text::last_index_of(start, '/') == d.len());
                    assert(start.subrange(0, d.len() as int) =~= d);
                    assert(parent_of(start) == Option::Some(d));
                }
            },
        }
    }
    assert(start == candidate(start, k as int)) by {
        assert(candidate(start, k as int) == join_dir(parent_of(start), built));
        assert(join_dir(parent_of(start), built) == join_dir(dir, built));
    }
}

/// The fixed point of the collision search: with exactly the candidates
/// for counters `0` to `n_files - 1` present, resolution selects the
/// candidate for `n_files` and no lower counter.
pub proof fn lemma_fixed_point(
    fs0: Map<Seq<char>, Seq<u8>>,
    path: Seq<char>,
    n_files: int,
    dry_run: bool,
    q: Seq<char>,
    fs1: Map<Seq<char>, Seq<u8>>,
)
    requires
        counter_or_zero(filename_of(path)) == 0,
        path == candidate(path, 0),
        0 <= n_files <= i64::MAX - 2,
        fs0.dom() == Set::new(
            |p: Seq<char>| exists|j: int| 0 <= j < n_files && p == #[trigger] candidate(path, j),
        ),
        setup_ok(fs0, path, Create::AutoRenameIfExists, dry_run, q, fs1),
    ensures
        q == candidate(path, n_files),
{
    let dom = Set::new(
        |p: Seq<char>| exists|j: int| 0 <= j < n_files && p == #[trigger] candidate(path, j),
    );
    if n_files == 0 {
        assert(!fs0.dom().contains(path));
        assert(q == path);
    } else {
        assert(fs0.dom().contains(path)) by {
            assert(path == candidate(path, 0));
            assert(dom.contains(candidate(path, 0)));
        }
        let n = choose|n: int|
            {
                &&& 0 < n <= i64::MAX
                &&& q == #[trigger] candidate(path, n)
                &&& !fs0.dom().contains(candidate(path, n))
                &&& forall|k: int| 0 < k < n ==> fs0.dom().contains(#[trigger] candidate(path, k))
            };
        if n < n_files {
            assert(dom.contains(candidate(path, n)));
        } else if n > n_files {
            assert(fs0.dom().contains(candidate(path, n_files)));
            let j = choose|j: int| 0 <= j < n_files && candidate(path, n_files) == #[trigger]
                candidate(path, j);
            lemma_candidate_injective(path, n_files, j);
        }
        assert(n == n_files);
    }
}

/// Resolution is a function of the store: two rename-on-collision
/// resolutions of the same path against the same store choose the same
/// name, dry run or not.
pub proof fn lemma_resolution_deterministic(
    fs0: Map<Seq<char>, Seq<u8>>,
    path: Seq<char>,
    dry1: bool,
    q1: Seq<char>,
    fs1: Map<Seq<char>, Seq<u8>>,
    dry2: bool,
    q2: Seq<char>,
    fs2: Map<Seq<char>, Seq<u8>>,
)
    requires
        setup_ok(fs0, path, Create::AutoRenameIfExists, dry1, q1, fs1),
        setup_ok(fs0, path, Create::AutoRenameIfExists, dry2, q2, fs2),
    ensures
        q1 == q2,
{
    let c0 = counter_or_zero(filename_of(path));
    if fs0.dom().contains(path) {
        let n1 = choose|n: int|
            {
                &&& c0 < n <= i64::MAX
                &&& q1 == #[trigger] candidate(path, n)
                &&& !fs0.dom().contains(candidate(path, n))
                &&& forall|k: int| c0 < k < n ==> fs0.dom().contains(#[trigger] candidate(path, k))
            };
        let n2 = choose|n: int|
            {
                &&& c0 < n <= i64::MAX
                &&& q2 == #[trigger] candidate(path, n)
                &&& !fs0.dom().contains(candidate(path, n))
                &&& forall|k: int| c0 < k < n ==> fs0.dom().contains(#[trigger] candidate(path, k))
            };
        if n1 < n2 {
            assert(fs0.dom().contains(candidate(path, n1)));
        } else if n2 < n1 {
            assert(fs0.dom().contains(candidate(path, n2)));
        }
        assert(n1 == n2);
    }
}

/// The fixed point, stated from the name's parts: with exactly the files
/// `stem(0)ext` through `stem(n_files - 1)ext` present under `dir`,
/// resolving `stem(0)ext` selects `stem(n_files)ext` and no lower
/// counter.
pub proof fn lemma_fixed_point_from_parts(
    dir: Option<Seq<char>>,
    stem: Seq<char>,
    ext: Seq<char>,
    n_files: int,
    dry_run: bool,
    fs0: Map<Seq<char>, Seq<u8>>,
    q: Seq<char>,
    fs1: Map<Seq<char>, Seq<u8>>,
)
    requires
        ext.len() >= 2,
        ext[0] == '.',
        forall|i: int| 1 <= i < ext.len() ==> ext[i] != '.',
        forall|i: int| 0 <= i < stem.len() ==> stem[i] != '/',
        forall|i: int| 0 <= i < ext.len() ==> ext[i] != '/',
        (match dir {
            Option::Some(d) => d.len() == 0 || d == seq!['/'] || d.last() != '/',
            Option::None => true,
        }),
        0 <= n_files <= i64::MAX - 2,
        fs0.dom() == Set::new(
            |p: Seq<char>|
                exists|j: int|
                    0 <= j < n_files && p == join_dir(dir, #[trigger] spec_assemble(stem, j, ext)),
        ),
        setup_ok(
            fs0,
            join_dir(dir, spec_assemble(stem, 0, ext)),
            Create::AutoRenameIfExists,
            dry_run,
            q,
            fs1,
        ),
    ensures
        q == join_dir(dir, spec_assemble(stem, n_files, ext)),
{
    lemma_candidate_start(dir, stem, ext, 0);
    let start = join_dir(dir, spec_assemble(stem, 0, ext));
    let by_parts = Set::new(
        |p: Seq<char>|
            exists|j: int|
                0 <= j < n_files && p == join_dir(dir, #[trigger] spec_assemble(stem, j, ext)),
    );
    let by_candidates = Set::new(
        |p: Seq<char>| exists|j: int| 0 <= j < n_files && p == #[trigger] candidate(start, j),
    );
    assert(by_parts =~= by_candidates) by {
        assert forall|p: Seq<char>| by_parts.contains(p) implies by_candidates.contains(p) by {
            let j = choose|j: int|
                0 <= j < n_files && p == join_dir(dir, #[trigger] spec_assemble(stem, j, ext));
            assert(candidate(start, j) == join_dir(dir, spec_assemble(stem, j, ext)));
            assert(p == candidate(start, j));
        }
        assert forall|p: Seq<char>| by_candidates.contains(p) implies by_parts.contains(p) by {
            let j = choose|j: int| 0 <= j < n_files && p == #[trigger] candidate(start, j);
            assert(candidate(start, j) == join_dir(dir, spec_assemble(stem, j, ext)));
            assert(p == join_dir(dir, #[trigger] spec_assemble(stem, j, ext)));
        }
    }
    lemma_fixed_point(fs0, start, n_files, dry_run, q, fs1);
    assert(candidate(start, n_files) == join_dir(dir, spec_assemble(stem, n_files, ext)));
}

/// Creating only when absent is idempotent: both resolutions succeed with
/// the path unchanged, the file is created at most once, and nothing
/// stored at any path — the resolved one included — is altered by the
/// second run.
pub proof fn lemma_create_if_absent_idempotent(
    fs0: Map<Seq<char>, Seq<u8>>,
    path: Seq<char>,
    q1: Seq<char>,
    fs1: Map<Seq<char>, Seq<u8>>,
    q2: Seq<char>,
    fs2: Map<Seq<char>, Seq<u8>>,
)
    requires
        setup_ok(fs0, path, Create::OnlyIfNotExists, false, q1, fs1),
        setup_ok(fs1, path, Create::OnlyIfNotExists, false, q2, fs2),
    ensures
        q1 == path,
        q2 == path,
        fs2 == fs1,
        fs1.dom().contains(path),
        fs0.dom().contains(path) ==> fs1 == fs0,
        !fs0.dom().contains(path) ==> fs1 == fs0.insert(path, Seq::<u8>::empty()),
        forall|p: Seq<char>|
            p != path && fs0.dom().contains(p) ==> fs1.dom().contains(p) && fs1[p] == #[trigger] fs0[p],
{
    assert(fs1.dom().contains(path));
}

/// Updating one entry in place, key unchanged, updates the map at that
/// key.
proof fn lemma_update_entry(s: Seq<(String, Vec<u8>)>, i: int, e: (String, Vec<u8>))
    requires
        keys_unique(s),
        0 <= i < s.len(),
        e.0@ == s[i].0@,
    ensures
        keys_unique(s.update(i, e)),
        entries_map(s.update(i, e)) == entries_map(s).insert(e.0@, e.1@),
    decreases s.len(),
{
    let t = s.update(i, e);
    assert forall|a: int, b: int| 0 <= a < b < t.len() implies (#[trigger] t[a]).0@ != (
    #[trigger] t[b]).0@ by {
        assert(s[a].0@ != s[b].0@);
    }
    if i == s.len() - 1 {
        assert(t.drop_last() =~= s.drop_last());
        assert(entries_map(t) == entries_map(s.drop_last()).insert(e.0@, e.1@));
        assert(entries_map(s) == entries_map(s.drop_last()).insert(s[i].0@, s[i].1@));
        assert(entries_map(s).insert(e.0@, e.1@) =~= entries_map(s.drop_last()).insert(
            e.0@,
            e.1@,
        ));
    } else {
        assert(t.drop_last() =~= s.drop_last().update(i, e));
        assert(t.last() == s.last());
        lemma_update_entry(s.drop_last(), i, e);
        assert(entries_map(t) == entries_map(s.drop_last()).insert(e.0@, e.1@).insert(
            s.last().0@,
            s.last().1@,
        ));
        assert(s[i].0@ != s.last().0@);
        assert(e.0@ != s.last().0@);
        assert(entries_map(s.drop_last()).insert(e.0@, e.1@).insert(s.last().0@, s.last().1@)
            =~= entries_map(s.drop_last()).insert(s.last().0@, s.last().1@).insert(e.0@, e.1@));
    }
}

} // verus!
