//! The session map.
//!
//! A batch of constructed documents, keyed by alias for one unit of
//! work.  Building the map from an ordered list of construction results
//! fails fast: the first failure is handed back and no partial map is
//! exposed.  A document whose alias is the sentinel `"_"` is left out of
//! the map on purpose.  Aliases are unique within one map, the last
//! insertion winning silently.

use vstd::prelude::*;

use crate::document::Document;
use crate::document_error::DocumentError;

verus! {

/// The mapping an entry list denotes: alias to document, later entries
/// winning (the invariant keeps aliases unique).
pub open spec fn alias_map(s: Seq<Document>) -> Map<Seq<char>, Document>
    decreases s.len(),
{
    if s.len() == 0 {
        Map::empty()
    } else {
        alias_map(s.drop_last()).insert(s.last()@.alias, s.last())
    }
}

/// Whether the aliases of an entry list are pairwise distinct.
pub open spec fn aliases_unique(s: Seq<Document>) -> bool {
    forall|i: int, j: int|
        0 <= i < j < s.len() ==> (#[trigger] s[i])@.alias != (#[trigger] s[j])@.alias
}

proof fn lemma_alias_map_dom(s: Seq<Document>)
    ensures
        forall|x: Seq<char>|
            alias_map(s).dom().contains(x) <==> exists|i: int|
                0 <= i < s.len() && (#[trigger] s[i])@.alias == x,
        alias_map(s).dom().finite(),
        alias_map(s).dom().len() <= s.len(),
    decreases s.len(),
{
    if s.len() > 0 {
        lemma_alias_map_dom(s.drop_last());
        assert(forall|i: int| 0 <= i < s.len() - 1 ==> s.drop_last()[i] == s[i]);
        assert forall|x: Seq<char>|
            alias_map(s).dom().contains(x) implies exists|i: int|
            0 <= i < s.len() && (#[trigger] s[i])@.alias == x by {
            if x == s.last()@.alias {
                assert(s[s.len() - 1]@.alias == x);
            } else {
                let i = choose|i: int|
                    0 <= i < s.len() - 1 && (#[trigger] s.drop_last()[i])@.alias == x;
                assert(s[i]@.alias == x);
            }
        }
        assert forall|x: Seq<char>| (exists|i: int|
            0 <= i < s.len() && (#[trigger] s[i])@.alias == x) implies alias_map(
            s,
        ).dom().contains(x) by {
            let i = choose|i: int| 0 <= i < s.len() && (#[trigger] s[i])@.alias == x;
            if i < s.len() - 1 {
                assert(s.drop_last()[i]@.alias == x);
            }
        }
    }
}

proof fn lemma_alias_map_at(s: Seq<Document>, i: int)
    requires
        aliases_unique(s),
        0 <= i < s.len(),
    ensures
        alias_map(s).dom().contains(s[i]@.alias),
        alias_map(s)[s[i]@.alias] == s[i],
    decreases s.len(),
{
    lemma_alias_map_dom(s);
    if i < s.len() - 1 {
        assert(forall|j: int| 0 <= j < s.len() - 1 ==> s.drop_last()[j] == s[j]);
        lemma_alias_map_at(s.drop_last(), i);
        assert(s[i]@.alias != s.last()@.alias);
    }
}

/// What building a session from an ordered list of construction results
/// yields: the first failure, or the accumulated mapping with sentinel
/// aliases skipped and later entries overriding earlier ones.
pub open spec fn spec_build(
    s: Seq<Result<Document, DocumentError>>,
    acc: Map<Seq<char>, Document>,
) -> Result<Map<Seq<char>, Document>, DocumentError>
    decreases s.len(),
{
    if s.len() == 0 {
        Result::Ok(acc)
    } else {
        match s[0] {
            Result::Err(e) => Result::Err(e),
            Result::Ok(d) => spec_build(
                s.drop_first(),
                if d@.alias == "_"@ {
                    acc
                } else {
                    acc.insert(d@.alias, d)
                },
            ),
        }
    }
}

/// The keyed batch of documents handed to one unit of work.
#[derive(Debug)]
pub struct DocumentMap {
    entries: Vec<Document>,
}

impl View for DocumentMap {
    type V = Map<Seq<char>, Document>;

    closed spec fn view(&self) -> Map<Seq<char>, Document> {
        alias_map(self.entries@)
    }
}

impl DocumentMap {
    /// The map's internal well-formedness: aliases are unique.
    pub closed spec fn inv(&self) -> bool {
        aliases_unique(self.entries@)
    }

    /// Build the session map from construction results, in order,
    /// stopping at the first failure.
    pub fn build(results: Vec<Result<Document, DocumentError>>) -> (r: Result<
        DocumentMap,
        DocumentError,
    >)
        ensures
            (match r {
                Ok(m) => m.inv() && (spec_build(results@, Map::empty()) matches Ok(mm) && m@
                    == mm),
                Err(e) => spec_build(results@, Map::empty()) matches Err(e2) && e == e2,
            }),
    {
        let underscore = String::from_str("_");
        let mut remaining = results;
        let ghost orig = remaining@;
        let mut entries: Vec<Document> = Vec::new();
        while remaining.len() > 0
            invariant
                underscore@ == "_"@,
                orig == results@,
                aliases_unique(entries@),
                spec_build(orig, Map::empty()) == spec_build(remaining@, alias_map(entries@)),
            decreases remaining.len(),
        {
            let ghost pre = remaining@;
            let item = remaining.remove(0);
            proof {
                assert(pre.subrange(1, pre.len() as int) =~= pre.drop_first());
            }
            match item {
                Result::Err(e) => {
                    return Result::Err(e);
                },
                Result::Ok(d) => {
                    let skip = d.alias().clone() == underscore;
                    if !skip {
                        insert_last_wins(&mut entries, d);
                    }
                },
            }
        }
        proof {
            assert(remaining@.len() == 0);
        }
        Result::Ok(DocumentMap { entries })
    }

    /// Look up a document by alias.
    pub fn get(&self, alias: &str) -> (r: Option<&Document>)
        requires
            self.inv(),
        ensures
            (match r {
                Some(d) => self@.dom().contains(alias@) && *d == self@[alias@],
                None => !self@.dom().contains(alias@),
            }),
    {
        proof {
            lemma_alias_map_dom(self.entries@);
        }
        let key = alias.to_owned();
        let n = self.entries.len();
        let mut i: usize = 0;
        while i < n
            invariant
                0 <= i <= n,
                n == self.entries@.len(),
                key@ == alias@,
                self.inv(),
                forall|j: int| 0 <= j < i ==> (#[trigger] self.entries@[j])@.alias != alias@,
            decreases n - i,
        {
            if self.entries[i].alias().clone() == key {
                proof {
                    lemma_alias_map_at(self.entries@, i as int);
                }
                return Option::Some(&self.entries[i]);
            }
            i = i + 1;
        }
        proof {
            if self@.dom().contains(alias@) {
                let j = choose|j: int|
                    0 <= j < self.entries@.len() && (#[trigger] self.entries@[j])@.alias == alias@;
            }
        }
        Option::None
    }

    /// How many documents the session tracks.
    pub fn len(&self) -> (r: usize)
        requires
            self.inv(),
        ensures
            r == self@.dom().len(),
    {
        proof {
            lemma_dom_len_exact(self.entries@);
        }
        self.entries.len()
    }

    /// The tracked documents, in insertion order.
    pub fn documents(&self) -> (r: &Vec<Document>)
        requires
            self.inv(),
        ensures
            r@.len() == self@.dom().len(),
            forall|i: int|
                0 <= i < r@.len() ==> self@.dom().contains((#[trigger] r@[i])@.alias) && self@[(
                r@[i])@.alias] == r@[i],
    {
        proof {
            lemma_dom_len_exact(self.entries@);
            assert forall|i: int| 0 <= i < self.entries@.len() implies self@.dom().contains((
            #[trigger] self.entries@[i])@.alias) && self@[(self.entries@[i])@.alias]
                == self.entries@[i] by {
                lemma_alias_map_at(self.entries@, i);
            }
        }
        &self.entries
    }
}

/// Insert a document under its alias, replacing any entry that already
/// carries that alias: the last insertion wins.
fn insert_last_wins(entries: &mut Vec<Document>, d: Document)
    requires
        aliases_unique(old(entries)@),
    ensures
        aliases_unique(final(entries)@),
        alias_map(final(entries)@) == alias_map(old(entries)@).insert(d@.alias, d),
{
    let n = entries.len();
    let mut i: usize = 0;
    while i < n
        invariant
            0 <= i <= n,
            n == entries@.len(),
            entries@ == old(entries)@,
            aliases_unique(entries@),
            forall|j: int| 0 <= j < i ==> (#[trigger] entries@[j])@.alias != d@.alias,
        decreases n - i,
    {
        let same = entries[i].alias().clone() == d.alias().clone();
        if same {
            entries.set(i, d);
            proof {
                lemma_alias_update(old(entries)@, i as int, entries@[i as int]);
                assert(entries@ =~= old(entries)@.update(i as int, entries@[i as int]));
            }
            return ;
        }
        i = i + 1;
    }
    entries.push(d);
    proof {
        let s = entries@;
        assert(s.drop_last() =~= old(entries)@);
        assert forall|a: int, b: int| 0 <= a < b < s.len() implies (#[trigger] s[a])@.alias != (
        #[trigger] s[b])@.alias by {
            if b == s.len() - 1 {
                assert(old(entries)@[a] == s[a]);
            }
        }
    }
}

/// Updating one entry in place, alias unchanged, updates the map at that
/// alias.
proof fn lemma_alias_update(s: Seq<Document>, i: int, d: Document)
    requires
        aliases_unique(s),
        0 <= i < s.len(),
        d@.alias == s[i]@.alias,
    ensures
        aliases_unique(s.update(i, d)),
        alias_map(s.update(i, d)) == alias_map(s).insert(d@.alias, d),
    decreases s.len(),
{
    let t = s.update(i, d);
    assert forall|a: int, b: int| 0 <= a < b < t.len() implies (#[trigger] t[a])@.alias != (
    #[trigger] t[b])@.alias by {
        assert(s[a]@.alias != s[b]@.alias);
    }
    if i == s.len() - 1 {
        assert(t.drop_last() =~= s.drop_last());
        assert(alias_map(s).insert(d@.alias, d) =~= alias_map(s.drop_last()).insert(d@.alias, d));
    } else {
        assert(t.drop_last() =~= s.drop_last().update(i, d));
        assert(t.last() == s.last());
        lemma_alias_update(s.drop_last(), i, d);
        assert(s[i]@.alias != s.last()@.alias);
        assert(alias_map(s.drop_last()).insert(d@.alias, d).insert(s.last()@.alias, s.last())
            =~= alias_map(s.drop_last()).insert(s.last()@.alias, s.last()).insert(d@.alias, d));
    }
}

/// With unique aliases the map has exactly one entry per list element.
proof fn lemma_dom_len_exact(s: Seq<Document>)
    requires
        aliases_unique(s),
    ensures
        alias_map(s).dom().len() == s.len(),
        alias_map(s).dom().finite(),
    decreases s.len(),
{
    lemma_alias_map_dom(s);
    if s.len() > 0 {
        assert(forall|i: int| 0 <= i < s.len() - 1 ==> s.drop_last()[i] == s[i]);
        lemma_dom_len_exact(s.drop_last());
        lemma_alias_map_dom(s.drop_last());
        assert(!alias_map(s.drop_last()).dom().contains(s.last()@.alias)) by {
            if alias_map(s.drop_last()).dom().contains(s.last()@.alias) {
                let i = choose|i: int|
                    0 <= i < s.len() - 1 && (#[trigger] s.drop_last()[i])@.alias
                        == s.last()@.alias;
                assert(s[i]@.alias == s[s.len() - 1]@.alias);
            }
        }
        assert(alias_map(s).dom() =~= alias_map(s.drop_last()).dom().insert(s.last()@.alias));
    } else {
        assert(alias_map(s).dom() =~= Set::<Seq<char>>::empty());
    }
}

/// Building from a list whose first failure sits at position `i` yields
/// exactly that failure, whatever was accumulated before it.
pub proof fn lemma_build_fail_fast(
    s: Seq<Result<Document, DocumentError>>,
    acc: Map<Seq<char>, Document>,
    i: int,
)
    requires
        0 <= i < s.len(),
        s[i] is Err,
        forall|j: int| 0 <= j < i ==> (#[trigger] s[j]) is Ok,
    ensures
        spec_build(s, acc) matches Err(e) && e == s[i]->Err_0,
    decreases i,
{
    if i > 0 {
        assert(forall|j: int|
            0 <= j < i - 1 ==> s.drop_first()[j] == (#[trigger] s[j + 1]) && s[j + 1] is Ok);
        match s[0] {
            Result::Ok(d) => {
                lemma_build_fail_fast(
                    s.drop_first(),
                    if d@.alias == "_"@ {
                        acc
                    } else {
                        acc.insert(d@.alias, d)
                    },
                    i - 1,
                );
            },
            Result::Err(_) => {
                assert(s[0] is Ok);
            },
        }
    }
}

/// A built session never tracks the sentinel alias.
pub proof fn lemma_build_skips_sentinel(
    s: Seq<Result<Document, DocumentError>>,
    acc: Map<Seq<char>, Document>,
)
    requires
        !acc.dom().contains("_"@),
        spec_build(s, acc) is Ok,
    ensures
        !(spec_build(s, acc)->Ok_0).dom().contains("_"@),
    decreases s.len(),
{
    if s.len() > 0 {
        match s[0] {
            Result::Ok(d) => {
                if d@.alias == "_"@ {
                    lemma_build_skips_sentinel(s.drop_first(), acc);
                } else {
                    lemma_build_skips_sentinel(s.drop_first(), acc.insert(d@.alias, d));
                }
            },
            Result::Err(_) => {
            },
        }
    }
}

} // verus!
