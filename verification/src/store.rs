//! A collection of entries keyed by name and kept in ascending order of the
//! names' UTF-8 bytes. Its view is the map from names to entries.

use vstd::prelude::*;
use vstd::string::StringSliceAdditionalSpecFns;
use vstd::utf8::*;
use crate::entry::{EntryView, PerfDataEntry};

verus! {

/// `a` and `b` agree before index `k`, and there `a` ends or holds the
/// smaller byte.
pub open spec fn precedes_at(a: Seq<u8>, b: Seq<u8>, k: int) -> bool {
    &&& 0 <= k <= a.len()
    &&& k < b.len()
    &&& forall|i: int| 0 <= i < k ==> a[i] == b[i]
    &&& k < a.len() ==> a[k] < b[k]
}

/// `a` comes strictly before `b` in lexicographic order.
pub open spec fn lex_lt(a: Seq<u8>, b: Seq<u8>) -> bool {
    exists|k: int| precedes_at(a, b, k)
}

/// The name `x` comes strictly before the name `y`: by their UTF-8 bytes.
pub open spec fn name_lt(x: Seq<char>, y: Seq<char>) -> bool {
    lex_lt(encode_utf8(x), encode_utf8(y))
}

/// How one byte string stands to another in lexicographic order.
#[derive(Clone, Copy, Debug, PartialEq, Eq, Structural)]
pub enum Rank {
    Before,
    Same,
    After,
}

/// Nothing comes before itself.
pub proof fn lemma_lex_lt_irreflexive(a: Seq<u8>)
    ensures
        !lex_lt(a, a),
{
}

/// The order is transitive.
pub proof fn lemma_lex_lt_transitive(a: Seq<u8>, b: Seq<u8>, c: Seq<u8>)
    requires
        lex_lt(a, b),
        lex_lt(b, c),
    ensures
        lex_lt(a, c),
{
    let k1 = choose|k: int| precedes_at(a, b, k);
    let k2 = choose|k: int| precedes_at(b, c, k);
    if k1 <= k2 {
        assert(precedes_at(a, c, k1));
    } else {
        assert(precedes_at(a, c, k2));
    }
}

/// Two names with the same bytes are the same name.
pub proof fn lemma_same_bytes_same_name(x: Seq<char>, y: Seq<char>)
    requires
        encode_utf8(x) == encode_utf8(y),
    ensures
        x == y,
{
    encode_utf8_decode_utf8(x);
    encode_utf8_decode_utf8(y);
}

/// Compares two byte strings in lexicographic order.
pub fn lex_rank(a: &[u8], b: &[u8]) -> (r: Rank)
    ensures
        r == Rank::Before <==> lex_lt(a@, b@),
        r == Rank::Same <==> a@ == b@,
        r == Rank::After <==> lex_lt(b@, a@),
{
    let mut i: usize = 0;
    while i < a.len() && i < b.len() && a[i] == b[i]
        invariant
            i <= a@.len(),
            i <= b@.len(),
            forall|j: int| 0 <= j < i ==> a@[j] == b@[j],
        decreases a@.len() - i,
    {
        i += 1;
    }
    proof {
        lemma_lex_lt_irreflexive(a@);
    }
    if i == a.len() && i == b.len() {
        assert(a@ =~= b@);
        Rank::Same
    } else if i == a.len() || (i < b.len() && a[i] < b[i]) {
        proof {
            assert(precedes_at(a@, b@, i as int));
            if lex_lt(b@, a@) {
                lemma_lex_lt_transitive(a@, b@, a@);
            }
        }
        Rank::Before
    } else {
        proof {
            assert(precedes_at(b@, a@, i as int));
            if lex_lt(a@, b@) {
                lemma_lex_lt_transitive(a@, b@, a@);
            }
        }
        Rank::After
    }
}

/// Whether two strings hold the same text.
pub fn same_text(a: &str, b: &str) -> (same: bool)
    ensures
        same == (a@ == b@),
{
    let rank = lex_rank(a.as_bytes(), b.as_bytes());
    proof {
        if rank == Rank::Same {
            lemma_same_bytes_same_name(a@, b@);
        }
    }
    rank == Rank::Same
}

/// The names of `s` ascend strictly.
pub open spec fn ascending(s: Seq<(String, PerfDataEntry)>) -> bool {
    forall|i: int, j: int| 0 <= i < j < s.len() ==> name_lt(#[trigger] s[i].0@, #[trigger] s[j].0@)
}

/// Some pair of `s` carries the name `k`.
pub open spec fn names(s: Seq<(String, PerfDataEntry)>, k: Seq<char>) -> bool {
    exists|i: int| 0 <= i < s.len() && #[trigger] s[i].0@ == k
}

/// A position in `s` that carries the name `k`, if there is one.
pub open spec fn place_of(s: Seq<(String, PerfDataEntry)>, k: Seq<char>) -> int {
    choose|i: int| 0 <= i < s.len() && #[trigger] s[i].0@ == k
}

/// The map that a list of named entries stands for.
pub open spec fn map_of(s: Seq<(String, PerfDataEntry)>) -> Map<Seq<char>, EntryView> {
    Map::new(|k: Seq<char>| names(s, k), |k: Seq<char>| s[place_of(s, k)].1@)
}

/// In an ascending list every pair is what the map holds under its name.
pub proof fn lemma_map_of_at(s: Seq<(String, PerfDataEntry)>, i: int)
    requires
        ascending(s),
        0 <= i < s.len(),
    ensures
        map_of(s).contains_key(s[i].0@),
        map_of(s)[s[i].0@] == s[i].1@,
{
    let k = s[i].0@;
    let p = place_of(s, k);
    assert(0 <= p < s.len() && s[p].0@ == k);
    lemma_lex_lt_irreflexive(encode_utf8(k));
    if p < i {
        assert(name_lt(s[p].0@, s[i].0@));
    } else if i < p {
        assert(name_lt(s[i].0@, s[p].0@));
    }
}

/// Two ascending lists that stand for one map agree on their first `i`
/// names, as far as the first list reaches.
proof fn lemma_listings_agree_upto(
    a: Seq<(String, PerfDataEntry)>,
    b: Seq<(String, PerfDataEntry)>,
    i: int,
)
    requires
        ascending(a),
        ascending(b),
        map_of(a) == map_of(b),
        0 <= i <= a.len(),
    ensures
        i <= b.len(),
        forall|j: int| 0 <= j < i ==> (#[trigger] a[j]).0@ == b[j].0@,
    decreases i,
{
    if i > 0 {
        lemma_listings_agree_upto(a, b, i - 1);
        let at = i - 1;
        let name = a[at].0@;
        lemma_map_of_at(a, at);
        assert(names(b, name));
        let q = place_of(b, name);
        lemma_lex_lt_irreflexive(encode_utf8(name));
        if q < at {
            assert(a[q].0@ == b[q].0@);
            assert(name_lt(a[q].0@, a[at].0@));
        }
        if q > at {
            let other = b[at].0@;
            lemma_map_of_at(b, at);
            assert(names(a, other));
            let p = place_of(a, other);
            assert(name_lt(b[at].0@, b[q].0@));
            if p < at {
                assert(a[p].0@ == b[p].0@);
                assert(name_lt(b[p].0@, b[at].0@));
                lemma_lex_lt_irreflexive(encode_utf8(other));
            } else if p > at {
                assert(name_lt(a[at].0@, a[p].0@));
                lemma_lex_lt_transitive(encode_utf8(name), encode_utf8(other), encode_utf8(name));
            }
        }
    }
}

/// A map has one ascending list: two ascending lists that stand for the
/// same map have the same names with the same entries in the same places.
pub proof fn lemma_listing_unique(
    a: Seq<(String, PerfDataEntry)>,
    b: Seq<(String, PerfDataEntry)>,
)
    requires
        ascending(a),
        ascending(b),
        map_of(a) == map_of(b),
    ensures
        a.len() == b.len(),
        forall|i: int|
            0 <= i < a.len() ==> (#[trigger] a[i]).0@ == b[i].0@ && a[i].1@ == b[i].1@,
{
    lemma_listings_agree_upto(a, b, a.len() as int);
    lemma_listings_agree_upto(b, a, b.len() as int);
    assert forall|i: int| 0 <= i < a.len() implies (#[trigger] a[i]).0@ == b[i].0@ && a[i].1@
        == b[i].1@ by {
        lemma_map_of_at(a, i);
        lemma_map_of_at(b, i);
    }
}

/// Where `name` stands in an ascending list: the first position whose name
/// does not come before it, and whether that position carries `name` itself.
fn locate(items: &Vec<(String, PerfDataEntry)>, name: &str) -> (r: (usize, bool))
    requires
        ascending(items@),
    ensures
        r.0 <= items@.len(),
        forall|j: int| 0 <= j < r.0 ==> name_lt(#[trigger] items@[j].0@, name@),
        r.1 ==> r.0 < items@.len() && items@[r.0 as int].0@ == name@,
        !r.1 && r.0 < items@.len() ==> name_lt(name@, items@[r.0 as int].0@),
        r.1 <==> names(items@, name@),
{
    let mut idx: usize = 0;
    while idx < items.len()
        invariant
            ascending(items@),
            idx <= items@.len(),
            forall|j: int| 0 <= j < idx ==> name_lt(#[trigger] items@[j].0@, name@),
        decreases items@.len() - idx,
    {
        let rank = lex_rank(items[idx].0.as_str().as_bytes(), name.as_bytes());
        match rank {
            Rank::Before => {
                idx += 1;
            },
            Rank::Same => {
                proof {
                    lemma_same_bytes_same_name(items@[idx as int].0@, name@);
                }
                return (idx, true);
            },
            Rank::After => {
                proof {
                    lemma_absent(items@, name@, idx as int);
                }
                return (idx, false);
            },
        }
    }
    proof {
        lemma_absent(items@, name@, idx as int);
    }
    (idx, false)
}

/// A name that falls strictly between two neighbours of an ascending list,
/// or after its last name, is not in the list.
proof fn lemma_absent(s: Seq<(String, PerfDataEntry)>, k: Seq<char>, at: int)
    requires
        ascending(s),
        0 <= at <= s.len(),
        forall|j: int| 0 <= j < at ==> name_lt(#[trigger] s[j].0@, k),
        at < s.len() ==> name_lt(k, s[at].0@),
    ensures
        !names(s, k),
{
    if names(s, k) {
        let i = place_of(s, k);
        lemma_lex_lt_irreflexive(encode_utf8(k));
        if i < at {
            assert(name_lt(s[i].0@, k));
        } else if i > at {
            assert(name_lt(s[at].0@, s[i].0@));
            lemma_lex_lt_transitive(encode_utf8(k), encode_utf8(s[at].0@), encode_utf8(k));
        }
    }
}

/// Entries keyed by name, in ascending order of the names.
#[derive(Debug)]
pub struct EntryMap {
    items: Vec<(String, PerfDataEntry)>,
}

impl View for EntryMap {
    type V = Map<Seq<char>, EntryView>;

    closed spec fn view(&self) -> Map<Seq<char>, EntryView> {
        map_of(self.items@)
    }
}

impl EntryMap {
    #[verifier::type_invariant]
    spec fn well_ordered(&self) -> bool {
        ascending(self.items@)
    }

    /// An empty collection.
    pub fn new() -> (m: EntryMap)
        ensures
            m@ == Map::<Seq<char>, EntryView>::empty(),
    {
        let m = EntryMap { items: Vec::new() };
        assert(m@ =~= Map::<Seq<char>, EntryView>::empty());
        m
    }

    /// The entry under `name`, if there is one.
    pub fn get(&self, name: &str) -> (r: Option<&PerfDataEntry>)
        ensures
            match r {
                Some(entry) => self@.contains_key(name@) && self@[name@] == entry@,
                None => !self@.contains_key(name@),
            },
    {
        proof {
            use_type_invariant(self);
        }
        let (idx, found) = locate(&self.items, name);
        if found {
            proof {
                lemma_map_of_at(self.items@, idx as int);
            }
            Some(&self.items[idx].1)
        } else {
            None
        }
    }

    /// The named entries, each name once, in ascending order of the names.
    pub fn as_slice(&self) -> (r: &[(String, PerfDataEntry)])
        ensures
            ascending(r@),
            map_of(r@) == self@,
    {
        proof {
            use_type_invariant(self);
        }
        self.items.as_slice()
    }

    /// Puts `entry` under `name`, in place of what was there under that name.
    pub fn insert(&mut self, name: String, entry: PerfDataEntry)
        ensures
            final(self)@ == old(self)@.insert(name@, entry@),
    {
        proof {
            use_type_invariant(&*self);
        }
        let mut taken = EntryMap { items: Vec::new() };
        core::mem::swap(self, &mut taken);
        let mut items = taken.items;
        let ghost before = items@;
        let (idx, found) = locate(&items, name.as_str());
        let ghost key = name@;
        let ghost val = entry@;
        if found {
            items.set(idx, (name, entry));
            proof {
                let after = items@;
                assert forall|i: int, j: int| 0 <= i < j < after.len() implies name_lt(
                    #[trigger] after[i].0@,
                    #[trigger] after[j].0@,
                ) by {
                    assert(after[i].0@ == before[i].0@);
                    assert(after[j].0@ == before[j].0@);
                }
                assert forall|k: Seq<char>| names(after, k) <==> (k == key || names(before, k)) by {
                    if names(after, k) {
                        let i = place_of(after, k);
                        assert(before[i].0@ == k);
                    }
                    if names(before, k) {
                        let i = place_of(before, k);
                        assert(after[i].0@ == k);
                    }
                    if k == key {
                        assert(after[idx as int].0@ == k);
                    }
                }
                assert forall|k: Seq<char>| names(after, k) implies #[trigger] map_of(after)[k]
                    == map_of(before).insert(key, val)[k] by {
                    let i = place_of(after, k);
                    lemma_map_of_at(after, i);
                    if k != key {
                        assert(i != idx);
                        lemma_map_of_at(before, i);
                    }
                }
                assert(map_of(after) =~= map_of(before).insert(key, val));
            }
        } else {
            items.insert(idx, (name, entry));
            proof {
                let after = items@;
                assert forall|i: int, j: int| 0 <= i < j < after.len() implies name_lt(
                    #[trigger] after[i].0@,
                    #[trigger] after[j].0@,
                ) by {
                    if j < idx {
                        assert(after[i] == before[i] && after[j] == before[j]);
                    } else if j == idx {
                        assert(after[i] == before[i]);
                    } else if i < idx {
                        assert(after[i] == before[i] && after[j] == before[j - 1]);
                        if idx < j - 1 {
                            assert(name_lt(before[idx as int].0@, before[j - 1].0@));
                        }
                        lemma_lex_lt_transitive(
                            encode_utf8(before[i].0@),
                            encode_utf8(key),
                            encode_utf8(before[idx as int].0@),
                        );
                        if idx < j - 1 {
                            lemma_lex_lt_transitive(
                                encode_utf8(before[i].0@),
                                encode_utf8(before[idx as int].0@),
                                encode_utf8(before[j - 1].0@),
                            );
                        }
                    } else if i == idx {
                        assert(after[j] == before[j - 1]);
                        if idx < j - 1 {
                            assert(name_lt(before[idx as int].0@, before[j - 1].0@));
                            lemma_lex_lt_transitive(
                                encode_utf8(key),
                                encode_utf8(before[idx as int].0@),
                                encode_utf8(before[j - 1].0@),
                            );
                        }
                    } else {
                        assert(after[i] == before[i - 1] && after[j] == before[j - 1]);
                    }
                }
                assert forall|k: Seq<char>| names(after, k) <==> (k == key || names(before, k)) by {
                    if names(after, k) {
                        let i = place_of(after, k);
                        if i < idx {
                            assert(before[i].0@ == k);
                        } else if i > idx {
                            assert(before[i - 1].0@ == k);
                        }
                    }
                    if names(before, k) {
                        let i = place_of(before, k);
                        if i < idx {
                            assert(after[i].0@ == k);
                        } else {
                            assert(after[i + 1].0@ == k);
                        }
                    }
                    if k == key {
                        assert(after[idx as int].0@ == k);
                    }
                }
                assert forall|k: Seq<char>| names(after, k) implies #[trigger] map_of(after)[k]
                    == map_of(before).insert(key, val)[k] by {
                    let i = place_of(after, k);
                    lemma_map_of_at(after, i);
                    if i < idx {
                        lemma_map_of_at(before, i);
                        lemma_lex_lt_irreflexive(encode_utf8(key));
                    } else if i > idx {
                        lemma_map_of_at(before, i - 1);
                        lemma_lex_lt_irreflexive(encode_utf8(key));
                        lemma_map_of_at(after, idx as int);
                    }
                }
                assert(map_of(after) =~= map_of(before).insert(key, val));
            }
        }
        *self = EntryMap { items };
    }
}

} // verus!
