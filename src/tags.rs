//! Tag maps: string keys to string values, held in increasing key order so
//! that the same pairs always give the same sequence.
use crate::text::{compare_keys, key_lt, lemma_key_lt_irreflexive, lemma_key_lt_transitive, KeyOrder};
use vstd::prelude::*;

verus! {

/// One tag as characters: key and value.
pub type TagPair = (Seq<char>, Seq<char>);

/// Keys strictly increase along the sequence.
pub open spec fn sorted_keys(s: Seq<TagPair>) -> bool {
    forall|i: int, j: int| 0 <= i < j < s.len() ==> key_lt(#[trigger] s[i].0, #[trigger] s[j].0)
}

/// No key occurs twice.
pub open spec fn distinct_keys(s: Seq<TagPair>) -> bool {
    forall|i: int, j: int| 0 <= i < j < s.len() ==> #[trigger] s[i].0 != #[trigger] s[j].0
}

/// The mapping that a sequence of pairs denotes; a later pair wins on a
/// repeated key.
pub open spec fn tag_map(s: Seq<TagPair>) -> Map<Seq<char>, Seq<char>>
    decreases s.len(),
{
    if s.len() == 0 {
        Map::empty()
    } else {
        tag_map(s.drop_last()).insert(s.last().0, s.last().1)
    }
}

pub proof fn lemma_sorted_distinct(s: Seq<TagPair>)
    requires
        sorted_keys(s),
    ensures
        distinct_keys(s),
{
    assert forall|i: int, j: int| 0 <= i < j < s.len() implies #[trigger] s[i].0 != #[trigger] s[j].0 by {
        if s[i].0 == s[j].0 {
            lemma_key_lt_irreflexive(s[i].0);
        }
    }
}

/// What `tag_map` holds: exactly the keys of the pairs, each with its value.
pub proof fn lemma_tag_map_facts(s: Seq<TagPair>)
    requires
        distinct_keys(s),
    ensures
        forall|k: Seq<char>| #[trigger]
            tag_map(s).contains_key(k) <==> exists|i: int| 0 <= i < s.len() && s[i].0 == k,
        forall|i: int| 0 <= i < s.len() ==> #[trigger] tag_map(s)[s[i].0] == s[i].1,
        tag_map(s).dom().finite(),
        tag_map(s).len() == s.len(),
    decreases s.len(),
{
    if s.len() > 0 {
        let p = s.drop_last();
        assert(distinct_keys(p));
        lemma_tag_map_facts(p);
        let last = s.last();
        assert(!tag_map(p).contains_key(last.0)) by {
            if tag_map(p).contains_key(last.0) {
                let i = choose|i: int| 0 <= i < p.len() && p[i].0 == last.0;
                assert(s[i].0 == s[s.len() - 1].0);
            }
        }
        assert forall|k: Seq<char>| #[trigger]
            tag_map(s).contains_key(k) <==> exists|i: int| 0 <= i < s.len() && s[i].0 == k by {
            if tag_map(s).contains_key(k) && k != last.0 {
                let i = choose|i: int| 0 <= i < p.len() && p[i].0 == k;
                assert(s[i].0 == k);
            }
            if exists|i: int| 0 <= i < s.len() && s[i].0 == k {
                let i = choose|i: int| 0 <= i < s.len() && s[i].0 == k;
                if i < s.len() - 1 {
                    assert(p[i].0 == k);
                }
            }
        }
        assert forall|i: int| 0 <= i < s.len() implies #[trigger] tag_map(s)[s[i].0] == s[i].1 by {
            if i < s.len() - 1 {
                assert(p[i] == s[i]);
                assert(tag_map(p)[p[i].0] == p[i].1);
            }
        }
    }
}

/// Two key-sorted sequences that denote the same mapping are the same
/// sequence: the order in which tags were added leaves no trace.
pub proof fn lemma_sorted_canonical(s1: Seq<TagPair>, s2: Seq<TagPair>)
    requires
        sorted_keys(s1),
        sorted_keys(s2),
        tag_map(s1) == tag_map(s2),
    ensures
        s1 == s2,
    decreases s1.len(),
{
    lemma_sorted_distinct(s1);
    lemma_sorted_distinct(s2);
    lemma_tag_map_facts(s1);
    lemma_tag_map_facts(s2);
    if s1.len() == 0 || s2.len() == 0 {
        assert(s1.len() == s2.len());
        assert(s1 =~= s2);
    } else {
        let k1 = s1[0].0;
        let k2 = s2[0].0;
        assert(tag_map(s1).contains_key(k1));
        assert(tag_map(s1).contains_key(k2));
        let j = choose|j: int| 0 <= j < s2.len() && s2[j].0 == k1;
        let i = choose|i: int| 0 <= i < s1.len() && s1[i].0 == k2;
        if k1 != k2 {
            assert(j > 0 && i > 0);
            assert(key_lt(k2, k1));
            assert(key_lt(k1, k2));
            lemma_key_lt_transitive(k1, k2, k1);
            lemma_key_lt_irreflexive(k1);
        }
        assert(tag_map(s1)[k1] == s1[0].1);
        assert(tag_map(s2)[k2] == s2[0].1);
        let t1 = s1.drop_first();
        let t2 = s2.drop_first();
        assert(sorted_keys(t1)) by {
            assert forall|a: int, b: int| 0 <= a < b < t1.len() implies key_lt(
                #[trigger] t1[a].0,
                #[trigger] t1[b].0,
            ) by {
                assert(t1[a] == s1[a + 1] && t1[b] == s1[b + 1]);
            }
        }
        assert(sorted_keys(t2)) by {
            assert forall|a: int, b: int| 0 <= a < b < t2.len() implies key_lt(
                #[trigger] t2[a].0,
                #[trigger] t2[b].0,
            ) by {
                assert(t2[a] == s2[a + 1] && t2[b] == s2[b + 1]);
            }
        }
        lemma_sorted_distinct(t1);
        lemma_sorted_distinct(t2);
        lemma_tag_map_facts(t1);
        lemma_tag_map_facts(t2);
        assert(tag_map(t1) =~= tag_map(t2)) by {
            assert forall|k: Seq<char>| #[trigger] tag_map(t1).contains_key(k) implies tag_map(
                t2,
            ).contains_key(k) && tag_map(t1)[k] == tag_map(t2)[k] by {
                let a = choose|a: int| 0 <= a < t1.len() && t1[a].0 == k;
                assert(s1[a + 1].0 == k);
                assert(tag_map(s2).contains_key(k));
                let b = choose|b: int| 0 <= b < s2.len() && s2[b].0 == k;
                if b == 0 {
                    assert(s1[0].0 == s1[a + 1].0);
                }
                assert(t2[b - 1].0 == k);
                assert(tag_map(s1)[s1[a + 1].0] == s1[a + 1].1);
                assert(tag_map(s2)[s2[b].0] == s2[b].1);
                assert(tag_map(t1)[t1[a].0] == t1[a].1);
                assert(tag_map(t2)[t2[b - 1].0] == t2[b - 1].1);
            }
            assert forall|k: Seq<char>| #[trigger] tag_map(t2).contains_key(k) implies tag_map(
                t1,
            ).contains_key(k) by {
                let b = choose|b: int| 0 <= b < t2.len() && t2[b].0 == k;
                assert(s2[b + 1].0 == k);
                assert(tag_map(s1).contains_key(k));
                let a = choose|a: int| 0 <= a < s1.len() && s1[a].0 == k;
                if a == 0 {
                    assert(s2[0].0 == s2[b + 1].0);
                }
                assert(t1[a - 1].0 == k);
            }
        }
        lemma_sorted_canonical(t1, t2);
        assert(s1 =~= seq![s1[0]] + t1);
        assert(s2 =~= seq![s2[0]] + t2);
    }
}

/// The key-sorted sequence of pairs that denotes `m` (unique by
/// `lemma_sorted_canonical`).
pub open spec fn sorted_pairs(m: Map<Seq<char>, Seq<char>>) -> Seq<TagPair> {
    choose|s: Seq<TagPair>| sorted_keys(s) && tag_map(s) == m
}

/// A key-sorted sequence is the sorted sequence of the mapping it denotes.
pub proof fn lemma_sorted_pairs_of(s: Seq<TagPair>)
    requires
        sorted_keys(s),
    ensures
        sorted_pairs(tag_map(s)) == s,
{
    let t = sorted_pairs(tag_map(s));
    assert(sorted_keys(t) && tag_map(t) == tag_map(s));
    lemma_sorted_canonical(t, s);
}

/// A string-to-string map that keeps its pairs in increasing key order.
#[derive(Debug)]
pub struct TagMap {
    entries: Vec<(String, String)>,
}

impl View for TagMap {
    type V = Seq<TagPair>;

    closed spec fn view(&self) -> Seq<TagPair> {
        pairs_view(self.entries@)
    }
}

/// The pairs of a vector of strings as characters.
pub open spec fn pairs_view(v: Seq<(String, String)>) -> Seq<TagPair> {
    v.map_values(|e: (String, String)| (e.0@, e.1@))
}

impl TagMap {
    /// The map is well formed: keys in strictly increasing order.
    #[verifier::type_invariant]
    pub open spec fn wf(&self) -> bool {
        sorted_keys(self@)
    }

    /// The mapping the tags denote.
    pub open spec fn as_map(&self) -> Map<Seq<char>, Seq<char>> {
        tag_map(self@)
    }

    pub fn new() -> (r: TagMap)
        ensures
            r.wf(),
            r@ == Seq::<TagPair>::empty(),
            r.as_map() == Map::<Seq<char>, Seq<char>>::empty(),
    {
        let r = TagMap { entries: Vec::new() };
        assert(r@ =~= Seq::<TagPair>::empty());
        r
    }

    /// Number of tags.
    pub fn len(&self) -> (r: usize)
        ensures
            r == self@.len(),
    {
        self.entries.len()
    }

    /// The pairs in key order.
    pub fn pairs(&self) -> (r: &Vec<(String, String)>)
        ensures
            r@.len() == self@.len(),
            forall|i: int| 0 <= i < r@.len() ==> (#[trigger] r@[i]).0@ == self@[i].0 && r@[i].1@ == self@[i].1,
    {
        &self.entries
    }

    /// Sets `key` to `value`, replacing any earlier value of `key`.
    pub fn insert(&mut self, key: String, value: String)
        ensures
            final(self).wf(),
            final(self).as_map() == old(self).as_map().insert(key@, value@),
    {
        let mut current = TagMap::new();
        core::mem::swap(self, &mut current);
        *self = current.inserted(key, value);
    }

    fn inserted(self, key: String, value: String) -> (r: TagMap)
        ensures
            r.wf(),
            r.as_map() == self.as_map().insert(key@, value@),
    {
        proof {
            use_type_invariant(&self);
        }
        let ghost before = self@;
        let TagMap { mut entries } = self;
        proof {
            lemma_sorted_distinct(before);
            lemma_tag_map_facts(before);
        }
        let n = entries.len();
        let mut i: usize = 0;
        while i < n
            invariant
                n == entries@.len(),
                pairs_view(entries@) == before,
                before == self@,
                sorted_keys(before),
                i <= n,
                forall|j: int| 0 <= j < i ==> key_lt(#[trigger] before[j].0, key@),
            decreases n - i,
        {
            let ord = compare_keys(entries[i].0.as_str(), key.as_str());
            assert(entries@[i as int].0@ == before[i as int].0);
            match ord {
                KeyOrder::Less => {},
                KeyOrder::Equal => {
                    entries.set(i, (key, value));
                    proof {
                        lemma_sorted_distinct(before);
                        lemma_tag_map_facts(before);
                        let after = pairs_view(entries@);
                        assert(after =~= before.update(i as int, (key@, value@)));
                        assert(sorted_keys(after)) by {
                            assert forall|a: int, b: int| 0 <= a < b < after.len() implies key_lt(
                                #[trigger] after[a].0,
                                #[trigger] after[b].0,
                            ) by {
                                assert(before[a].0 == after[a].0 && before[b].0 == after[b].0);
                            }
                        }
                        lemma_sorted_distinct(after);
                        lemma_tag_map_facts(after);
                        assert(tag_map(after) =~= tag_map(before).insert(key@, value@)) by {
                            assert forall|k: Seq<char>| #[trigger] tag_map(after).contains_key(k) implies tag_map(before).insert(key@, value@).contains_key(k) by {
                                let a = choose|a: int| 0 <= a < after.len() && after[a].0 == k;
                                assert(before[a].0 == k);
                            }
                            assert forall|k: Seq<char>| #[trigger] tag_map(before).insert(key@, value@).contains_key(k) implies tag_map(after).contains_key(k) && tag_map(after)[k] == tag_map(before).insert(key@, value@)[k] by {
                                if k == key@ {
                                    assert(after[i as int].0 == k);
                                } else {
                                    let a = choose|a: int| 0 <= a < before.len() && before[a].0 == k;
                                    assert(after[a] == before[a]);
                                }
                            }
                        }
                    }
                    return TagMap { entries };
                },
                KeyOrder::Greater => {
                    entries.insert(i, (key, value));
                    proof {
                        let after = pairs_view(entries@);
                        assert(after =~= before.insert(i as int, (key@, value@)));
                        Self::lemma_insert_at(before, i as int, key@, value@);
                    }
                    return TagMap { entries };
                },
            }
            i = i + 1;
        }
        entries.push((key, value));
        proof {
            let after = pairs_view(entries@);
            assert(after =~= before.push((key@, value@)));
            assert(after =~= before.insert(n as int, (key@, value@)));
            Self::lemma_insert_at(before, n as int, key@, value@);
        }
        TagMap { entries }
    }

    proof fn lemma_insert_sorted(before: Seq<TagPair>, i: int, k: Seq<char>, v: Seq<char>)
        requires
            sorted_keys(before),
            0 <= i <= before.len(),
            forall|j: int| 0 <= j < i ==> key_lt(#[trigger] before[j].0, k),
            i < before.len() ==> key_lt(k, before[i].0),
        ensures
            sorted_keys(before.insert(i, (k, v))),
    {
        let after = before.insert(i, (k, v));
        before.insert_ensures(i, (k, v));
        assert(sorted_keys(after)) by {
            assert forall|a: int, b: int| 0 <= a < b < after.len() implies key_lt(
                #[trigger] after[a].0,
                #[trigger] after[b].0,
            ) by {
                if b < i {
                    assert(after[a] == before[a]);
                    assert(after[b] == before[b]);
                } else if a < i && b == i {
                } else if a < i && b > i {
                    if i < before.len() {
                        assert(key_lt(before[a].0, k));
                        assert(after[b] == before[b - 1]);
                    }
                } else if a == i {
                    assert(after[b] == before[b - 1]);
                    if b - 1 > i {
                        lemma_key_lt_transitive(k, before[i].0, before[b - 1].0);
                    }
                } else {
                    assert(after[a] == before[a - 1]);
                    assert(after[b] == before[b - 1]);
                }
            }
        }
    }

    proof fn lemma_insert_at(before: Seq<TagPair>, i: int, k: Seq<char>, v: Seq<char>)
        requires
            sorted_keys(before),
            0 <= i <= before.len(),
            forall|j: int| 0 <= j < i ==> key_lt(#[trigger] before[j].0, k),
            i < before.len() ==> key_lt(k, before[i].0),
        ensures
            sorted_keys(before.insert(i, (k, v))),
            tag_map(before.insert(i, (k, v))) == tag_map(before).insert(k, v),
    {
        let after = before.insert(i, (k, v));
        before.insert_ensures(i, (k, v));
        Self::lemma_insert_sorted(before, i, k, v);
        lemma_sorted_distinct(before);
        lemma_sorted_distinct(after);
        lemma_tag_map_facts(before);
        lemma_tag_map_facts(after);
        assert(!tag_map(before).contains_key(k)) by {
            if tag_map(before).contains_key(k) {
                let a = choose|a: int| 0 <= a < before.len() && before[a].0 == k;
                if a < i {
                    lemma_key_lt_irreflexive(k);
                } else {
                    assert(after[a + 1].0 == after[i].0);
                }
            }
        }
        assert(tag_map(after) =~= tag_map(before).insert(k, v)) by {
            assert forall|key: Seq<char>| #[trigger] tag_map(after).contains_key(key) implies tag_map(before).insert(k, v).contains_key(key) by {
                let a = choose|a: int| 0 <= a < after.len() && after[a].0 == key;
                if a < i {
                    assert(before[a].0 == key);
                } else if a > i {
                    assert(before[a - 1].0 == key);
                }
            }
            assert forall|key: Seq<char>| #[trigger] tag_map(before).insert(k, v).contains_key(key) implies tag_map(after).contains_key(key) && tag_map(after)[key] == tag_map(before).insert(k, v)[key] by {
                if key == k {
                    assert(after[i].0 == k);
                } else {
                    let a = choose|a: int| 0 <= a < before.len() && before[a].0 == key;
                    if a < i {
                        assert(after[a] == before[a]);
                    } else {
                        assert(after[a + 1] == before[a]);
                    }
                }
            }
        }
    }

    /// The value of `key`, if it is set.
    pub fn get(&self, key: &str) -> (r: Option<&String>)
        ensures
            r.is_some() == self.as_map().contains_key(key@),
            r.is_some() ==> r.unwrap()@ == self.as_map()[key@],
    {
        proof {
            use_type_invariant(self);
            lemma_sorted_distinct(self@);
            lemma_tag_map_facts(self@);
        }
        let n = self.entries.len();
        let mut i: usize = 0;
        while i < n
            invariant
                n == self@.len(),
                self.wf(),
                distinct_keys(self@),
                i <= n,
                forall|j: int| 0 <= j < i ==> #[trigger] self@[j].0 != key@,
            decreases n - i,
        {
            assert(self.entries@[i as int].0@ == self@[i as int].0);
            assert(self.entries@[i as int].1@ == self@[i as int].1);
            if compare_keys(self.entries[i].0.as_str(), key) == KeyOrder::Equal {
                proof {
                    lemma_tag_map_facts(self@);
                    assert(self.as_map()[self@[i as int].0] == self@[i as int].1);
                }
                return Some(&self.entries[i].1);
            }
            i = i + 1;
        }
        proof {
            lemma_tag_map_facts(self@);
        }
        None
    }

    /// A copy holding the same pairs.
    pub fn copied(&self) -> (r: TagMap)
        ensures
            r@ == self@,
    {
        proof {
            use_type_invariant(self);
        }
        let mut out: Vec<(String, String)> = Vec::new();
        let n = self.entries.len();
        let mut i: usize = 0;
        while i < n
            invariant
                n == self.entries@.len(),
                i <= n,
                out@.len() == i,
                forall|j: int| 0 <= j < i ==> (#[trigger] out@[j]).0@ == self.entries@[j].0@ && out@[j].1@ == self.entries@[j].1@,
            decreases n - i,
        {
            let k = self.entries[i].0.clone();
            let v = self.entries[i].1.clone();
            out.push((k, v));
            i = i + 1;
        }
        assert(pairs_view(out@) =~= self@);
        TagMap { entries: out }
    }
}

} // verus!
