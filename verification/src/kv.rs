//! The replicated key-value state: the mapping that a decided log denotes,
//! the store that the coordinator's apply step mutates, and the reverse scan
//! that answers client reads.
use vstd::prelude::*;

verus! {

/// A key/value pair proposed for replication. A delete is represented as a
/// write whose value is the empty string, so a deleted key stays present
/// with an empty value.
#[derive(Debug)]
pub struct KeyValue {
    pub key: String,
    pub value: String,
}

impl Clone for KeyValue {
    fn clone(&self) -> (r: Self)
        ensures
            r == *self,
    {
        KeyValue { key: self.key.clone(), value: self.value.clone() }
    }
}

/// The key-to-value mapping that a sequence of decided entries denotes:
/// entries are applied in decided order, and the last write to a key wins.
pub open spec fn as_map(log: Seq<KeyValue>) -> Map<Seq<char>, Seq<char>>
    decreases log.len(),
{
    if log.len() == 0 {
        Map::empty()
    } else {
        as_map(log.drop_last()).insert(log.last().key@, log.last().value@)
    }
}

/// The value a reverse scan of the decided log yields for `key`: the value
/// of the most recently decided entry for that key, or the empty string
/// when no entry mentions it.
pub open spec fn lookup(log: Seq<KeyValue>, key: Seq<char>) -> Seq<char>
    decreases log.len(),
{
    if log.len() == 0 {
        Seq::<char>::empty()
    } else if log.last().key@ == key {
        log.last().value@
    } else {
        lookup(log.drop_last(), key)
    }
}

/// The map that results from applying a further batch of decided entries,
/// in order, on top of an existing mapping.
pub open spec fn apply_to_map(m: Map<Seq<char>, Seq<char>>, s: Seq<KeyValue>) -> Map<
    Seq<char>,
    Seq<char>,
>
    decreases s.len(),
{
    if s.len() == 0 {
        m
    } else {
        apply_to_map(m, s.drop_last()).insert(s.last().key@, s.last().value@)
    }
}

/// Applying the entries of `a + b` in order is the same as applying those of
/// `b` on top of the map of `a`.
pub proof fn lemma_as_map_concat(a: Seq<KeyValue>, b: Seq<KeyValue>)
    ensures
        as_map(a + b) == apply_to_map(as_map(a), b),
    decreases b.len(),
{
    if b.len() == 0 {
        assert(a + b =~= a);
    } else {
        lemma_as_map_concat(a, b.drop_last());
        assert((a + b).drop_last() =~= a + b.drop_last());
        assert((a + b).last() == b.last());
    }
}

/// No two entries share a key.
pub open spec fn distinct_keys(s: Seq<KeyValue>) -> bool {
    forall|i: int, j: int| 0 <= i < j < s.len() ==> s[i].key@ != s[j].key@
}

/// In a sequence of entries with pairwise distinct keys, the map binds each
/// entry's key to that entry's value.
pub proof fn lemma_as_map_index(s: Seq<KeyValue>, i: int)
    requires
        distinct_keys(s),
        0 <= i < s.len(),
    ensures
        as_map(s).contains_key(s[i].key@),
        as_map(s)[s[i].key@] == s[i].value@,
    decreases s.len(),
{
    if i < s.len() - 1 {
        assert(s[i].key@ != s.last().key@);
        lemma_as_map_index(s.drop_last(), i);
    }
}

/// A key no entry carries is absent from the map.
pub proof fn lemma_as_map_absent(s: Seq<KeyValue>, key: Seq<char>)
    requires
        forall|i: int| 0 <= i < s.len() ==> s[i].key@ != key,
    ensures
        !as_map(s).contains_key(key),
    decreases s.len(),
{
    if s.len() > 0 {
        lemma_as_map_absent(s.drop_last(), key);
    }
}

/// Every key of the map is carried by some entry.
pub proof fn lemma_as_map_covered(s: Seq<KeyValue>, key: Seq<char>)
    requires
        as_map(s).contains_key(key),
    ensures
        exists|i: int| 0 <= i < s.len() && s[i].key@ == key,
    decreases s.len(),
{
    if s.len() > 0 && s.last().key@ != key {
        lemma_as_map_covered(s.drop_last(), key);
        let i = choose|i: int| 0 <= i < s.drop_last().len() && s.drop_last()[i].key@ == key;
        assert(s[i].key@ == key);
    } else if s.len() > 0 {
        assert(s[s.len() - 1].key@ == key);
    }
}

/// The reverse scan and the map agree on every log: a read returns exactly
/// the last decided write to its key, and the empty string for an untouched
/// key. Decided order, not arrival order, governs the result.
pub proof fn lemma_lookup_agrees_with_map(log: Seq<KeyValue>, key: Seq<char>)
    ensures
        as_map(log).contains_key(key) ==> lookup(log, key) == as_map(log)[key],
        !as_map(log).contains_key(key) ==> lookup(log, key) == Seq::<char>::empty(),
    decreases log.len(),
{
    if log.len() > 0 {
        lemma_lookup_agrees_with_map(log.drop_last(), key);
    }
}

/// A write followed by a read: once the entry is decided and nothing later
/// touches its key, the read returns the written value, and the key is
/// present in the map — even when the value written is the empty string.
pub proof fn law_write_then_read(log: Seq<KeyValue>, e: KeyValue)
    ensures
        lookup(log.push(e), e.key@) == e.value@,
        as_map(log.push(e)).contains_key(e.key@),
        as_map(log.push(e))[e.key@] == e.value@,
{
    assert(log.push(e).last() == e);
    assert(log.push(e).drop_last() =~= log);
}

/// Two writes to one key, decided in order `e1` then `e2`: a later read
/// returns the second value, whatever was decided before them.
pub proof fn law_decided_order_wins(log: Seq<KeyValue>, e1: KeyValue, e2: KeyValue)
    requires
        e1.key@ == e2.key@,
    ensures
        lookup(log.push(e1).push(e2), e1.key@) == e2.value@,
        as_map(log.push(e1).push(e2))[e1.key@] == e2.value@,
{
    law_write_then_read(log.push(e1), e2);
}

/// The store of locally applied writes. Mutated only through `insert` and
/// `apply`, which the coordinator's apply step drives; its abstract value is
/// the key-to-value map.
pub struct KVStore {
    entries: Vec<KeyValue>,
}

impl View for KVStore {
    type V = Map<Seq<char>, Seq<char>>;

    closed spec fn view(&self) -> Map<Seq<char>, Seq<char>> {
        as_map(self.entries@)
    }
}

/// Character-for-character string equality.
pub fn str_eq(a: &str, b: &str) -> (r: bool)
    ensures
        r == (a@ == b@),
{
    let alen = a.unicode_len();
    let blen = b.unicode_len();
    if alen != blen {
        return false;
    }
    let mut i: usize = 0;
    while i < alen
        invariant
            alen == a@.len(),
            alen == b@.len(),
            i <= alen,
            forall|j: int| 0 <= j < i ==> a@[j] == b@[j],
        decreases alen - i,
    {
        if a.get_char(i) != b.get_char(i) {
            return false;
        }
        i += 1;
    }
    proof {
        assert(a@ =~= b@);
    }
    true
}

proof fn lemma_as_map_update(s: Seq<KeyValue>, i: int, e: KeyValue)
    requires
        distinct_keys(s),
        0 <= i < s.len(),
        s[i].key@ == e.key@,
    ensures
        as_map(s.update(i, e)) == as_map(s).insert(e.key@, e.value@),
    decreases s.len(),
{
    if i == s.len() - 1 {
        assert(s.update(i, e).drop_last() =~= s.drop_last());
        assert(s.update(i, e).last() == e);
        assert(as_map(s.drop_last()).insert(s.last().key@, s.last().value@).insert(
            e.key@,
            e.value@,
        ) =~= as_map(s.drop_last()).insert(e.key@, e.value@));
    } else {
        assert(s.update(i, e).drop_last() =~= s.drop_last().update(i, e));
        assert(s.update(i, e).last() == s.last());
        lemma_as_map_update(s.drop_last(), i, e);
        assert(s[i].key@ != s.last().key@);
        assert(as_map(s.drop_last()).insert(e.key@, e.value@).insert(
            s.last().key@,
            s.last().value@,
        ) =~= as_map(s.drop_last()).insert(s.last().key@, s.last().value@).insert(
            e.key@,
            e.value@,
        ));
    }
}

impl KVStore {
    #[verifier::type_invariant]
    spec fn inv(self) -> bool {
        distinct_keys(self.entries@)
    }

    pub fn new() -> (r: KVStore)
        ensures
            r@ == Map::<Seq<char>, Seq<char>>::empty(),
    {
        KVStore { entries: Vec::new() }
    }

    /// The value last written to `key`, or nothing when no applied entry
    /// mentions it.
    pub fn get(&self, key: &str) -> (r: Option<&String>)
        ensures
            match r {
                Some(v) => self@.contains_key(key@) && v@ == self@[key@],
                None => !self@.contains_key(key@),
            },
    {
        proof {
            use_type_invariant(self);
        }
        let n = self.entries.len();
        let mut i: usize = 0;
        while i < n
            invariant
                n == self.entries.len(),
                i <= n,
                distinct_keys(self.entries@),
                self@ == as_map(self.entries@),
                forall|j: int| 0 <= j < i ==> self.entries@[j].key@ != key@,
            decreases n - i,
        {
            if str_eq(self.entries[i].key.as_str(), key) {
                proof {
                    lemma_as_map_index(self.entries@, i as int);
                }
                return Some(&self.entries[i].value);
            }
            i += 1;
        }
        proof {
            lemma_as_map_absent(self.entries@, key@);
        }
        None
    }

    fn find_idx(&self, key: &str) -> (r: Option<usize>)
        ensures
            match r {
                Some(i) => i < self.entries@.len() && self.entries@[i as int].key@ == key@,
                None => forall|j: int| 0 <= j < self.entries@.len() ==> self.entries@[j].key@ != key@,
            },
    {
        let n = self.entries.len();
        let mut i: usize = 0;
        while i < n
            invariant
                n == self.entries.len(),
                i <= n,
                forall|j: int| 0 <= j < i ==> self.entries@[j].key@ != key@,
            decreases n - i,
        {
            if str_eq(self.entries[i].key.as_str(), key) {
                return Some(i);
            }
            i += 1;
        }
        None
    }

    /// Bind `key` to `value`, replacing any earlier binding.
    pub fn insert(&mut self, key: String, value: String)
        ensures
            final(self)@ == old(self)@.insert(key@, value@),
    {
        proof {
            use_type_invariant(&*self);
        }
        let idx = self.find_idx(key.as_str());
        let mut v: Vec<KeyValue> = Vec::new();
        core::mem::swap(&mut v, &mut self.entries);
        match idx {
            Some(i) => {
                let e = KeyValue { key, value };
                proof {
                    lemma_as_map_update(v@, i as int, e);
                    assert(distinct_keys(v@.update(i as int, e)));
                }
                v[i] = e;
            },
            None => {
                v.push(KeyValue { key, value });
                proof {
                    assert(v@.drop_last() =~= old(self).entries@);
                }
            },
        }
        self.entries = v;
    }

    /// Apply a batch of decided entries in order; on a key collision within
    /// the batch the later entry wins.
    pub fn apply(&mut self, suffix: &Vec<KeyValue>)
        ensures
            final(self)@ == apply_to_map(old(self)@, suffix@),
    {
        let n = suffix.len();
        let mut i: usize = 0;
        while i < n
            invariant
                n == suffix.len(),
                i <= n,
                self@ == apply_to_map(old(self)@, suffix@.take(i as int)),
            decreases n - i,
        {
            let e = suffix[i].clone();
            self.insert(e.key, e.value);
            proof {
                assert(suffix@.take(i + 1).drop_last() =~= suffix@.take(i as int));
                assert(suffix@.take(i + 1).last() == suffix@[i as int]);
            }
            i += 1;
        }
        proof {
            assert(suffix@.take(n as int) =~= suffix@);
        }
    }

    /// The applied entries, one per key.
    pub fn entries(&self) -> (r: Vec<KeyValue>)
        ensures
            forall|i: int|
                0 <= i < r@.len() ==> self@.contains_key(r@[i].key@) && self@[r@[i].key@]
                    == r@[i].value@,
            forall|k: Seq<char>|
                self@.contains_key(k) ==> exists|i: int| 0 <= i < r@.len() && r@[i].key@ == k,
    {
        proof {
            use_type_invariant(self);
        }
        let n = self.entries.len();
        let mut r: Vec<KeyValue> = Vec::new();
        let mut i: usize = 0;
        while i < n
            invariant
                n == self.entries.len(),
                i <= n,
                distinct_keys(self.entries@),
                self@ == as_map(self.entries@),
                r@.len() == i,
                forall|j: int| 0 <= j < i ==> r@[j] == self.entries@[j],
            decreases n - i,
        {
            r.push(self.entries[i].clone());
            i += 1;
        }
        proof {
            assert forall|i: int| 0 <= i < r@.len() implies self@.contains_key(r@[i].key@)
                && self@[r@[i].key@] == r@[i].value@ by {
                lemma_as_map_index(self.entries@, i);
            }
            assert forall|k: Seq<char>| self@.contains_key(k) implies exists|i: int|
                0 <= i < r@.len() && r@[i].key@ == k by {
                lemma_as_map_covered(self.entries@, k);
                let i = choose|i: int| 0 <= i < self.entries@.len() && self.entries@[i].key@ == k;
                assert(r@[i].key@ == k);
            }
        }
        r
    }
}

/// The read path: scan a decided log from its end for the most recent entry
/// with `key`, returning its value, or the empty string when none matches.
pub fn lookup_latest(log: &Vec<KeyValue>, key: &str) -> (r: String)
    ensures
        r@ == lookup(log@, key@),
{
    let mut i = log.len();
    proof {
        assert(log@.take(i as int) =~= log@);
    }
    while i > 0
        invariant
            i <= log.len(),
            lookup(log@, key@) == lookup(log@.take(i as int), key@),
        decreases i,
    {
        i -= 1;
        proof {
            assert(log@.take(i + 1).last() == log@[i as int]);
            assert(log@.take(i + 1).drop_last() =~= log@.take(i as int));
        }
        if str_eq(log[i].key.as_str(), key) {
            return log[i].value.clone();
        }
    }
    proof {
        assert(log@.take(0) =~= Seq::<KeyValue>::empty());
    }
    String::new()
}

} // verus!
