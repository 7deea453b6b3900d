use vstd::prelude::*;
use crate::ring::{id_compare, id_value, in_interval, is_between, NodeId};

verus! {

broadcast use vstd::std_specs::vec::group_vec_axioms;

/// A copy of a byte string.
pub fn copy_bytes(v: &Vec<u8>) -> (r: Vec<u8>)
    ensures
        r@ == v@,
{
    let r = v.clone();
    assert(r@ =~= v@);
    r
}

/// Whether two byte strings are equal.
pub fn bytes_equal(a: &Vec<u8>, b: &Vec<u8>) -> (r: bool)
    ensures
        r == (a@ == b@),
{
    if a.len() != b.len() {
        return false;
    }
    let mut i: usize = 0;
    while i < a.len()
        invariant
            a@.len() == b@.len(),
            i <= a@.len(),
            forall|j: int| 0 <= j < i ==> a@[j] == b@[j],
        decreases a@.len() - i,
    {
        if a[i] != b[i] {
            return false;
        }
        i = i + 1;
    }
    assert(a@ =~= b@);
    true
}

/// A copy of a list of byte strings.
pub fn copy_values(v: &Vec<Vec<u8>>) -> (r: Vec<Vec<u8>>)
    ensures
        byte_lists(r@) == byte_lists(v@),
{
    let mut r: Vec<Vec<u8>> = Vec::new();
    let mut i: usize = 0;
    while i < v.len()
        invariant
            i <= v@.len(),
            byte_lists(r@) == byte_lists(v@).subrange(0, i as int),
        decreases v@.len() - i,
    {
        let b = copy_bytes(&v[i]);
        let ghost old_r = r@;
        r.push(b);
        assert(byte_lists(r@) =~= byte_lists(old_r).push(b@));
        i = i + 1;
        assert(byte_lists(r@) =~= byte_lists(v@).subrange(0, i as int));
    }
    assert(byte_lists(v@).subrange(0, i as int) =~= byte_lists(v@));
    r
}

/// A list of byte strings as mathematical values.
pub open spec fn byte_lists(v: Seq<Vec<u8>>) -> Seq<Seq<u8>> {
    v.map_values(|b: Vec<u8>| b@)
}

/// A stored entry as mathematical values.
pub open spec fn entry_view(e: (NodeId, Vec<Vec<u8>>)) -> (NodeId, Seq<Seq<u8>>) {
    (e.0, byte_lists(e.1@))
}

/// The map from keys to values that a sequence of entries denotes; a later entry for
/// a key wins over an earlier one.
pub open spec fn map_of<K, V>(s: Seq<(K, V)>) -> Map<K, V>
    decreases s.len(),
{
    if s.len() == 0 {
        Map::empty()
    } else {
        map_of(s.drop_last()).insert(s.last().0, s.last().1)
    }
}

/// Whether no key occurs twice.
pub open spec fn keys_distinct<K, V>(s: Seq<(K, V)>) -> bool {
    forall|i: int, j: int| 0 <= i < j < s.len() ==> s[i].0 != s[j].0
}

/// The values stored under `key`, empty when there are none.
pub open spec fn values_at(m: Map<NodeId, Seq<Seq<u8>>>, key: NodeId) -> Seq<Seq<u8>> {
    if m.dom().contains(key) {
        m[key]
    } else {
        Seq::empty()
    }
}

/// Whether `key` lies in the transfer range `(start, end]`, which always holds `end`.
pub open spec fn in_transfer_range(key: NodeId, start: NodeId, end: NodeId) -> bool {
    in_interval(id_value(key), id_value(start), id_value(end)) || key == end
}

pub proof fn lemma_map_of_dom<K, V>(s: Seq<(K, V)>, k: K)
    ensures
        map_of(s).dom().contains(k) <==> exists|i: int| 0 <= i < s.len() && (#[trigger] s[i]).0 == k,
        map_of(s).dom().finite(),
    decreases s.len(),
{
    if s.len() > 0 {
        lemma_map_of_dom(s.drop_last(), k);
        if map_of(s).dom().contains(k) && k != s.last().0 {
            let i = choose|i: int| 0 <= i < s.drop_last().len() && (#[trigger] s.drop_last()[i]).0 == k;
            assert(s[i].0 == k);
        }
        if exists|i: int| 0 <= i < s.len() && (#[trigger] s[i]).0 == k {
            let i = choose|i: int| 0 <= i < s.len() && (#[trigger] s[i]).0 == k;
            if i < s.len() - 1 {
                assert(s.drop_last()[i].0 == k);
            }
        }
    }
}

pub proof fn lemma_map_of_index<K, V>(s: Seq<(K, V)>, i: int)
    requires
        keys_distinct(s),
        0 <= i < s.len(),
    ensures
        map_of(s).dom().contains(s[i].0),
        map_of(s)[s[i].0] == s[i].1,
    decreases s.len(),
{
    if i < s.len() - 1 {
        assert(s.drop_last()[i] == s[i]);
        lemma_map_of_index(s.drop_last(), i);
    }
}

pub proof fn lemma_map_of_len<K, V>(s: Seq<(K, V)>)
    requires
        keys_distinct(s),
    ensures
        map_of(s).dom().len() == s.len(),
        map_of(s).dom().finite(),
    decreases s.len(),
{
    if s.len() > 0 {
        let p = s.drop_last();
        lemma_map_of_len(p);
        lemma_map_of_dom(p, s.last().0);
        assert(!map_of(p).dom().contains(s.last().0)) by {
            if map_of(p).dom().contains(s.last().0) {
                let i = choose|i: int| 0 <= i < p.len() && (#[trigger] p[i]).0 == s.last().0;
                assert(s[i].0 == s[s.len() - 1].0);
            }
        }
    } else {
        lemma_map_of_dom(s, arbitrary::<K>());
    }
}

pub proof fn lemma_map_of_update<K, V>(s: Seq<(K, V)>, i: int, v: V)
    requires
        keys_distinct(s),
        0 <= i < s.len(),
    ensures
        map_of(s.update(i, (s[i].0, v))) == map_of(s).insert(s[i].0, v),
        keys_distinct(s.update(i, (s[i].0, v))),
    decreases s.len(),
{
    let t = s.update(i, (s[i].0, v));
    if i == s.len() - 1 {
        assert(t.drop_last() =~= s.drop_last());
    } else {
        assert(t.drop_last() =~= s.drop_last().update(i, (s[i].0, v)));
        lemma_map_of_update(s.drop_last(), i, v);
        assert(map_of(t) =~= map_of(s).insert(s[i].0, v));
    }
}

pub proof fn lemma_map_of_remove<K, V>(s: Seq<(K, V)>, i: int)
    requires
        keys_distinct(s),
        0 <= i < s.len(),
    ensures
        map_of(s.remove(i)) == map_of(s).remove(s[i].0),
        keys_distinct(s.remove(i)),
    decreases s.len(),
{
    let t = s.remove(i);
    let k = s[i].0;
    if i == s.len() - 1 {
        assert(t =~= s.drop_last());
        lemma_map_of_dom(s.drop_last(), k);
        assert(!map_of(s.drop_last()).dom().contains(k)) by {
            if map_of(s.drop_last()).dom().contains(k) {
                let j = choose|j: int| 0 <= j < s.drop_last().len() && (#[trigger] s.drop_last()[j]).0 == k;
                assert(s[j].0 == s[i].0);
            }
        }
        assert(map_of(t) =~= map_of(s).remove(k));
    } else {
        assert(t.drop_last() =~= s.drop_last().remove(i));
        assert(t.last() == s.last());
        lemma_map_of_remove(s.drop_last(), i);
        assert(s.drop_last()[i].0 == k);
        assert(map_of(t) =~= map_of(s).remove(k));
    }
}

/// The key-value store of a node: each key holds the list of values stored under it.
pub struct DataStore {
    entries: Vec<(NodeId, Vec<Vec<u8>>)>,
}

impl View for DataStore {
    type V = Map<NodeId, Seq<Seq<u8>>>;

    closed spec fn view(&self) -> Map<NodeId, Seq<Seq<u8>>> {
        map_of(self.entries@.map_values(|e: (NodeId, Vec<Vec<u8>>)| entry_view(e)))
    }
}

impl DataStore {
    spec fn seq(&self) -> Seq<(NodeId, Seq<Seq<u8>>)> {
        self.entries@.map_values(|e: (NodeId, Vec<Vec<u8>>)| entry_view(e))
    }

    /// Whether no key is held twice.
    pub closed spec fn wf(&self) -> bool {
        keys_distinct(self.entries@)
    }

    /// The keys in the order in which the store holds them.
    pub closed spec fn key_order(&self) -> Seq<NodeId> {
        self.entries@.map_values(|e: (NodeId, Vec<Vec<u8>>)| e.0)
    }

    proof fn lemma_seq_distinct(&self)
        requires
            self.wf(),
        ensures
            keys_distinct(self.seq()),
            self.seq().len() == self.entries@.len(),
    {
    }

    /// The keys are those of the map, each once, and there are finitely many.
    pub proof fn lemma_key_order(&self)
        requires
            self.wf(),
        ensures
            self.key_order().len() == self@.dom().len(),
            self@.dom().finite(),
            forall|i: int, j: int|
                0 <= i < j < self.key_order().len() ==> self.key_order()[i] != self.key_order()[j],
            forall|k: NodeId| self@.dom().contains(k) <==> self.key_order().contains(k),
    {
        let s = self.seq();
        lemma_map_of_len(s);
        assert forall|k: NodeId| self@.dom().contains(k) <==> self.key_order().contains(k) by {
            lemma_map_of_dom(s, k);
            if self.key_order().contains(k) {
                let i = choose|i: int| 0 <= i < self.key_order().len() && self.key_order()[i] == k;
                assert(s[i].0 == k);
            }
            if self@.dom().contains(k) {
                let i = choose|i: int| 0 <= i < s.len() && (#[trigger] s[i]).0 == k;
                assert(self.key_order()[i] == k);
            }
        }
    }

    /// An empty store.
    pub fn new() -> (r: DataStore)
        ensures
            r.wf(),
            r@ == Map::<NodeId, Seq<Seq<u8>>>::empty(),
    {
        let r = DataStore { entries: Vec::new() };
        assert(r.seq() =~= Seq::<(NodeId, Seq<Seq<u8>>)>::empty());
        r
    }

    fn find(&self, key: &NodeId) -> (r: Option<usize>)
        requires
            self.wf(),
        ensures
            r matches Some(i) ==> i < self.entries@.len() && self.entries@[i as int].0 == *key,
            r is None ==> !self@.dom().contains(*key),
    {
        let mut i: usize = 0;
        while i < self.entries.len()
            invariant
                i <= self.entries@.len(),
                forall|j: int| 0 <= j < i ==> self.entries@[j].0 != *key,
            decreases self.entries@.len() - i,
        {
            if id_compare(&self.entries[i].0, key) == 0 {
                assert(self.entries@[i as int].0@ == key@);
                assert(self.entries@[i as int].0 =~= *key);
                return Some(i);
            }
            i = i + 1;
        }
        proof {
            lemma_map_of_dom(self.seq(), *key);
            if self@.dom().contains(*key) {
                let j = choose|j: int| 0 <= j < self.seq().len() && (#[trigger] self.seq()[j]).0 == *key;
                assert(self.entries@[j].0 == *key);
            }
        }
        None
    }

    /// The number of keys held.
    pub fn len(&self) -> (r: usize)
        requires
            self.wf(),
        ensures
            r == self@.dom().len(),
    {
        proof {
            lemma_map_of_len(self.seq());
        }
        self.entries.len()
    }

    /// Whether `key` holds any values.
    pub fn contains_key(&self, key: &NodeId) -> (r: bool)
        requires
            self.wf(),
        ensures
            r == self@.dom().contains(*key),
    {
        match self.find(key) {
            Some(i) => {
                proof {
                    self.lemma_seq_distinct();
                    lemma_map_of_index(self.seq(), i as int);
                }
                true
            },
            None => false,
        }
    }

    /// A copy of the values stored under `key`.
    pub fn get(&self, key: &NodeId) -> (r: Option<Vec<Vec<u8>>>)
        requires
            self.wf(),
        ensures
            r is Some <==> self@.dom().contains(*key),
            r matches Some(v) ==> byte_lists(v@) == self@[*key],
    {
        match self.find(key) {
            Some(i) => {
                proof {
                    self.lemma_seq_distinct();
                    lemma_map_of_index(self.seq(), i as int);
                }
                Some(copy_values(&self.entries[i].1))
            },
            None => None,
        }
    }

    /// Appends the values `values` to those stored under `key`.
    pub fn extend(&mut self, key: NodeId, values: Vec<Vec<u8>>)
        requires
            old(self).wf(),
        ensures
            final(self).wf(),
            final(self)@ == old(self)@.insert(key, values_at(old(self)@, key) + byte_lists(values@)),
    {
        match self.find(&key) {
            Some(i) => {
                let mut current = copy_values(&self.entries[i].1);
                let mut j: usize = 0;
                let ghost start = byte_lists(current@);
                while j < values.len()
                    invariant
                        j <= values@.len(),
                        byte_lists(current@) == start + byte_lists(values@).subrange(0, j as int),
                    decreases values@.len() - j,
                {
                    let b = copy_bytes(&values[j]);
                    let ghost old_c = current@;
                    current.push(b);
                    assert(byte_lists(current@) =~= byte_lists(old_c).push(b@));
                    j = j + 1;
                    assert(byte_lists(current@) =~= start + byte_lists(values@).subrange(0, j as int));
                }
                assert(byte_lists(values@).subrange(0, j as int) =~= byte_lists(values@));
                let ghost before = self.seq();
                proof {
                    self.lemma_seq_distinct();
                    lemma_map_of_index(before, i as int);
                    lemma_map_of_update(before, i as int, byte_lists(current@));
                }
                let ghost old_entries = self.entries@;
                self.entries.set(i, (key, current));
                proof {
                    assert(self.entries@ == old_entries.update(i as int, (key, current)));
                    assert forall|a: int, b: int| 0 <= a < b < self.entries@.len() implies self.entries@[a].0
                        != self.entries@[b].0 by {
                        assert(old_entries[a].0 != old_entries[b].0);
                    }
                    assert(self.seq() =~= before.update(i as int, (key, start + byte_lists(values@))));
                }
            },
            None => {
                let copied = copy_values(&values);
                let ghost before = self.seq();
                let ghost old_entries = self.entries@;
                proof {
                    lemma_map_of_dom(before, key);
                    assert forall|a: int| 0 <= a < old_entries.len() implies old_entries[a].0 != key by {
                        assert(before[a].0 == old_entries[a].0);
                    }
                }
                self.entries.push((key, copied));
                proof {
                    assert forall|a: int, b: int| 0 <= a < b < self.entries@.len() implies self.entries@[a].0
                        != self.entries@[b].0 by {
                        assert(self.entries@[a] == old_entries[a]);
                        if b < old_entries.len() {
                            assert(self.entries@[b] == old_entries[b]);
                        }
                    }
                    assert(self.seq() =~= before.push((key, byte_lists(values@))));
                    assert(self.seq().drop_last() =~= before);
                    assert(values_at(old(self)@, key) + byte_lists(values@) =~= byte_lists(values@));
                }
            },
        }
    }

    /// Appends one value to those stored under `key`.
    pub fn append(&mut self, key: NodeId, value: Vec<u8>)
        requires
            old(self).wf(),
        ensures
            final(self).wf(),
            final(self)@ == old(self)@.insert(key, values_at(old(self)@, key).push(value@)),
    {
        let mut values: Vec<Vec<u8>> = Vec::new();
        let ghost v = value@;
        values.push(value);
        assert(byte_lists(values@) =~= seq![v]);
        self.extend(key, values);
        assert(values_at(old(self)@, key) + seq![v] =~= values_at(old(self)@, key).push(v));
    }

    /// Removes `key` and returns the values it held.
    pub fn remove(&mut self, key: &NodeId) -> (r: Option<Vec<Vec<u8>>>)
        requires
            old(self).wf(),
        ensures
            final(self).wf(),
            final(self)@ == old(self)@.remove(*key),
            r is Some <==> old(self)@.dom().contains(*key),
            r matches Some(v) ==> byte_lists(v@) == old(self)@[*key],
    {
        match self.find(key) {
            Some(i) => {
                let ghost before = self.seq();
                proof {
                    self.lemma_seq_distinct();
                    lemma_map_of_index(before, i as int);
                    lemma_map_of_remove(before, i as int);
                }
                let (_k, values) = self.entries.remove(i);
                proof {
                    assert(self.seq() =~= before.remove(i as int));
                    assert forall|a: int, b: int| 0 <= a < b < self.entries@.len() implies self.entries@[a].0
                        != self.entries@[b].0 by {
                        assert(self.entries@[a].0 == self.seq()[a].0);
                        assert(self.entries@[b].0 == self.seq()[b].0);
                    }
                }
                Some(values)
            },
            None => {
                assert(old(self)@.remove(*key) =~= old(self)@);
                None
            },
        }
    }

    /// The entries whose keys lie in `(start, end]` or equal `end`, in store order.
    pub fn entries_in_range(&self, start: &NodeId, end: &NodeId) -> (r: Vec<(NodeId, Vec<Vec<u8>>)>)
        requires
            self.wf(),
        ensures
            keys_distinct(r@),
            map_of(r@.map_values(|e: (NodeId, Vec<Vec<u8>>)| entry_view(e))) == self@.restrict(
                Set::new(|k: NodeId| in_transfer_range(k, *start, *end)),
            ),
    {
        let ghost range = Set::new(|k: NodeId| in_transfer_range(k, *start, *end));
        let mut r: Vec<(NodeId, Vec<Vec<u8>>)> = Vec::new();
        let mut i: usize = 0;
        while i < self.entries.len()
            invariant
                self.wf(),
                i <= self.entries@.len(),
                range == Set::new(|k: NodeId| in_transfer_range(k, *start, *end)),
                keys_distinct(r@),
                forall|a: int| 0 <= a < r@.len() ==> exists|b: int| 0 <= b < i && (#[trigger] r@[a]).0 == self.entries@[b].0,
                map_of(r@.map_values(|e: (NodeId, Vec<Vec<u8>>)| entry_view(e))) == map_of(
                    self.seq().take(i as int),
                ).restrict(range),
            decreases self.entries@.len() - i,
        {
            let key = self.entries[i].0;
            let ghost rv = r@.map_values(|e: (NodeId, Vec<Vec<u8>>)| entry_view(e));
            let ghost prefix = self.seq().take(i as int);
            assert(self.seq().take(i + 1).drop_last() =~= prefix);
            let same = id_compare(&key, end) == 0;
            if is_between(&key, start, end) || same {
                proof {
                    if same {
                        assert(key =~= *end);
                    }
                }
                let values = copy_values(&self.entries[i].1);
                let ghost old_r = r@;
                r.push((key, values));
                proof {
                    assert(r@.map_values(|e: (NodeId, Vec<Vec<u8>>)| entry_view(e)).drop_last() =~= rv);
                    assert forall|a: int, b: int| 0 <= a < b < r@.len() implies r@[a].0 != r@[b].0 by {
                        if b == r@.len() - 1 {
                            let c = choose|c: int| 0 <= c < i && (#[trigger] old_r[a]).0 == self.entries@[c].0;
                            assert(r@[a].0 == self.entries@[c].0);
                        } else {
                            assert(r@[a] == old_r[a]);
                            assert(r@[b] == old_r[b]);
                        }
                    }
                    assert forall|a: int| 0 <= a < r@.len() implies exists|b: int| 0 <= b < i + 1 && (#[trigger] r@[a]).0 == self.entries@[b].0 by {
                        if a == r@.len() - 1 {
                            assert(r@[a].0 == self.entries@[i as int].0);
                        } else {
                            assert(r@[a] == old_r[a]);
                        }
                    }
                    assert(map_of(self.seq().take(i + 1)).restrict(range) =~= map_of(prefix).restrict(range).insert(key, self.seq()[i as int].1));
                }
            } else {
                proof {
                    assert(!range.contains(key));
                    assert(map_of(self.seq().take(i + 1)).restrict(range) =~= map_of(prefix).restrict(range));
                }
            }
            i = i + 1;
        }
        assert(self.seq().take(i as int) =~= self.seq());
        r
    }

    /// The first `n` keys in store order (all of them when there are fewer).
    pub fn first_keys(&self, n: usize) -> (r: Vec<NodeId>)
        requires
            self.wf(),
        ensures
            r@ == self.key_order().take(if n <= self.key_order().len() { n as int } else { self.key_order().len() as int }),
    {
        let mut r: Vec<NodeId> = Vec::new();
        let mut i: usize = 0;
        let limit: usize = if n <= self.entries.len() { n } else { self.entries.len() };
        while i < limit
            invariant
                i <= limit,
                limit <= self.entries@.len(),
                limit == (if n <= self.key_order().len() { n as int } else { self.key_order().len() as int }),
                r@ == self.key_order().take(i as int),
            decreases limit - i,
        {
            r.push(self.entries[i].0);
            i = i + 1;
            assert(r@ =~= self.key_order().take(i as int));
        }
        r
    }
}

} // verus!
