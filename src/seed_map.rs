//! The discovered addresses of the seed nodes, keyed by node identifier.

use vstd::prelude::*;
use crate::peer_args::{peers_view, NodeAddr};

verus! {

/// The map that a sequence of `(id, address)` bindings builds when each is
/// inserted in turn: a later binding of an id replaces an earlier one.
pub open spec fn binding_map(bs: Seq<(Seq<char>, Seq<char>)>) -> Map<Seq<char>, Seq<char>>
    decreases bs.len(),
{
    if bs.len() == 0 {
        Map::empty()
    } else {
        binding_map(bs.drop_last()).insert(bs.last().0, bs.last().1)
    }
}

/// No two bindings share an id.
pub open spec fn ids_distinct(bs: Seq<(Seq<char>, Seq<char>)>) -> bool {
    forall|i: int, j: int| 0 <= i < bs.len() && 0 <= j < bs.len() && i != j ==> bs[i].0 != bs[j].0
}

/// Node identifier to address, one entry per identifier.
pub struct SeedAddressMap {
    entries: Vec<NodeAddr>,
}

impl View for SeedAddressMap {
    type V = Map<Seq<char>, Seq<char>>;

    closed spec fn view(&self) -> Map<Seq<char>, Seq<char>> {
        binding_map(peers_view(self.entries@))
    }
}

proof fn lemma_binding_map_push(bs: Seq<(Seq<char>, Seq<char>)>, b: (Seq<char>, Seq<char>))
    ensures
        binding_map(bs.push(b)) == binding_map(bs).insert(b.0, b.1),
{
    assert(bs.push(b).drop_last() =~= bs);
}

proof fn lemma_binding_map_update(bs: Seq<(Seq<char>, Seq<char>)>, i: int, v: Seq<char>)
    requires
        ids_distinct(bs),
        0 <= i < bs.len(),
    ensures
        binding_map(bs.update(i, (bs[i].0, v))) == binding_map(bs).insert(bs[i].0, v),
    decreases bs.len(),
{
    let k = bs[i].0;
    let u = bs.update(i, (k, v));
    if i == bs.len() - 1 {
        assert(u.drop_last() =~= bs.drop_last());
        assert(binding_map(u) =~= binding_map(bs).insert(k, v));
    } else {
        let d = bs.drop_last();
        assert(ids_distinct(d));
        lemma_binding_map_update(d, i, v);
        assert(u.drop_last() =~= d.update(i, (k, v)));
        assert(bs.last().0 != k);
        assert(binding_map(u) =~= binding_map(bs).insert(k, v));
    }
}

proof fn lemma_binding_map_domain(bs: Seq<(Seq<char>, Seq<char>)>)
    ensures
        binding_map(bs).dom().finite(),
        forall|k: Seq<char>| #[trigger] binding_map(bs).contains_key(k)
            <==> exists|i: int| 0 <= i < bs.len() && bs[i].0 == k,
        ids_distinct(bs) ==> binding_map(bs).dom().len() == bs.len(),
    decreases bs.len(),
{
    if bs.len() > 0 {
        let d = bs.drop_last();
        lemma_binding_map_domain(d);
        assert forall|k: Seq<char>| #[trigger] binding_map(bs).contains_key(k)
            <==> exists|i: int| 0 <= i < bs.len() && bs[i].0 == k by {
            if binding_map(bs).contains_key(k) && k != bs.last().0 {
                let i = choose|i: int| 0 <= i < d.len() && d[i].0 == k;
                assert(bs[i].0 == k);
            }
            if exists|i: int| 0 <= i < bs.len() && bs[i].0 == k {
                let i = choose|i: int| 0 <= i < bs.len() && bs[i].0 == k;
                if i < d.len() {
                    assert(d[i].0 == k);
                }
            }
        }
        if ids_distinct(bs) {
            assert(ids_distinct(d));
            if binding_map(d).contains_key(bs.last().0) {
                let i = choose|i: int| 0 <= i < d.len() && d[i].0 == bs.last().0;
                assert(bs[i].0 == bs[bs.len() - 1].0);
            }
        }
    }
}

impl SeedAddressMap {
    /// Ids of the entries are distinct.
    pub closed spec fn wf(&self) -> bool {
        ids_distinct(peers_view(self.entries@))
    }

    pub fn new() -> (m: SeedAddressMap)
        ensures
            m.wf(),
            m@ == Map::<Seq<char>, Seq<char>>::empty(),
    {
        SeedAddressMap { entries: Vec::new() }
    }

    /// Binds `id` to `address`, replacing an earlier binding of `id`.
    pub fn insert(&mut self, id: String, address: String)
        requires
            old(self).wf(),
        ensures
            final(self).wf(),
            final(self)@ == old(self)@.insert(id@, address@),
    {
        let ghost bs = peers_view(self.entries@);
        let mut i: usize = 0;
        while i < self.entries.len()
            invariant
                i <= self.entries@.len(),
                peers_view(self.entries@) == bs,
                bs == peers_view(old(self).entries@),
                ids_distinct(bs),
                forall|j: int| 0 <= j < i ==> bs[j].0 != id@,
            decreases self.entries@.len() - i,
        {
            if self.entries[i].id == id {
                assert(bs[i as int].0 == id@);
                self.entries.set(i, NodeAddr { id, address });
                proof {
                    lemma_binding_map_update(bs, i as int, address@);
                    assert(peers_view(self.entries@) =~= bs.update(i as int, (bs[i as int].0, address@)));
                    assert(ids_distinct(peers_view(self.entries@)));
                }
                return;
            }
            i += 1;
        }
        self.entries.push(NodeAddr { id, address });
        proof {
            assert(peers_view(self.entries@) =~= bs.push((id@, address@)));
            assert(ids_distinct(peers_view(self.entries@)));
            lemma_binding_map_push(bs, (id@, address@));
        }
    }

    /// The number of identifiers in the map.
    pub fn len(&self) -> (n: usize)
        requires
            self.wf(),
        ensures
            n == self@.len(),
    {
        proof {
            lemma_binding_map_domain(peers_view(self.entries@));
        }
        self.entries.len()
    }

    /// The address bound to `id`, if any.
    pub fn get(&self, id: &String) -> (r: Option<String>)
        ensures
            match r {
                Some(a) => self@.contains_key(id@) && self@[id@] == a@,
                None => !self@.contains_key(id@),
            },
    {
        proof {
            lemma_binding_map_domain(peers_view(self.entries@));
        }
        let ghost bs = peers_view(self.entries@);
        let mut i: usize = self.entries.len();
        while i > 0
            invariant
                i <= self.entries@.len(),
                bs == peers_view(self.entries@),
                forall|j: int| i <= j < bs.len() ==> bs[j].0 != id@,
            decreases i,
        {
            i -= 1;
            if self.entries[i].id == *id {
                proof {
                    lemma_binding_map_last_wins(bs, i as int);
                }
                return Some(self.entries[i].address.clone());
            }
        }
        None
    }

    /// The bindings, one per identifier.
    pub fn to_vec(&self) -> (r: Vec<NodeAddr>)
        requires
            self.wf(),
        ensures
            binding_map(peers_view(r@)) == self@,
            ids_distinct(peers_view(r@)),
            r@.len() == self@.len(),
    {
        proof {
            lemma_binding_map_domain(peers_view(self.entries@));
        }
        let mut r: Vec<NodeAddr> = Vec::new();
        let mut i: usize = 0;
        while i < self.entries.len()
            invariant
                i <= self.entries@.len(),
                r@.len() == i,
                peers_view(r@) == peers_view(self.entries@).take(i as int),
            decreases self.entries@.len() - i,
        {
            let e = NodeAddr { id: self.entries[i].id.clone(), address: self.entries[i].address.clone() };
            r.push(e);
            assert(r@[i as int]@ == self.entries@[i as int]@);
            assert(peers_view(r@) =~= peers_view(self.entries@).take(i + 1));
            i += 1;
        }
        assert(peers_view(self.entries@).take(i as int) =~= peers_view(self.entries@));
        r
    }
}

/// The last binding of an id is the one the map holds.
proof fn lemma_binding_map_last_wins(bs: Seq<(Seq<char>, Seq<char>)>, i: int)
    requires
        0 <= i < bs.len(),
        forall|j: int| i < j < bs.len() ==> bs[j].0 != bs[i].0,
    ensures
        binding_map(bs).contains_key(bs[i].0),
        binding_map(bs)[bs[i].0] == bs[i].1,
    decreases bs.len(),
{
    if i < bs.len() - 1 {
        lemma_binding_map_last_wins(bs.drop_last(), i);
    }
}

/// A map built from bindings with distinct ids has one entry per binding.
pub proof fn lemma_binding_map_size(bs: Seq<(Seq<char>, Seq<char>)>)
    requires
        ids_distinct(bs),
    ensures
        binding_map(bs).dom().len() == bs.len(),
{
    lemma_binding_map_domain(bs);
}

/// With distinct ids, each binding is what the map holds for its id.
pub proof fn lemma_binding_map_distinct_at(bs: Seq<(Seq<char>, Seq<char>)>, i: int)
    requires
        ids_distinct(bs),
        0 <= i < bs.len(),
    ensures
        binding_map(bs).contains_key(bs[i].0),
        binding_map(bs)[bs[i].0] == bs[i].1,
{
    lemma_binding_map_last_wins(bs, i);
}

/// A map built from bindings with non-empty addresses holds only non-empty
/// addresses.
pub proof fn lemma_binding_map_values_non_empty(bs: Seq<(Seq<char>, Seq<char>)>)
    requires
        forall|i: int| 0 <= i < bs.len() ==> (#[trigger] bs[i]).1.len() > 0,
    ensures
        forall|k: Seq<char>| #[trigger] binding_map(bs).contains_key(k) ==> binding_map(bs)[k].len() > 0,
    decreases bs.len(),
{
    if bs.len() > 0 {
        let d = bs.drop_last();
        assert forall|i: int| 0 <= i < d.len() implies (#[trigger] d[i]).1.len() > 0 by {
            assert(d[i] == bs[i]);
        }
        lemma_binding_map_values_non_empty(d);
        assert(bs.last() == bs[bs.len() - 1]);
        assert(binding_map(bs) == binding_map(d).insert(bs.last().0, bs.last().1));
    } else {
        assert(binding_map(bs) == Map::<Seq<char>, Seq<char>>::empty());
    }
}

} // verus!
