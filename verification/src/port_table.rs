//! Which processes own the sockets bound to each local port.

use vstd::prelude::*;
use std::collections::HashMap;

verus! {

broadcast use vstd::std_specs::hash::group_hash_axioms;

/// For each local port, the ids of the processes that hold a socket on it,
/// in the order in which they were recorded.
pub struct PortTable {
    pids: HashMap<u16, Vec<u32>>,
}

/// The ids recorded for `port` in `m`, empty when there are none.
pub open spec fn pids_of(m: Map<u16, Seq<u32>>, port: u16) -> Seq<u32> {
    if m.contains_key(port) {
        m[port]
    } else {
        Seq::empty()
    }
}

/// `m` after recording `pids` as holding sockets on `port`: they follow the
/// ids already recorded there.
pub open spec fn extended(m: Map<u16, Seq<u32>>, port: u16, pids: Seq<u32>) -> Map<u16, Seq<u32>> {
    m.insert(port, pids_of(m, port) + pids)
}

/// The first id recorded for `port`, if any.
pub open spec fn first_pid_of(m: Map<u16, Seq<u32>>, port: u16) -> Option<u32> {
    if m.contains_key(port) && m[port].len() > 0 {
        Some(m[port][0])
    } else {
        None
    }
}

/// The first id recorded for `src`, or, when `src` has no entry at all,
/// the first one recorded for `dst`: the process a packet from port `src`
/// to port `dst` is taken to belong to.
pub open spec fn owner_pid_of(m: Map<u16, Seq<u32>>, src: u16, dst: u16) -> Option<u32> {
    if m.contains_key(src) {
        first_pid_of(m, src)
    } else {
        first_pid_of(m, dst)
    }
}

/// The table built from a list of sockets, each given by its local port and
/// the ids of the processes that hold it, recorded in list order.
pub open spec fn table_of(sockets: Seq<(u16, Seq<u32>)>) -> Map<u16, Seq<u32>>
    decreases sockets.len(),
{
    if sockets.len() == 0 {
        Map::empty()
    } else {
        extended(table_of(sockets.drop_last()), sockets.last().0, sockets.last().1)
    }
}

/// A list of sockets with each list of ids taken by its contents.
pub open spec fn sockets_view(sockets: Seq<(u16, Vec<u32>)>) -> Seq<(u16, Seq<u32>)> {
    sockets.map_values(|s: (u16, Vec<u32>)| (s.0, s.1@))
}

/// The concatenation of the ids of the sockets on `port`, in list order.
pub open spec fn collected_pids(sockets: Seq<(u16, Seq<u32>)>, port: u16) -> Seq<u32>
    decreases sockets.len(),
{
    if sockets.len() == 0 {
        Seq::empty()
    } else if sockets.last().0 == port {
        collected_pids(sockets.drop_last(), port) + sockets.last().1
    } else {
        collected_pids(sockets.drop_last(), port)
    }
}

/// The table built from a list of sockets has an entry for a port exactly
/// when some socket is on that port, and records for it the ids of all the
/// sockets on it, in list order.
pub proof fn lemma_table_collects_pids(sockets: Seq<(u16, Seq<u32>)>, port: u16)
    ensures
        table_of(sockets).contains_key(port) <==> exists|i: int|
            0 <= i < sockets.len() && #[trigger] sockets[i].0 == port,
        pids_of(table_of(sockets), port) == collected_pids(sockets, port),
    decreases sockets.len(),
{
    if sockets.len() > 0 {
        let init = sockets.drop_last();
        lemma_table_collects_pids(init, port);
        let last = sockets.len() - 1;
        if sockets[last].0 == port {
            assert(sockets[last].0 == port);
        } else {
            if exists|i: int| 0 <= i < sockets.len() && #[trigger] sockets[i].0 == port {
                let i = choose|i: int| 0 <= i < sockets.len() && #[trigger] sockets[i].0 == port;
                assert(init[i].0 == port);
            }
            if exists|i: int| 0 <= i < init.len() && #[trigger] init[i].0 == port {
                let i = choose|i: int| 0 <= i < init.len() && #[trigger] init[i].0 == port;
                assert(sockets[i].0 == port);
            }
        }
    }
}

/// Recording more ids for a port leaves its first id alone once it has
/// one, gives it the first new id otherwise, and changes no other port.
pub proof fn lemma_extend_keeps_first_pid(m: Map<u16, Seq<u32>>, port: u16, pids: Seq<u32>)
    ensures
        first_pid_of(m, port) is Some ==> first_pid_of(extended(m, port, pids), port)
            == first_pid_of(m, port),
        first_pid_of(m, port) is None ==> first_pid_of(extended(m, port, pids), port) == (if pids.len()
            > 0 {
            Some(pids[0])
        } else {
            None
        }),
        forall|other: u16|
            other != port ==> #[trigger] pids_of(extended(m, port, pids), other) == pids_of(m, other),
{
}

impl View for PortTable {
    type V = Map<u16, Seq<u32>>;

    closed spec fn view(&self) -> Map<u16, Seq<u32>> {
        self.pids@.map_values(|v: Vec<u32>| v@)
    }
}

impl PortTable {
    pub fn new() -> (res: Self)
        ensures
            res@ == Map::<u16, Seq<u32>>::empty(),
    {
        let res = PortTable { pids: HashMap::new() };
        proof {
            assert(res@ =~= Map::<u16, Seq<u32>>::empty());
        }
        res
    }

    /// Records `pids` as the whole list of ids for `port`, replacing any
    /// list it had.
    pub fn insert(&mut self, port: u16, pids: Vec<u32>)
        ensures
            final(self)@ == old(self)@.insert(port, pids@),
    {
        let ghost v = pids@;
        self.pids.insert(port, pids);
        proof {
            assert(self@ =~= old(self)@.insert(port, v));
        }
    }

    /// Records `pids` as holding sockets on `port`, after the ids already
    /// recorded for it.
    pub fn extend(&mut self, port: u16, pids: &[u32])
        ensures
            final(self)@ == extended(old(self)@, port, pids@),
    {
        let mut cur: Vec<u32> = match self.pids.remove(&port) {
            Some(v) => v,
            None => Vec::new(),
        };
        proof {
            assert(cur@ == pids_of(old(self)@, port));
        }
        let ghost start = cur@;
        let mut i: usize = 0;
        while i < pids.len()
            invariant
                i <= pids@.len(),
                cur@ == start + pids@.take(i as int),
            decreases pids@.len() - i,
        {
            cur.push(pids[i]);
            proof {
                assert(pids@.take(i + 1) =~= pids@.take(i as int).push(pids@[i as int]));
            }
            i = i + 1;
        }
        proof {
            assert(pids@.take(pids@.len() as int) =~= pids@);
        }
        self.pids.insert(port, cur);
        proof {
            assert(self@ =~= extended(old(self)@, port, pids@));
        }
    }

    /// The ids recorded for `port`, if it has an entry.
    pub fn pids(&self, port: u16) -> (res: Option<Vec<u32>>)
        ensures
            match res {
                Some(v) => self@.contains_key(port) && v@ == self@[port],
                None => !self@.contains_key(port),
            },
    {
        match self.pids.get(&port) {
            Some(v) => {
                let mut copy: Vec<u32> = Vec::new();
                let mut i: usize = 0;
                while i < v.len()
                    invariant
                        i <= v@.len(),
                        copy@ == v@.take(i as int),
                    decreases v@.len() - i,
                {
                    copy.push(v[i]);
                    proof {
                        assert(v@.take(i + 1) =~= v@.take(i as int).push(v@[i as int]));
                    }
                    i = i + 1;
                }
                proof {
                    assert(v@.take(v@.len() as int) =~= v@);
                }
                Some(copy)
            },
            None => None,
        }
    }

    /// The first id recorded for `port`.
    pub fn first_pid(&self, port: u16) -> (res: Option<u32>)
        ensures
            res == first_pid_of(self@, port),
    {
        match self.pids.get(&port) {
            Some(v) => {
                if v.len() > 0 {
                    Some(v[0])
                } else {
                    None
                }
            },
            None => None,
        }
    }

    /// The first id recorded for `src`, or, when `src` has no entry at all,
    /// the first one recorded for `dst`.
    pub fn first_pid_of_either(&self, src: u16, dst: u16) -> (res: Option<u32>)
        ensures
            res == owner_pid_of(self@, src, dst),
    {
        match self.pids.get(&src) {
            Some(v) => {
                if v.len() > 0 {
                    Some(v[0])
                } else {
                    None
                }
            },
            None => self.first_pid(dst),
        }
    }

    /// Builds the table from a list of sockets, each given by its local port
    /// and the ids of the processes that hold it.
    pub fn from_sockets(sockets: &Vec<(u16, Vec<u32>)>) -> (res: Self)
        ensures
            res@ == table_of(sockets_view(sockets@)),
    {
        let mut table = PortTable::new();
        let ghost all = sockets_view(sockets@);
        let mut i: usize = 0;
        while i < sockets.len()
            invariant
                i <= sockets@.len(),
                all == sockets_view(sockets@),
                table@ == table_of(all.take(i as int)),
            decreases sockets@.len() - i,
        {
            let entry = &sockets[i];
            table.extend(entry.0, entry.1.as_slice());
            proof {
                assert(all.take(i + 1).drop_last() =~= all.take(i as int));
            }
            i = i + 1;
        }
        proof {
            assert(all.take(all.len() as int) =~= all);
        }
        table
    }
}

} // verus!
