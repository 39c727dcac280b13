use vstd::prelude::*;

use crate::random::gen_range;
use crate::raft::data::id_set::IdSet;
use crate::raft::data::persistent_state::Config;

verus! {

/// The identity of a party (a server or a client) on the cluster.
#[derive(Clone, Copy, Debug, Hash, PartialEq, Eq, PartialOrd, Ord, Default, Structural)]
pub struct Id {
    pub id: u32,
}

impl Id {
    /// The identity that stands for "nobody".
    pub fn none() -> (r: Id)
        ensures
            r.id == 10000,
    {
        Id { id: 10000 }
    }

    pub fn new(id: u32) -> (r: Id)
        ensures
            r.id == id,
    {
        Id { id }
    }
}

/// A message that the cluster can route to its recipient.
pub trait Message: Sized {
    fn recipient(&self) -> Id;
}

/// Whether the cluster passes on a message whose roll, out of 100, is `roll`: it drops
/// those above 80.
pub fn delivers(roll: u64) -> (r: bool)
    ensures
        r == (roll <= 80),
{
    !(roll > 80)
}

/// Rolls, at random, whether the cluster passes on the next message.
pub fn roll_delivery() -> bool {
    delivers(gen_range(0, 100))
}

/// The configuration a cluster of `initial_size` servers starts with: the servers
/// numbered from 0 up.
pub fn initial_config(initial_size: u32) -> (r: Config)
    ensures
        r.wf(),
        r@ == Set::new(|k: Id| k.id < initial_size),
{
    let mut servers = IdSet::new();
    let mut i: u32 = 0;
    while i < initial_size
        invariant
            i <= initial_size,
            servers.wf(),
            servers@ == Set::new(|k: Id| k.id < i),
        decreases initial_size - i,
    {
        servers.insert(Id::new(i));
        i += 1;
        proof {
            assert forall|k: Id| #[trigger] servers@.contains(k) <==> k.id < i by {
                if k.id == i - 1 {
                    assert(k == Id { id: (i - 1) as u32 });
                }
            }
            assert(servers@ =~= Set::new(|k: Id| k.id < i));
        }
    }
    Config { servers }
}

} // verus!
