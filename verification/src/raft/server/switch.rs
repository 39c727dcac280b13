use vstd::prelude::*;

verus! {

/// The number of a server on the switch.
#[derive(Hash, PartialEq, Eq, Debug, Clone, Copy, Structural)]
pub struct Id(pub u32);

impl Id {
    pub fn new(id: u32) -> (r: Id)
        ensures
            r.0 == id,
    {
        Id(id)
    }
}

/// A message that the switch can route to its recipient.
pub trait Message: Sized {
    fn recipient(&self) -> Id;
}

} // verus!
