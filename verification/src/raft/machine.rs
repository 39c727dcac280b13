use vstd::prelude::*;

use crate::random::gen_range;
use crate::raft::state::state::StateMachine;

verus! {

/// A state machine that adds up the commands it is given.
#[derive(Default, Debug, PartialEq, Eq, Clone, Copy)]
pub struct Sum {
    pub total: u32,
}

impl StateMachine<u32, u32> for Sum {
    open spec fn initial() -> Sum {
        Sum { total: 0 }
    }

    open spec fn applied(self, command: u32) -> Sum {
        Sum { total: self.total.wrapping_add(command) }
    }

    open spec fn output(self) -> u32 {
        self.total
    }

    fn fresh() -> (r: Sum) {
        Sum { total: 0 }
    }

    fn apply(&mut self, command: u32) {
        self.total = self.total.wrapping_add(command);
    }

    fn get(&self) -> (r: u32) {
        self.total
    }
}

/// Something that makes up commands for a client to send.
pub trait DataGenerator<T> {
    fn gen(&self) -> T;
}

/// Makes up commands from 1 to 4, at random.
#[derive(Default, Debug, Clone, Copy)]
pub struct RandNum {}

impl DataGenerator<u32> for RandNum {
    fn gen(&self) -> (r: u32)
        ensures
            1 <= r < 5,
    {
        let n = gen_range(1, 5);
        n as u32
    }
}

} // verus!
