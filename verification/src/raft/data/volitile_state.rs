use vstd::prelude::*;

use crate::raft::data::data_type::CommandType;
use crate::raft::data::persistent_state::{EntryView, PersistentState};
use crate::raft::data::request::{Data, DataView};
use crate::raft::state::state::StateMachine;

verus! {

/// What a server forgets when it crashes: how far the log is committed, and how
/// many clock ticks passed since it last heard from a leader or started an election.
#[derive(Default, Clone, Copy, Debug, PartialEq, Eq, Structural)]
pub struct VolitileState {
    pub commit_index: usize,
    pub tick_since_start: u32,
}

/// The state machine `sm` after the commands of `log` are applied to it in order;
/// configuration entries leave it as it is.
pub open spec fn replay<T, Output, SM: StateMachine<T, Output>>(sm: SM, log: Seq<EntryView<T>>) -> SM
    decreases log.len(),
{
    if log.len() == 0 {
        sm
    } else {
        let s = replay::<T, Output, SM>(sm, log.drop_last());
        match log.last().data {
            DataView::Command(c) => s.applied(c),
            DataView::Config(_) => s,
        }
    }
}

impl VolitileState {
    pub fn get_commit_index(&self) -> (r: usize)
        ensures
            r == self.commit_index,
    {
        self.commit_index
    }

    /// Moves the commit index up to `new_commit_index`, if that is further on, and
    /// applies to the state machine, in order, the commands of the entries that this
    /// newly commits.
    pub fn try_update_commit_index<T: CommandType, Output, SM: StateMachine<T, Output>>(
        &mut self,
        state_machine: &mut SM,
        persistent_state: &PersistentState<T>,
        new_commit_index: usize,
    ) -> (r: bool)
        requires
            old(self).commit_index < new_commit_index ==> new_commit_index
                <= persistent_state.log.len(),
        ensures
            r == (old(self).commit_index < new_commit_index),
            r ==> *final(self) == (VolitileState { commit_index: new_commit_index, ..*old(self) }),
            r ==> *final(state_machine) == replay::<T, Output, SM>(
                *old(state_machine),
                persistent_state@.log.subrange(old(self).commit_index as int, new_commit_index as int),
            ),
            !r ==> *final(self) == *old(self),
            !r ==> *final(state_machine) == *old(state_machine),
    {
        if self.commit_index >= new_commit_index {
            return false;
        }
        let ghost log = persistent_state@.log;
        let ghost sm0 = *state_machine;
        let start = self.commit_index;
        let mut index: usize = start;
        proof {
            assert(log.subrange(start as int, start as int) =~= Seq::<EntryView<T>>::empty());
        }
        while index < new_commit_index
            invariant
                start <= index <= new_commit_index <= persistent_state.log.len(),
                log == persistent_state@.log,
                *state_machine == replay::<T, Output, SM>(
                    sm0,
                    log.subrange(start as int, index as int),
                ),
            decreases new_commit_index - index,
        {
            proof {
                assert(log.subrange(start as int, index + 1).drop_last() =~= log.subrange(
                    start as int,
                    index as int,
                ));
                assert(log.subrange(start as int, index + 1).last() == persistent_state.log@[index as int]@);
            }
            match &persistent_state.log[index].data {
                Data::Command(command) => {
                    state_machine.apply(*command);
                },
                Data::Config(_) => {},
            }
            index += 1;
        }
        self.commit_index = new_commit_index;
        true
    }
}

/// Applying the commands of `a` and then those of `b` is applying those of `a + b`.
pub proof fn lemma_replay_concat<T, Output, SM: StateMachine<T, Output>>(
    sm: SM,
    a: Seq<EntryView<T>>,
    b: Seq<EntryView<T>>,
)
    ensures
        replay::<T, Output, SM>(replay::<T, Output, SM>(sm, a), b) == replay::<T, Output, SM>(
            sm,
            a + b,
        ),
    decreases b.len(),
{
    if b.len() > 0 {
        lemma_replay_concat::<T, Output, SM>(sm, a, b.drop_last());
        assert((a + b).drop_last() =~= a + b.drop_last());
    } else {
        assert(a + b =~= a);
    }
}

} // verus!
