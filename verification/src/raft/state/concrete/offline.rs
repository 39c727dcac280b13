use vstd::prelude::*;

use crate::raft::data::data_type::CommandType;
use crate::raft::data::persistent_state::{PersistentState, PersistentStateView};
use crate::raft::data::request::{Event, EventView, Request, RequestView};
use crate::raft::data::volitile_state::VolitileState;
use crate::raft::state::concrete::follower::Follower;
use crate::raft::state::raft_state::{RaftState, RaftStateView, Step, quiet, requests_view, requests_wf, step_of};
use crate::raft::state::state::StateMachine;

verus! {

/// A crashed server.
#[derive(Debug, PartialEq, Eq, Clone, Copy)]
pub struct Offline;

/// How many clock ticks a crashed server waits before it restarts.
pub const TICK_TO_REBOOT: u32 = 100;

/// A crashed server does nothing until enough ticks have passed; then it restarts as
/// a follower, with its volatile state cleared and its vote withdrawn.
pub open spec fn offline_step<T, Output, SM>(
    vs: VolitileState,
    ps: PersistentStateView<T>,
    sm: SM,
    req: RequestView<T, Output>,
) -> Option<Step<T, Output, SM>> {
    match req.event {
        EventView::Tick => if vs.tick_since_start < TICK_TO_REBOOT {
            Some(quiet(RaftStateView::Offline, vs, ps, sm))
        } else {
            Some(
                quiet(
                    RaftStateView::Follower,
                    VolitileState { commit_index: 0, tick_since_start: 0 },
                    PersistentStateView { voted_for: None, ..ps },
                    sm,
                ),
            )
        },
        _ => Some(quiet(RaftStateView::Offline, vs, ps, sm)),
    }
}

impl Offline {
    pub fn handle<T: CommandType, Output, SM: StateMachine<T, Output>>(
        self,
        volitile_state: &mut VolitileState,
        persistent_state: &mut PersistentState<T>,
        state_machine: &mut SM,
        request: Request<T, Output>,
    ) -> (r: (Vec<Request<T, Output>>, RaftState))
        requires
            old(persistent_state).wf(),
        ensures
            final(persistent_state).wf(),
            r.1.wf(),
            requests_wf(r.0@),
            step_of(r, *final(volitile_state), final(persistent_state)@, *final(state_machine))
                == offline_step(
                *old(volitile_state),
                old(persistent_state)@,
                *old(state_machine),
                request@,
            )->Some_0,
    {
        let r: Vec<Request<T, Output>> = Vec::new();
        assert(requests_view(r@) =~= Seq::empty());
        match request.event {
            Event::Tick(_) => {
                if volitile_state.tick_since_start < TICK_TO_REBOOT {
                    return (r, RaftState::Offline(self));
                }
                *volitile_state = VolitileState { commit_index: 0, tick_since_start: 0 };
                persistent_state.voted_for = None;
                (r, RaftState::Follower(Follower))
            },
            _ => (r, RaftState::Offline(self)),
        }
    }
}

} // verus!
