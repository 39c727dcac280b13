use vstd::prelude::*;

use crate::raft::data::data_type::CommandType;
use crate::raft::data::persistent_state::{PersistentState, PersistentStateView};
use crate::raft::data::request::{Event, EventView, Request, RequestView};
use crate::raft::data::volitile_state::VolitileState;
use crate::raft::server::raft_cluster::Id;
use crate::raft::state::concrete::candidate::{Candidate, candidate_step};
use crate::raft::state::concrete::follower::{Follower, follower_step};
use crate::raft::state::concrete::leader::{Leader, leader_step};
use crate::raft::state::concrete::offline::{Offline, offline_step};
use crate::raft::state::state::StateMachine;

verus! {

/// The role a server plays.
#[derive(Debug, PartialEq, Eq)]
pub enum RaftState {
    Offline(Offline),
    Candidate(Candidate),
    Leader(Leader),
    Follower(Follower),
}

pub enum RaftStateView {
    Offline,
    Candidate { votes: Set<Id> },
    Leader { next_index: Map<Id, usize>, match_index: Map<Id, usize> },
    Follower,
}

impl View for RaftState {
    type V = RaftStateView;

    open spec fn view(&self) -> RaftStateView {
        match self {
            RaftState::Offline(_) => RaftStateView::Offline,
            RaftState::Candidate(c) => RaftStateView::Candidate { votes: c.votes@ },
            RaftState::Leader(l) => RaftStateView::Leader {
                next_index: l.next_index@,
                match_index: l.match_index@,
            },
            RaftState::Follower(_) => RaftStateView::Follower,
        }
    }
}

impl RaftState {
    pub open spec fn wf(&self) -> bool {
        match self {
            RaftState::Candidate(c) => c.votes.wf(),
            RaftState::Leader(l) => l.next_index.wf() && l.match_index.wf(),
            _ => true,
        }
    }
}

impl Default for RaftState {
    fn default() -> (r: RaftState)
        ensures
            r@ == RaftStateView::Offline,
    {
        RaftState::Offline(Offline)
    }
}

/// What one request does to a server: the requests it sends, and the role, volatile
/// state, persistent state and state machine it is left with.
pub struct Step<T, Output, SM> {
    pub responses: Seq<RequestView<T, Output>>,
    pub raft_state: RaftStateView,
    pub volitile: VolitileState,
    pub persistent: PersistentStateView<T>,
    pub machine: SM,
}

pub open spec fn requests_view<T, Output>(s: Seq<Request<T, Output>>) -> Seq<RequestView<T, Output>> {
    s.map_values(|r: Request<T, Output>| r@)
}

pub open spec fn requests_wf<T, Output>(s: Seq<Request<T, Output>>) -> bool {
    forall|i: int| 0 <= i < s.len() ==> #[trigger] s[i].wf()
}

/// A step that sends nothing and leaves the server in `raft_state` and as it was otherwise.
pub open spec fn quiet<T, Output, SM>(
    raft_state: RaftStateView,
    volitile: VolitileState,
    persistent: PersistentStateView<T>,
    machine: SM,
) -> Step<T, Output, SM> {
    Step { responses: Seq::empty(), raft_state, volitile, persistent, machine }
}

pub open spec fn step_of<T, Output, SM>(
    r: (Vec<Request<T, Output>>, RaftState),
    volitile: VolitileState,
    persistent: PersistentStateView<T>,
    machine: SM,
) -> Step<T, Output, SM> {
    Step { responses: requests_view(r.0@), raft_state: r.1@, volitile, persistent, machine }
}

/// What every role does before its own handling: a crash takes the server offline
/// whatever its role, and a tick is counted.
pub open spec fn handler_step<T, Output, SM: StateMachine<T, Output>>(
    rs: RaftStateView,
    vs: VolitileState,
    ps: PersistentStateView<T>,
    sm: SM,
    req: RequestView<T, Output>,
) -> Option<Step<T, Output, SM>> {
    if req.event is Crash {
        Some(quiet(RaftStateView::Offline, vs, ps, sm))
    } else if req.event is Tick && vs.tick_since_start == u32::MAX {
        None
    } else {
        let vs1 = if req.event is Tick {
            VolitileState { tick_since_start: (vs.tick_since_start + 1) as u32, ..vs }
        } else {
            vs
        };
        match rs {
            RaftStateView::Offline => offline_step(vs1, ps, sm, req),
            RaftStateView::Candidate { votes } => candidate_step(votes, vs1, ps, sm, req),
            RaftStateView::Leader { next_index, match_index } => leader_step(
                next_index,
                match_index,
                vs1,
                ps,
                sm,
                req,
            ),
            RaftStateView::Follower => follower_step(vs1, ps, sm, req),
        }
    }
}

impl RaftState {
    /// Handles one request in this role.
    pub fn handle_request<T: CommandType, Output, SM: StateMachine<T, Output>>(
        self,
        request: Request<T, Output>,
        volitile_state: &mut VolitileState,
        persistent_state: &mut PersistentState<T>,
        state_machine: &mut SM,
    ) -> (r: (Vec<Request<T, Output>>, Self))
        requires
            self.wf(),
            old(persistent_state).wf(),
            request.wf(),
            handler_step(
                self@,
                *old(volitile_state),
                old(persistent_state)@,
                *old(state_machine),
                request@,
            ) is Some,
        ensures
            final(persistent_state).wf(),
            r.1.wf(),
            requests_wf(r.0@),
            step_of(r, *final(volitile_state), final(persistent_state)@, *final(state_machine))
                == handler_step(
                self@,
                *old(volitile_state),
                old(persistent_state)@,
                *old(state_machine),
                request@,
            )->Some_0,
    {
        match &request.event {
            Event::Tick(_) => {
                volitile_state.tick_since_start = volitile_state.tick_since_start + 1;
            },
            Event::Crash(_) => {
                let empty: Vec<Request<T, Output>> = Vec::new();
                assert(requests_view(empty@) =~= Seq::empty());
                return (empty, RaftState::Offline(Offline));
            },
            _ => {},
        }
        match self {
            RaftState::Offline(state) => {
                state.handle(volitile_state, persistent_state, state_machine, request)
            },
            RaftState::Candidate(state) => {
                state.handle(volitile_state, persistent_state, state_machine, request)
            },
            RaftState::Leader(state) => {
                state.handle(volitile_state, persistent_state, state_machine, request)
            },
            RaftState::Follower(state) => {
                state.handle(volitile_state, persistent_state, state_machine, request)
            },
        }
    }
}

} // verus!
