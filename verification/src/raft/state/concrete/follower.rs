use vstd::prelude::*;

use crate::raft::data::data_type::CommandType;
use crate::raft::data::persistent_state::{PersistentState, PersistentStateView, appended, log_state_at_spec, vote_granted};
use crate::raft::data::request::{
    ClientResponse, ClientResponseView, Event, EventView, InsertResponse, Request, RequestView,
    VoteResponse, max_commit_index_of,
};
use crate::raft::data::volitile_state::{VolitileState, replay};
use crate::raft::state::concrete::candidate::{Candidate, call_election_step};
use crate::raft::state::raft_state::{
    RaftState, RaftStateView, Step, quiet, requests_view, requests_wf, step_of,
};
use crate::raft::state::state::StateMachine;

verus! {

/// A server that follows a leader.
#[derive(Debug, PartialEq, Eq, Clone, Copy, Default)]
pub struct Follower;

/// How many clock ticks a follower waits for its leader before it starts an election.
pub const TICK_TILL_ELECTION: u32 = 25;

/// A follower answers vote requests, starts an election when its leader has been quiet
/// too long, takes entries from a leader of its term or a later one (and commits as far
/// as the leader did, within what it received), and sends clients to the leader it knows.
pub open spec fn follower_step<T, Output, SM: StateMachine<T, Output>>(
    vs: VolitileState,
    ps: PersistentStateView<T>,
    sm: SM,
    req: RequestView<T, Output>,
) -> Option<Step<T, Output, SM>> {
    match req.event {
        EventView::Vote(event) => {
            let success = ps.current_term <= req.term && vote_granted(ps, event, req.sender);
            Some(
                Step {
                    responses: seq![
                        RequestView {
                            sender: ps.id,
                            reciever: req.sender,
                            term: ps.current_term,
                            event: EventView::VoteResponse(VoteResponse { success }),
                        },
                    ],
                    raft_state: RaftStateView::Follower,
                    volitile: vs,
                    persistent: if success {
                        PersistentStateView { voted_for: Some(req.sender), ..ps }
                    } else {
                        ps
                    },
                    machine: sm,
                },
            )
        },
        EventView::Tick => if vs.tick_since_start < TICK_TILL_ELECTION {
            Some(quiet(RaftStateView::Follower, vs, ps, sm))
        } else {
            call_election_step(vs, ps, sm)
        },
        EventView::Insert(event) => {
            let current = ps.current_term <= req.term;
            let vs1 = if current {
                VolitileState { tick_since_start: 0, ..vs }
            } else {
                vs
            };
            let ps1 = if current {
                PersistentStateView { voted_for: Some(req.sender), ..ps }
            } else {
                ps
            };
            let success = current && log_state_at_spec(
                ps.log,
                event.prev_log_state.length as int,
            ) == Some(event.prev_log_state);
            let ps2 = if success {
                PersistentStateView {
                    log: appended(ps.log, event.prev_log_state.length as int, event.entries),
                    ..ps1
                }
            } else {
                ps1
            };
            let new_commit = max_commit_index_of(event);
            let commits = success && vs1.commit_index < new_commit;
            Some(
                Step {
                    responses: seq![
                        RequestView {
                            sender: ps.id,
                            reciever: req.sender,
                            term: ps.current_term,
                            event: EventView::InsertResponse(InsertResponse { success }),
                        },
                    ],
                    raft_state: RaftStateView::Follower,
                    volitile: if commits {
                        VolitileState { commit_index: new_commit as usize, ..vs1 }
                    } else {
                        vs1
                    },
                    persistent: ps2,
                    machine: if commits {
                        replay::<T, Output, SM>(sm, ps2.log.subrange(vs1.commit_index as int, new_commit))
                    } else {
                        sm
                    },
                },
            )
        },
        EventView::Client { id, data } => Some(
            Step {
                responses: seq![
                    RequestView {
                        sender: ps.id,
                        reciever: req.sender,
                        term: 0,
                        event: EventView::ClientResponse(
                            ClientResponseView::Failed { id, leader_id: ps.voted_for, data },
                        ),
                    },
                ],
                raft_state: RaftStateView::Follower,
                volitile: vs,
                persistent: ps,
                machine: sm,
            },
        ),
        _ => Some(quiet(RaftStateView::Follower, vs, ps, sm)),
    }
}

impl Follower {
    pub fn handle<T: CommandType, Output, SM: StateMachine<T, Output>>(
        self,
        volitile_state: &mut VolitileState,
        persistent_state: &mut PersistentState<T>,
        state_machine: &mut SM,
        request: Request<T, Output>,
    ) -> (r: (Vec<Request<T, Output>>, RaftState))
        requires
            old(persistent_state).wf(),
            request.wf(),
            follower_step(
                *old(volitile_state),
                old(persistent_state)@,
                *old(state_machine),
                request@,
            ) is Some,
        ensures
            final(persistent_state).wf(),
            r.1.wf(),
            requests_wf(r.0@),
            step_of(r, *final(volitile_state), final(persistent_state)@, *final(state_machine))
                == follower_step(
                *old(volitile_state),
                old(persistent_state)@,
                *old(state_machine),
                request@,
            )->Some_0,
    {
        let ghost req = request@;
        let sender = request.sender;
        let term = request.term;
        let empty: Vec<Request<T, Output>> = Vec::new();
        assert(requests_view(empty@) =~= Seq::empty());
        match request.event {
            Event::Vote(event) => {
                let mut success = persistent_state.current_term <= term;
                if success {
                    success = persistent_state.try_vote_for(event, sender);
                }
                let response = Request {
                    sender: persistent_state.id,
                    reciever: sender,
                    term: persistent_state.current_term,
                    event: Event::VoteResponse(VoteResponse { success }),
                };
                let mut responses = Vec::new();
                responses.push(response);
                assert(requests_view(responses@) =~= seq![response@]);
                (responses, RaftState::Follower(self))
            },
            Event::Tick(_) => {
                if volitile_state.tick_since_start < TICK_TILL_ELECTION {
                    (empty, RaftState::Follower(self))
                } else {
                    Candidate::call_election(volitile_state, persistent_state)
                }
            },
            Event::Insert(event) => {
                let ghost ps0 = persistent_state@;
                let mut success = persistent_state.current_term <= term;
                if success {
                    volitile_state.tick_since_start = 0;
                    persistent_state.voted_for = Some(sender);
                }
                let max_commit_index = if event.prev_log_state.length <= usize::MAX
                    - event.entries.len() {
                    event.max_commit_index()
                } else {
                    event.leader_commit
                };
                if success {
                    success = persistent_state.try_insert(event);
                }
                if success {
                    proof {
                        let n = req.event->Insert_0.prev_log_state.length as int;
                        let entries = req.event->Insert_0.entries;
                        assert(persistent_state@.log == appended(ps0.log, n, entries));
                        assert(persistent_state@.log.len() >= n + entries.len());
                    }
                    volitile_state.try_update_commit_index(
                        state_machine,
                        persistent_state,
                        max_commit_index,
                    );
                }
                let response = Request {
                    sender: persistent_state.id,
                    reciever: sender,
                    term: persistent_state.current_term,
                    event: Event::InsertResponse(InsertResponse { success }),
                };
                let mut responses = Vec::new();
                responses.push(response);
                assert(requests_view(responses@) =~= seq![response@]);
                (responses, RaftState::Follower(self))
            },
            Event::Client(event) => {
                let response = Request {
                    sender: persistent_state.id,
                    reciever: sender,
                    term: 0,
                    event: Event::ClientResponse(
                        ClientResponse::Failed {
                            id: event.id,
                            leader_id: persistent_state.voted_for,
                            data: event.data,
                        },
                    ),
                };
                let mut responses = Vec::new();
                responses.push(response);
                assert(requests_view(responses@) =~= seq![response@]);
                (responses, RaftState::Follower(self))
            },
            _ => (empty, RaftState::Follower(self)),
        }
    }
}

} // verus!
