use vstd::prelude::*;

use crate::raft::data::data_type::CommandType;
use crate::raft::data::id_set::{IdSet, lemma_sorted_ids, sorted_ids};
use crate::raft::data::persistent_state::{
    PersistentState, PersistentStateView, has_config, log_state_at_spec, quorum_config, server_set,
};
use crate::raft::data::request::{
    Event, EventView, Request, RequestView, Vote, VoteResponse, active_quorum,
};
use crate::raft::data::volitile_state::VolitileState;
use crate::raft::server::raft_cluster::Id;
use crate::raft::state::concrete::follower::Follower;
use crate::raft::state::concrete::leader::{Leader, from_candidate_step};
use crate::raft::state::raft_state::{
    RaftState, RaftStateView, Step, quiet, requests_view, requests_wf, step_of,
};
use crate::raft::state::state::StateMachine;

verus! {

/// A server that runs for leader, with the servers that voted for it.
#[derive(Debug, PartialEq, Eq, Default)]
pub struct Candidate {
    pub votes: IdSet,
}

/// How many clock ticks a candidate waits for votes before it starts a new election.
pub const TICK_TILL_NEW_ELECTION: u32 = 10;

/// The servers a server talks to, itself left out, by increasing id.
pub open spec fn peers<T>(ps: PersistentStateView<T>, commit_index: usize) -> Seq<Id> {
    sorted_ids(server_set(ps.log, commit_index as int).remove(ps.id))
}

/// The request for `to`'s vote in the server's current term.
pub open spec fn vote_request<T, Output>(ps: PersistentStateView<T>, to: Id) -> RequestView<
    T,
    Output,
> {
    RequestView {
        sender: ps.id,
        reciever: to,
        term: ps.current_term,
        event: EventView::Vote(
            Vote { log_state: log_state_at_spec(ps.log, ps.log.len() as int)->Some_0 },
        ),
    }
}

pub open spec fn vote_requests<T, Output>(ps: PersistentStateView<T>, commit_index: usize) -> Seq<
    RequestView<T, Output>,
> {
    peers(ps, commit_index).map_values(|to: Id| vote_request::<T, Output>(ps, to))
}

/// The persistent state of a server that starts an election: a new term, and its
/// vote for itself.
pub open spec fn elected<T>(ps: PersistentStateView<T>) -> PersistentStateView<T> {
    PersistentStateView { current_term: (ps.current_term + 1) as u32, voted_for: Some(ps.id), ..ps }
}

/// Starting an election: a new term, a vote for itself, the tick count cleared, and a
/// request for votes to every other server.
pub open spec fn call_election_step<T, Output, SM>(
    vs: VolitileState,
    ps: PersistentStateView<T>,
    sm: SM,
) -> Option<Step<T, Output, SM>> {
    if !has_config(ps.log) || ps.current_term == u32::MAX {
        None
    } else {
        let ps1 = elected(ps);
        Some(
            Step {
                responses: vote_requests(ps1, vs.commit_index),
                raft_state: RaftStateView::Candidate { votes: set![ps.id] },
                volitile: VolitileState { tick_since_start: 0, ..vs },
                persistent: ps1,
                machine: sm,
            },
        )
    }
}

/// A candidate steps down before a leader of its term or a later one, asks again for
/// votes on each tick until it is time for a new election, and becomes leader once
/// its votes make a quorum.
pub open spec fn candidate_step<T, Output, SM>(
    votes: Set<Id>,
    vs: VolitileState,
    ps: PersistentStateView<T>,
    sm: SM,
    req: RequestView<T, Output>,
) -> Option<Step<T, Output, SM>> {
    let me = RaftStateView::Candidate { votes };
    match req.event {
        EventView::Insert(_) => if req.term >= ps.current_term {
            Some(
                quiet(
                    RaftStateView::Follower,
                    VolitileState { tick_since_start: 0, ..vs },
                    PersistentStateView { voted_for: Some(req.sender), ..ps },
                    sm,
                ),
            )
        } else {
            Some(quiet(me, vs, ps, sm))
        },
        EventView::Tick => if vs.tick_since_start < TICK_TILL_NEW_ELECTION {
            if has_config(ps.log) {
                Some(
                    Step {
                        responses: vote_requests(ps, vs.commit_index),
                        raft_state: me,
                        volitile: vs,
                        persistent: ps,
                        machine: sm,
                    },
                )
            } else {
                None
            }
        } else {
            call_election_step(vs, ps, sm)
        },
        EventView::VoteResponse(VoteResponse { success }) => {
            let votes1 = if success {
                votes.insert(req.sender)
            } else {
                votes
            };
            if !has_config(ps.log) {
                None
            } else if active_quorum(quorum_config(ps.log, vs.commit_index as int), votes1) {
                from_candidate_step(vs, ps, sm)
            } else {
                Some(quiet(RaftStateView::Candidate { votes: votes1 }, vs, ps, sm))
            }
        },
        _ => Some(quiet(me, vs, ps, sm)),
    }
}

impl Candidate {
    pub fn handle<T: CommandType, Output, SM: StateMachine<T, Output>>(
        self,
        volitile_state: &mut VolitileState,
        persistent_state: &mut PersistentState<T>,
        state_machine: &mut SM,
        request: Request<T, Output>,
    ) -> (r: (Vec<Request<T, Output>>, RaftState))
        requires
            self.votes.wf(),
            old(persistent_state).wf(),
            request.wf(),
            candidate_step(
                self.votes@,
                *old(volitile_state),
                old(persistent_state)@,
                *old(state_machine),
                request@,
            ) is Some,
        ensures
            final(persistent_state).wf(),
            r.1.wf(),
            requests_wf(r.0@),
            step_of(r, *final(volitile_state), final(persistent_state)@, *final(state_machine))
                == candidate_step(
                self.votes@,
                *old(volitile_state),
                old(persistent_state)@,
                *old(state_machine),
                request@,
            )->Some_0,
    {
        let mut me = self;
        let empty: Vec<Request<T, Output>> = Vec::new();
        assert(requests_view(empty@) =~= Seq::empty());
        let sender = request.sender;
        let term = request.term;
        match request.event {
            Event::Insert(_) => {
                if term >= persistent_state.current_term {
                    volitile_state.tick_since_start = 0;
                    persistent_state.voted_for = Some(sender);
                    (empty, RaftState::Follower(Follower))
                } else {
                    (empty, RaftState::Candidate(me))
                }
            },
            Event::Tick(_) => {
                if volitile_state.tick_since_start < TICK_TILL_NEW_ELECTION {
                    (
                        Candidate::request_votes(persistent_state, volitile_state),
                        RaftState::Candidate(me),
                    )
                } else {
                    Candidate::call_election(volitile_state, persistent_state)
                }
            },
            Event::VoteResponse(VoteResponse { success }) => {
                if success {
                    me.votes.insert(sender);
                }
                if persistent_state.has_quorum(volitile_state.commit_index, &me.votes) {
                    return Leader::from_candidate(me, volitile_state, persistent_state);
                }
                (empty, RaftState::Candidate(me))
            },
            _ => (empty, RaftState::Candidate(me)),
        }
    }

    /// Asks every other server for its vote in the current term.
    fn request_votes<T: CommandType, Output>(
        persistent_state: &PersistentState<T>,
        volitile_state: &VolitileState,
    ) -> (r: Vec<Request<T, Output>>)
        requires
            persistent_state.wf(),
            has_config(persistent_state@.log),
        ensures
            requests_wf(r@),
            requests_view(r@) == vote_requests::<T, Output>(
                persistent_state@,
                volitile_state.commit_index,
            ),
    {
        let ids = persistent_state.other_servers(volitile_state.commit_index);
        proof {
            lemma_sorted_ids(ids@);
        }
        let log_state = persistent_state.log_state();
        let mut r: Vec<Request<T, Output>> = Vec::new();
        let mut i: usize = 0;
        while i < ids.len()
            invariant
                i <= ids.len(),
                r.len() == i,
                Some(log_state) == log_state_at_spec(
                    persistent_state@.log,
                    persistent_state.log.len() as int,
                ),
                forall|j: int|
                    0 <= j < i ==> #[trigger] r@[j]@ == vote_request::<T, Output>(
                        persistent_state@,
                        ids@[j],
                    ),
                forall|j: int| 0 <= j < i ==> #[trigger] r@[j].wf(),
            decreases ids.len() - i,
        {
            r.push(
                Request {
                    sender: persistent_state.id,
                    reciever: ids[i],
                    term: persistent_state.current_term,
                    event: Event::Vote(Vote { log_state }),
                },
            );
            i += 1;
        }
        assert(requests_view(r@) =~= vote_requests::<T, Output>(
            persistent_state@,
            volitile_state.commit_index,
        ));
        r
    }

    /// Starts an election: a new term, a vote for itself, and requests for votes.
    pub fn call_election<T: CommandType, Output>(
        volitile_state: &mut VolitileState,
        persistent_state: &mut PersistentState<T>,
    ) -> (r: (Vec<Request<T, Output>>, RaftState))
        requires
            old(persistent_state).wf(),
            has_config(old(persistent_state)@.log),
            old(persistent_state).current_term < u32::MAX,
        ensures
            final(persistent_state).wf(),
            r.1.wf(),
            requests_wf(r.0@),
            final(persistent_state)@ == elected(old(persistent_state)@),
            *final(volitile_state) == (VolitileState { tick_since_start: 0, ..*old(volitile_state) }),
            requests_view(r.0@) == vote_requests::<T, Output>(
                final(persistent_state)@,
                old(volitile_state).commit_index,
            ),
            r.1@ == (RaftStateView::Candidate { votes: set![old(persistent_state).id] }),
    {
        persistent_state.current_term = persistent_state.current_term + 1;
        persistent_state.voted_for = Some(persistent_state.id);
        volitile_state.tick_since_start = 0;
        let requests = Candidate::request_votes(persistent_state, volitile_state);
        let mut votes = IdSet::new();
        votes.insert(persistent_state.id);
        assert(votes@ =~= set![persistent_state.id]);
        (requests, RaftState::Candidate(Candidate { votes }))
    }
}

} // verus!
