use vstd::prelude::*;

use crate::raft::data::data_type::CommandType;
use crate::raft::data::persistent_state::{
    Config, Entry, EntryView, PersistentState, PersistentStateView,
};
use crate::raft::data::request::{
    ActiveConfigView, ClientData, DataView, Event, InsertResponse, Request, RequestView,
    VoteResponse,
};
use crate::raft::data::volitile_state::VolitileState;
use crate::raft::server::raft_cluster::Id;
use crate::raft::state::concrete::candidate::TICK_TILL_NEW_ELECTION;
use crate::raft::state::concrete::follower::{Follower, TICK_TILL_ELECTION};
use crate::raft::state::concrete::leader::Leader;
use crate::raft::state::raft_state::{
    RaftState, RaftStateView, handler_step, requests_view, requests_wf,
};

verus! {

/// A deterministic state machine that the replicated log drives: commands of type
/// `In` change it, and it can be asked for a value of type `Out`.
pub trait StateMachine<In, Out>: Sized {
    /// The state of a fresh machine.
    spec fn initial() -> Self;

    /// The state after `command` is applied.
    spec fn applied(self, command: In) -> Self;

    /// The value the machine gives in this state.
    spec fn output(self) -> Out;

    fn fresh() -> (r: Self)
        ensures
            r == Self::initial(),
    ;

    fn apply(&mut self, command: In)
        ensures
            *final(self) == old(self).applied(command),
    ;

    fn get(&self) -> (r: Out)
        ensures
            r == self.output(),
    ;
}

/// Everything a server holds.
#[derive(Debug, PartialEq, Eq)]
pub struct State<T, SM> {
    pub state_machine: SM,
    pub persistent_state: PersistentState<T>,
    pub raft_state: RaftState,
    pub volitile_state: VolitileState,
}

pub struct StateView<T, SM> {
    pub state_machine: SM,
    pub persistent_state: PersistentStateView<T>,
    pub raft_state: RaftStateView,
    pub volitile_state: VolitileState,
}

impl<T, SM> View for State<T, SM> {
    type V = StateView<T, SM>;

    open spec fn view(&self) -> StateView<T, SM> {
        StateView {
            state_machine: self.state_machine,
            persistent_state: self.persistent_state@,
            raft_state: self.raft_state@,
            volitile_state: self.volitile_state,
        }
    }
}

/// What one request does to a server: a request of a later term first makes any
/// server that is up a follower in that term, with no vote given; then the server
/// handles the request in its role. `None` where the server cannot handle it.
pub open spec fn state_step<T, Output, SM: StateMachine<T, Output>>(
    s: StateView<T, SM>,
    req: RequestView<T, Output>,
) -> Option<(Seq<RequestView<T, Output>>, StateView<T, SM>)> {
    let newer = !(s.raft_state is Offline) && req.term > s.persistent_state.current_term;
    let ps1 = if newer {
        PersistentStateView { current_term: req.term, voted_for: None, ..s.persistent_state }
    } else {
        s.persistent_state
    };
    let rs1 = if newer {
        RaftStateView::Follower
    } else {
        s.raft_state
    };
    match handler_step(rs1, s.volitile_state, ps1, s.state_machine, req) {
        Some(step) => Some(
            (
                step.responses,
                StateView {
                    state_machine: step.machine,
                    persistent_state: step.persistent,
                    raft_state: step.raft_state,
                    volitile_state: step.volitile,
                },
            ),
        ),
        None => None,
    }
}

impl<T: CommandType, SM> State<T, SM> {
    pub open spec fn wf(&self) -> bool {
        self.persistent_state.wf() && self.raft_state.wf()
    }

    /// A server that has just come up: offline, in term 0, with a log that holds only
    /// the initial configuration, committed.
    pub fn new<Output>(id: Id, config: Config) -> (r: Self) where SM: StateMachine<T, Output>
        requires
            config.wf(),
        ensures
            r.wf(),
            r@ == (StateView {
                state_machine: SM::initial(),
                persistent_state: PersistentStateView {
                    id,
                    current_term: 0,
                    voted_for: None,
                    log: seq![
                        EntryView::<T> {
                            term: 0,
                            data: DataView::Config(ActiveConfigView::Stable(config@)),
                        },
                    ],
                },
                raft_state: RaftStateView::Offline,
                volitile_state: VolitileState { commit_index: 1, tick_since_start: 0 },
            }),
    {
        let mut log = Vec::new();
        log.push(Entry::config(0, config));
        let r = State {
            state_machine: SM::fresh(),
            volitile_state: VolitileState { commit_index: 1, tick_since_start: 0 },
            persistent_state: PersistentState { id, current_term: 0, voted_for: None, log },
            raft_state: RaftState::default(),
        };
        assert(r@.persistent_state.log =~= seq![
            EntryView::<T> { term: 0, data: DataView::Config(ActiveConfigView::Stable(config@)) },
        ]);
        r
    }

    /// Whether the server can handle `request`: false exactly where handling it would
    /// fail (a log without configuration where one is needed, a term or tick count at
    /// its limit, a leader without a position for a server it must serve, ...).
    pub fn can_handle<Output>(&self, request: &Request<T, Output>) -> (r: bool) where
        SM: StateMachine<T, Output>,
        requires
            self.wf(),
            request.wf(),
        ensures
            r == state_step(self@, request@) is Some,
    {
        let ps = &self.persistent_state;
        let vs = self.volitile_state;
        let offline = match self.raft_state {
            RaftState::Offline(_) => true,
            _ => false,
        };
        let newer = !offline && request.term > ps.current_term;
        let term1 = if newer {
            request.term
        } else {
            ps.current_term
        };
        let hc = ps.has_config();
        match &request.event {
            Event::Crash(_) => true,
            Event::Tick(_) => {
                if vs.tick_since_start == u32::MAX {
                    return false;
                }
                let tick1 = vs.tick_since_start + 1;
                if newer {
                    return tick1 < TICK_TILL_ELECTION || (hc && term1 < u32::MAX);
                }
                match &self.raft_state {
                    RaftState::Offline(_) => true,
                    RaftState::Follower(_) => tick1 < TICK_TILL_ELECTION || (hc && term1
                        < u32::MAX),
                    RaftState::Candidate(_) => {
                        if tick1 < TICK_TILL_NEW_ELECTION {
                            hc
                        } else {
                            hc && term1 < u32::MAX
                        }
                    },
                    RaftState::Leader(leader) => {
                        if !hc {
                            return false;
                        }
                        let vs1 = VolitileState { tick_since_start: tick1, ..vs };
                        let mut settled = ps.clone();
                        if Leader::settle_config(&vs1, &mut settled) {
                            true
                        } else {
                            leader.heartbeats_ready(&vs1, &settled)
                        }
                    },
                }
            },
            Event::VoteResponse(VoteResponse { success }) => {
                if newer {
                    return true;
                }
                match &self.raft_state {
                    RaftState::Candidate(candidate) => {
                        if !hc {
                            return false;
                        }
                        let mut votes = candidate.votes.clone();
                        if *success {
                            votes.insert(request.sender);
                        }
                        if ps.has_quorum(vs.commit_index, &votes) {
                            term1 < u32::MAX
                        } else {
                            true
                        }
                    },
                    _ => true,
                }
            },
            Event::InsertResponse(InsertResponse { success }) => {
                if newer {
                    return true;
                }
                match &self.raft_state {
                    RaftState::Leader(leader) => {
                        let sender = request.sender;
                        match leader.next_index.get(sender) {
                            None => false,
                            Some(n) => {
                                if !hc {
                                    return false;
                                }
                                let mut next = leader.next_index.clone();
                                let mut matched = leader.match_index.clone();
                                if *success {
                                    if n < ps.log.len() {
                                        next.insert(sender, n + 1);
                                    }
                                    let now = next.get(sender).unwrap();
                                    matched.insert(sender, now);
                                } else if n > 0 {
                                    next.insert(sender, n - 1);
                                }
                                let matching = matched.keys_at_least(n);
                                if ps.has_quorum(vs.commit_index, &matching) && vs.commit_index
                                    < n {
                                    n <= ps.log.len()
                                } else {
                                    true
                                }
                            },
                        }
                    },
                    _ => true,
                }
            },
            Event::Client(client) => {
                if newer {
                    return true;
                }
                match &self.raft_state {
                    RaftState::Leader(_) => match &client.data {
                        ClientData::Command(_) => true,
                        ClientData::Config(_) => hc,
                    },
                    _ => true,
                }
            },
            _ => true,
        }
    }

    /// Handles one request: moves to a later term where the request carries one, then
    /// lets the server's role handle it.
    pub fn handle_request<Output>(self, request: Request<T, Output>) -> (r: (
        Vec<Request<T, Output>>,
        Self,
    )) where SM: StateMachine<T, Output>
        requires
            self.wf(),
            request.wf(),
            state_step(self@, request@) is Some,
        ensures
            r.1.wf(),
            requests_wf(r.0@),
            state_step(self@, request@) == Some((requests_view(r.0@), r.1@)),
    {
        let State { mut state_machine, mut persistent_state, mut raft_state, mut volitile_state } =
            self;
        let offline = match raft_state {
            RaftState::Offline(_) => true,
            _ => false,
        };
        if !offline {
            if request.term > persistent_state.current_term {
                persistent_state.current_term = request.term;
                persistent_state.voted_for = None;
                raft_state = RaftState::Follower(Follower);
            }
        }
        let (responses, raft_state) = raft_state.handle_request(
            request,
            &mut volitile_state,
            &mut persistent_state,
            &mut state_machine,
        );
        (responses, State { state_machine, persistent_state, raft_state, volitile_state })
    }
}

} // verus!
