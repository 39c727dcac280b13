use vstd::prelude::*;

use crate::raft::data::data_type::CommandType;
use crate::raft::data::id_set::{IdMap, IdSet, lemma_sorted_ids};
use crate::raft::data::persistent_state::{
    EntryView, PersistentState, PersistentStateView, has_config, insert_view, latest_configs,
    quorum_config,
};
use crate::raft::data::request::{
    ActiveConfig, ActiveConfigView, Client, ClientData, ClientDataView, ClientResponse,
    ClientResponseView, Data, DataView, Event, EventView, InsertResponse, Request, RequestView,
    active_quorum, active_servers,
};
use crate::raft::data::volitile_state::{VolitileState, replay};
use crate::raft::server::raft_cluster::Id;
use crate::raft::state::concrete::candidate::{Candidate, peers};
use crate::raft::state::concrete::follower::Follower;
use crate::raft::state::raft_state::{
    RaftState, RaftStateView, Step, quiet, requests_view, requests_wf, step_of,
};
use crate::raft::state::state::StateMachine;

verus! {

/// A leader, with, for each other server, the position in the log from which it sends
/// that server entries, and how much of that server's log it knows to match its own.
#[derive(Debug, PartialEq, Eq)]
pub struct Leader {
    pub next_index: IdMap,
    pub match_index: IdMap,
}

/// The last configuration of the log is committed and leaves the server out.
pub open spec fn demoted<T>(ps: PersistentStateView<T>, commit_index: usize) -> bool {
    let latest = latest_configs(ps.log, commit_index as int).1;
    latest.committed && !active_servers(latest.config).contains(ps.id)
}

/// Where the last configuration of the log is a committed transition, the log with the
/// new configuration appended on its own, under the current term.
pub open spec fn settled<T>(ps: PersistentStateView<T>, commit_index: usize) -> PersistentStateView<
    T,
> {
    let latest = latest_configs(ps.log, commit_index as int).1;
    if latest.committed && latest.config is Transition {
        PersistentStateView {
            log: ps.log.push(
                EntryView {
                    term: ps.current_term,
                    data: DataView::Config(ActiveConfigView::Stable(latest.config->new)),
                },
            ),
            ..ps
        }
    } else {
        ps
    }
}

/// The request that brings server `to` up to date from `next_index[to]`, one entry at a time.
pub open spec fn heartbeat<T, Output>(
    next_index: Map<Id, usize>,
    ps: PersistentStateView<T>,
    commit_index: usize,
    to: Id,
) -> RequestView<T, Output> {
    RequestView {
        sender: ps.id,
        reciever: to,
        term: ps.current_term,
        event: EventView::Insert(insert_view(ps.log, next_index[to] as int, 1, commit_index)),
    }
}

pub open spec fn heartbeats<T, Output>(
    next_index: Map<Id, usize>,
    ps: PersistentStateView<T>,
    commit_index: usize,
) -> Seq<RequestView<T, Output>> {
    peers(ps, commit_index).map_values(
        |to: Id| heartbeat::<T, Output>(next_index, ps, commit_index, to),
    )
}

/// The leader knows where to send each other server from, within its log.
pub open spec fn heartbeats_ok<T>(
    next_index: Map<Id, usize>,
    ps: PersistentStateView<T>,
    commit_index: usize,
) -> bool {
    forall|i: int|
        0 <= i < peers(ps, commit_index).len() ==> next_index.contains_key(
            #[trigger] peers(ps, commit_index)[i],
        ) && next_index[peers(ps, commit_index)[i]] <= ps.log.len()
}

/// What a leader's heartbeat gives: the requests sent, the role it keeps, and its
/// persistent state. It steps down when a committed configuration leaves it out, and
/// appends the new configuration on its own once a transition is committed.
pub open spec fn heartbeat_outcome<T, Output>(
    next_index: Map<Id, usize>,
    match_index: Map<Id, usize>,
    commit_index: usize,
    ps: PersistentStateView<T>,
) -> Option<(Seq<RequestView<T, Output>>, RaftStateView, PersistentStateView<T>)> {
    if !has_config(ps.log) {
        None
    } else if demoted(ps, commit_index) {
        Some((Seq::empty(), RaftStateView::Follower, ps))
    } else {
        let ps1 = settled(ps, commit_index);
        if heartbeats_ok(next_index, ps1, commit_index) {
            Some(
                (
                    heartbeats(next_index, ps1, commit_index),
                    RaftStateView::Leader { next_index, match_index },
                    ps1,
                ),
            )
        } else {
            None
        }
    }
}

pub open spec fn send_heartbeat_step<T, Output, SM>(
    next_index: Map<Id, usize>,
    match_index: Map<Id, usize>,
    vs: VolitileState,
    ps: PersistentStateView<T>,
    sm: SM,
) -> Option<Step<T, Output, SM>> {
    match heartbeat_outcome(next_index, match_index, vs.commit_index, ps) {
        Some((responses, raft_state, persistent)) => Some(
            Step { responses, raft_state, volitile: vs, persistent, machine: sm },
        ),
        None => None,
    }
}

/// What winning an election gives: a new term and a cleared tick count; then, unless a
/// committed configuration leaves the server out, the leadership, with every other
/// server to be sent entries from the end of the log and known to match nothing.
pub open spec fn promotion<T, Output>(vs: VolitileState, ps: PersistentStateView<T>) -> Option<
    (Seq<RequestView<T, Output>>, RaftStateView, VolitileState, PersistentStateView<T>),
> {
    if !has_config(ps.log) || ps.current_term == u32::MAX {
        None
    } else {
        let ps1 = PersistentStateView { current_term: (ps.current_term + 1) as u32, ..ps };
        let vs1 = VolitileState { tick_since_start: 0, ..vs };
        if demoted(ps1, vs.commit_index) {
            Some((Seq::empty(), RaftStateView::Follower, vs1, ps1))
        } else {
            let ps2 = settled(ps1, vs.commit_index);
            let ids = peers(ps2, vs.commit_index);
            let next_index = Map::new(|k: Id| ids.contains(k), |k: Id| ps2.log.len() as usize);
            let match_index = Map::new(|k: Id| ids.contains(k), |k: Id| 0usize);
            Some(
                (
                    heartbeats(next_index, ps2, vs.commit_index),
                    RaftStateView::Leader { next_index, match_index },
                    vs1,
                    ps2,
                ),
            )
        }
    }
}

pub open spec fn from_candidate_step<T, Output, SM>(
    vs: VolitileState,
    ps: PersistentStateView<T>,
    sm: SM,
) -> Option<Step<T, Output, SM>> {
    match promotion(vs, ps) {
        Some((responses, raft_state, volitile, persistent)) => Some(
            Step { responses, raft_state, volitile, persistent, machine: sm },
        ),
        None => None,
    }
}

/// A leader appends clients' commands to its log, starts a configuration change only
/// from a committed stable configuration (and refuses it otherwise), sends heartbeats on
/// each tick, and on each answer to an insert moves its indices for that server and
/// commits as far as a quorum of servers has matched.
pub open spec fn leader_step<T, Output, SM: StateMachine<T, Output>>(
    next_index: Map<Id, usize>,
    match_index: Map<Id, usize>,
    vs: VolitileState,
    ps: PersistentStateView<T>,
    sm: SM,
    req: RequestView<T, Output>,
) -> Option<Step<T, Output, SM>> {
    let me = RaftStateView::Leader { next_index, match_index };
    match req.event {
        EventView::Client { id, data } => match data {
            ClientDataView::Command(c) => Some(
                quiet(
                    me,
                    vs,
                    PersistentStateView {
                        log: ps.log.push(
                            EntryView { term: ps.current_term, data: DataView::Command(c) },
                        ),
                        ..ps
                    },
                    sm,
                ),
            ),
            ClientDataView::Config(new) => if !has_config(ps.log) {
                None
            } else {
                let latest = latest_configs(ps.log, vs.commit_index as int).1;
                if latest.committed && latest.config is Stable {
                    Some(
                        quiet(
                            me,
                            vs,
                            PersistentStateView {
                                log: ps.log.push(
                                    EntryView {
                                        term: ps.current_term,
                                        data: DataView::Config(
                                            ActiveConfigView::Transition {
                                                prev: latest.config->Stable_0,
                                                new,
                                            },
                                        ),
                                    },
                                ),
                                ..ps
                            },
                            sm,
                        ),
                    )
                } else {
                    Some(
                        Step {
                            responses: seq![
                                RequestView {
                                    sender: ps.id,
                                    reciever: req.sender,
                                    term: 0,
                                    event: EventView::ClientResponse(
                                        ClientResponseView::Failed {
                                            id,
                                            leader_id: Some(ps.id),
                                            data: ClientDataView::Config(new),
                                        },
                                    ),
                                },
                            ],
                            raft_state: me,
                            volitile: vs,
                            persistent: ps,
                            machine: sm,
                        },
                    )
                }
            },
        },
        EventView::Tick => send_heartbeat_step(next_index, match_index, vs, ps, sm),
        EventView::InsertResponse(InsertResponse { success }) => {
            if !next_index.contains_key(req.sender) || !has_config(ps.log) {
                None
            } else {
                let n = next_index[req.sender];
                let next1 = if success {
                    if n < ps.log.len() {
                        next_index.insert(req.sender, (n + 1) as usize)
                    } else {
                        next_index
                    }
                } else if n > 0 {
                    next_index.insert(req.sender, (n - 1) as usize)
                } else {
                    next_index
                };
                let match1 = if success {
                    match_index.insert(req.sender, next1[req.sender])
                } else {
                    match_index
                };
                let matching = Set::new(|k: Id| match1.contains_key(k) && match1[k] >= n);
                let me1 = RaftStateView::Leader { next_index: next1, match_index: match1 };
                if active_quorum(quorum_config(ps.log, vs.commit_index as int), matching)
                    && vs.commit_index < n {
                    if n <= ps.log.len() {
                        Some(
                            quiet(
                                me1,
                                VolitileState { commit_index: n, ..vs },
                                ps,
                                replay::<T, Output, SM>(sm, ps.log.subrange(vs.commit_index as int, n as int)),
                            ),
                        )
                    } else {
                        None
                    }
                } else {
                    Some(quiet(me1, vs, ps, sm))
                }
            }
        },
        _ => Some(quiet(me, vs, ps, sm)),
    }
}

impl Leader {
    pub open spec fn wf(&self) -> bool {
        self.next_index.wf() && self.match_index.wf()
    }

    /// Reads the last configuration entry: returns whether it is committed and leaves
    /// this server out; otherwise, where it is a committed transition, appends the new
    /// configuration on its own.
    pub(crate) fn settle_config<T: CommandType>(
        volitile_state: &VolitileState,
        persistent_state: &mut PersistentState<T>,
    ) -> (r: bool)
        requires
            old(persistent_state).wf(),
            has_config(old(persistent_state)@.log),
        ensures
            final(persistent_state).wf(),
            r == demoted(old(persistent_state)@, volitile_state.commit_index),
            r ==> final(persistent_state)@ == old(persistent_state)@,
            !r ==> final(persistent_state)@ == settled(
                old(persistent_state)@,
                volitile_state.commit_index,
            ),
            has_config(final(persistent_state)@.log),
    {
        let (_, latest) = persistent_state.latest_config(volitile_state.commit_index);
        if latest.committed && !latest.servers().contains(persistent_state.id) {
            return true;
        }
        if latest.committed {
            match latest.config {
                ActiveConfig::Transition { new, .. } => {
                    persistent_state.push(Data::Config(ActiveConfig::Stable(new)));
                },
                _ => {},
            }
        }
        false
    }

    /// Whether every other server has a position to be sent entries from, within the log.
    pub(crate) fn heartbeats_ready<T: CommandType>(
        &self,
        volitile_state: &VolitileState,
        persistent_state: &PersistentState<T>,
    ) -> (r: bool)
        requires
            self.next_index.wf(),
            persistent_state.wf(),
            has_config(persistent_state@.log),
        ensures
            r == heartbeats_ok(self.next_index@, persistent_state@, volitile_state.commit_index),
    {
        let ids = persistent_state.other_servers(volitile_state.commit_index);
        proof {
            lemma_sorted_ids(ids@);
        }
        let mut i: usize = 0;
        while i < ids.len()
            invariant
                i <= ids.len(),
                ids@ == peers(persistent_state@, volitile_state.commit_index),
                self.next_index.wf(),
                forall|j: int|
                    0 <= j < i ==> self.next_index@.contains_key(#[trigger] ids@[j])
                        && self.next_index@[ids@[j]] <= persistent_state.log.len(),
            decreases ids.len() - i,
        {
            match self.next_index.get(ids[i]) {
                Some(n) => {
                    if n > persistent_state.log.len() {
                        return false;
                    }
                },
                None => {
                    return false;
                },
            }
            i += 1;
        }
        true
    }

    fn append_update<T: CommandType, Output>(
        &self,
        volitile_state: &VolitileState,
        persistent_state: &PersistentState<T>,
        server: Id,
    ) -> (r: Request<T, Output>)
        requires
            self.next_index.wf(),
            persistent_state.wf(),
            self.next_index@.contains_key(server),
            self.next_index@[server] <= persistent_state.log.len(),
        ensures
            r.wf(),
            r@ == heartbeat::<T, Output>(
                self.next_index@,
                persistent_state@,
                volitile_state.commit_index,
                server,
            ),
    {
        let next_index = self.next_index.get(server).unwrap();
        Request {
            sender: persistent_state.id,
            reciever: server,
            term: persistent_state.current_term,
            event: persistent_state.insert(next_index, 1, volitile_state.get_commit_index()),
        }
    }

    /// One request to each other server, from where that server is to be sent entries.
    fn heartbeats<T: CommandType, Output>(
        &self,
        volitile_state: &VolitileState,
        persistent_state: &PersistentState<T>,
    ) -> (r: Vec<Request<T, Output>>)
        requires
            self.next_index.wf(),
            persistent_state.wf(),
            has_config(persistent_state@.log),
            heartbeats_ok(self.next_index@, persistent_state@, volitile_state.commit_index),
        ensures
            requests_wf(r@),
            requests_view(r@) == heartbeats::<T, Output>(
                self.next_index@,
                persistent_state@,
                volitile_state.commit_index,
            ),
    {
        let ids = persistent_state.other_servers(volitile_state.commit_index);
        proof {
            lemma_sorted_ids(ids@);
        }
        let mut r: Vec<Request<T, Output>> = Vec::new();
        let mut i: usize = 0;
        while i < ids.len()
            invariant
                i <= ids.len(),
                ids@ == peers(persistent_state@, volitile_state.commit_index),
                self.next_index.wf(),
                persistent_state.wf(),
                heartbeats_ok(self.next_index@, persistent_state@, volitile_state.commit_index),
                r.len() == i,
                forall|j: int|
                    0 <= j < i ==> #[trigger] r@[j]@ == heartbeat::<T, Output>(
                        self.next_index@,
                        persistent_state@,
                        volitile_state.commit_index,
                        ids@[j],
                    ),
                forall|j: int| 0 <= j < i ==> #[trigger] r@[j].wf(),
            decreases ids.len() - i,
        {
            assert(self.next_index@.contains_key(ids@[i as int]));
            r.push(self.append_update(volitile_state, persistent_state, ids[i]));
            i += 1;
        }
        assert(requests_view(r@) =~= heartbeats::<T, Output>(
            self.next_index@,
            persistent_state@,
            volitile_state.commit_index,
        ));
        r
    }

    /// Keeps followers up to date, steps down where a committed configuration leaves
    /// this server out, and completes a committed transition.
    pub fn send_heartbeat<T: CommandType, Output>(
        self,
        volitile_state: &mut VolitileState,
        persistent_state: &mut PersistentState<T>,
    ) -> (r: (Vec<Request<T, Output>>, RaftState))
        requires
            self.wf(),
            old(persistent_state).wf(),
            heartbeat_outcome::<T, Output>(
                self.next_index@,
                self.match_index@,
                old(volitile_state).commit_index,
                old(persistent_state)@,
            ) is Some,
        ensures
            final(persistent_state).wf(),
            r.1.wf(),
            requests_wf(r.0@),
            *final(volitile_state) == *old(volitile_state),
            heartbeat_outcome::<T, Output>(
                self.next_index@,
                self.match_index@,
                old(volitile_state).commit_index,
                old(persistent_state)@,
            ) == Some((requests_view(r.0@), r.1@, final(persistent_state)@)),
    {
        if Leader::settle_config(volitile_state, persistent_state) {
            let empty: Vec<Request<T, Output>> = Vec::new();
            assert(requests_view(empty@) =~= Seq::empty());
            return (empty, RaftState::Follower(Follower));
        }
        let r = self.heartbeats(volitile_state, persistent_state);
        (r, RaftState::Leader(self))
    }

    /// Takes the leadership after winning an election.
    pub fn from_candidate<T: CommandType, Output>(
        _candidate: Candidate,
        volitile_state: &mut VolitileState,
        persistent_state: &mut PersistentState<T>,
    ) -> (r: (Vec<Request<T, Output>>, RaftState))
        requires
            old(persistent_state).wf(),
            promotion::<T, Output>(*old(volitile_state), old(persistent_state)@) is Some,
        ensures
            final(persistent_state).wf(),
            r.1.wf(),
            requests_wf(r.0@),
            promotion::<T, Output>(*old(volitile_state), old(persistent_state)@) == Some(
                (requests_view(r.0@), r.1@, *final(volitile_state), final(persistent_state)@),
            ),
    {
        persistent_state.current_term = persistent_state.current_term + 1;
        volitile_state.tick_since_start = 0;
        if Leader::settle_config(volitile_state, persistent_state) {
            let empty: Vec<Request<T, Output>> = Vec::new();
            assert(requests_view(empty@) =~= Seq::empty());
            return (empty, RaftState::Follower(Follower));
        }
        let ids = persistent_state.other_servers(volitile_state.commit_index);
        proof {
            lemma_sorted_ids(ids@);
        }
        let leader = Leader {
            next_index: IdMap::from_keys(&ids, persistent_state.log.len()),
            match_index: IdMap::from_keys(&ids, 0),
        };
        proof {
            let ps2 = persistent_state@;
            let pids = peers(ps2, volitile_state.commit_index);
            assert(ids@ == pids);
            assert(leader.next_index@ =~= Map::new(
                |k: Id| pids.contains(k),
                |k: Id| ps2.log.len() as usize,
            ));
            assert(leader.match_index@ =~= Map::new(|k: Id| pids.contains(k), |k: Id| 0usize));
            assert forall|i: int| 0 <= i < pids.len() implies leader.next_index@.contains_key(
                #[trigger] pids[i],
            ) && leader.next_index@[pids[i]] <= ps2.log.len() by {
                assert(pids.contains(pids[i]));
            }
        }
        let r = leader.heartbeats(volitile_state, persistent_state);
        (r, RaftState::Leader(leader))
    }

    pub fn handle<T: CommandType, Output, SM: StateMachine<T, Output>>(
        self,
        volitile_state: &mut VolitileState,
        persistent_state: &mut PersistentState<T>,
        state_machine: &mut SM,
        request: Request<T, Output>,
    ) -> (r: (Vec<Request<T, Output>>, RaftState))
        requires
            self.wf(),
            old(persistent_state).wf(),
            request.wf(),
            leader_step(
                self.next_index@,
                self.match_index@,
                *old(volitile_state),
                old(persistent_state)@,
                *old(state_machine),
                request@,
            ) is Some,
        ensures
            final(persistent_state).wf(),
            r.1.wf(),
            requests_wf(r.0@),
            step_of(r, *final(volitile_state), final(persistent_state)@, *final(state_machine))
                == leader_step(
                self.next_index@,
                self.match_index@,
                *old(volitile_state),
                old(persistent_state)@,
                *old(state_machine),
                request@,
            )->Some_0,
    {
        let mut me = self;
        let sender = request.sender;
        let empty: Vec<Request<T, Output>> = Vec::new();
        assert(requests_view(empty@) =~= Seq::empty());
        match request.event {
            Event::Client(Client { id, data }) => {
                match data {
                    ClientData::Command(c) => {
                        persistent_state.push(Data::Command(c));
                        (empty, RaftState::Leader(me))
                    },
                    ClientData::Config(new) => {
                        let (_, latest) = persistent_state.latest_config(
                            volitile_state.commit_index,
                        );
                        let stable_committed = latest.committed && match &latest.config {
                            ActiveConfig::Stable(_) => true,
                            _ => false,
                        };
                        if stable_committed {
                            match latest.config {
                                ActiveConfig::Stable(prev) => {
                                    persistent_state.push(
                                        Data::Config(ActiveConfig::Transition { prev, new }),
                                    );
                                },
                                _ => {},
                            }
                            (empty, RaftState::Leader(me))
                        } else {
                            let response = Request {
                                sender: persistent_state.id,
                                reciever: sender,
                                term: 0,
                                event: Event::ClientResponse(
                                    ClientResponse::Failed {
                                        id,
                                        leader_id: Some(persistent_state.id),
                                        data: ClientData::Config(new),
                                    },
                                ),
                            };
                            let mut responses = Vec::new();
                            responses.push(response);
                            assert(requests_view(responses@) =~= seq![response@]);
                            (responses, RaftState::Leader(me))
                        }
                    },
                }
            },
            Event::Tick(_) => me.send_heartbeat(volitile_state, persistent_state),
            Event::InsertResponse(InsertResponse { success }) => {
                let next_index = me.next_index.get(sender).unwrap();
                if success {
                    if next_index < persistent_state.log.len() {
                        me.next_index.insert(sender, next_index + 1);
                    }
                    let now = me.next_index.get(sender).unwrap();
                    me.match_index.insert(sender, now);
                } else if next_index > 0 {
                    me.next_index.insert(sender, next_index - 1);
                }
                let matching_servers = me.match_index.keys_at_least(next_index);
                if persistent_state.has_quorum(volitile_state.commit_index, &matching_servers) {
                    volitile_state.try_update_commit_index(
                        state_machine,
                        persistent_state,
                        next_index,
                    );
                }
                (empty, RaftState::Leader(me))
            },
            _ => (empty, RaftState::Leader(me)),
        }
    }
}

} // verus!
