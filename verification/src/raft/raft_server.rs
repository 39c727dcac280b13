use vstd::prelude::*;

use crate::raft::data::id_set::{IdMap, IdSet};
use crate::raft::log_entry::LogEntry;
use crate::raft::raft_request::{RaftRequest, RequestType};
use crate::raft::server::raft_cluster::Id;

verus! {

#[verifier::external_type_specification]
#[verifier::external_body]
pub struct ExSystemTime(std::time::SystemTime);

/// Reads the clock, with `std::time::SystemTime::now`; nothing is known of the time it gives.
#[verifier::external_body]
fn now() -> std::time::SystemTime {
    std::time::SystemTime::now()
}

/// The role of a server, with what it keeps in that role.
#[derive(PartialEq, Debug)]
pub enum RaftState {
    Offline,
    Follower { volitile: VolitileState },
    Candidate { volitile: VolitileState, votes: IdSet },
    Leader { leader_volitile: VolitileLeaderState, volitile: VolitileState },
}

pub enum RoleView {
    Offline,
    Follower { volitile: VolitileState },
    Candidate { volitile: VolitileState, votes: Set<Id> },
    Leader { next_index: Map<Id, usize>, match_index: Map<Id, usize>, volitile: VolitileState },
}

impl View for RaftState {
    type V = RoleView;

    open spec fn view(&self) -> RoleView {
        match self {
            RaftState::Offline => RoleView::Offline,
            RaftState::Follower { volitile } => RoleView::Follower { volitile: *volitile },
            RaftState::Candidate { volitile, votes } => RoleView::Candidate {
                volitile: *volitile,
                votes: votes@,
            },
            RaftState::Leader { leader_volitile, volitile } => RoleView::Leader {
                next_index: leader_volitile.next_index@,
                match_index: leader_volitile.match_index@,
                volitile: *volitile,
            },
        }
    }
}

impl RaftState {
    pub open spec fn wf(&self) -> bool {
        match self {
            RaftState::Candidate { votes, .. } => votes.wf(),
            RaftState::Leader { leader_volitile, .. } => leader_volitile.next_index.wf()
                && leader_volitile.match_index.wf(),
            _ => true,
        }
    }
}

/// How far a server knows the log to be committed.
#[derive(PartialEq, Default, Debug, Copy, Clone, Eq, Structural)]
pub struct VolitileState {
    pub commit_index: usize,
}

/// The map that sends each of `ids` to `value`.
pub open spec fn constant_map(ids: Seq<u32>, value: usize) -> Map<Id, usize> {
    Map::new(|k: Id| ids.contains(k.id), |k: Id| value)
}

impl VolitileState {
    /// A leader's first view of its followers: each is to be sent entries from just
    /// past the commit index, and is known to match nothing.
    pub fn leader_start_state(&self, followers: Vec<u32>) -> (r: VolitileLeaderState)
        requires
            followers.len() > 0 ==> self.commit_index < usize::MAX,
        ensures
            r.next_index.wf(),
            r.match_index.wf(),
            r.next_index@ == constant_map(followers@, (self.commit_index + 1) as usize),
            r.match_index@ == constant_map(followers@, 0),
    {
        let mut next_index = IdMap { entries: Vec::new() };
        let mut match_index = IdMap { entries: Vec::new() };
        proof {
            assert(next_index@ =~= constant_map(followers@.take(0), (self.commit_index + 1) as usize));
            assert(match_index@ =~= constant_map(followers@.take(0), 0));
        }
        let mut i: usize = 0;
        while i < followers.len()
            invariant
                i <= followers.len(),
                followers.len() > 0 ==> self.commit_index < usize::MAX,
                next_index.wf(),
                match_index.wf(),
                next_index@ == constant_map(followers@.take(i as int), (self.commit_index + 1) as usize),
                match_index@ == constant_map(followers@.take(i as int), 0),
            decreases followers.len() - i,
        {
            let id = Id::new(followers[i]);
            next_index.insert(id, self.commit_index + 1);
            match_index.insert(id, 0);
            i += 1;
            proof {
                assert(followers@.take(i as int) =~= followers@.take(i - 1).push(id.id));
                assert forall|k: Id| #[trigger] followers@.take(i as int).contains(k.id) <==> (
                followers@.take(i - 1).contains(k.id) || k == id) by {
                    if followers@.take(i as int).contains(k.id) && !followers@.take(i - 1).contains(
                        k.id,
                    ) {
                        let j = choose|j: int|
                            0 <= j < i && #[trigger] followers@.take(i as int)[j] == k.id;
                        if j < i - 1 {
                            assert(followers@.take(i - 1)[j] == k.id);
                        }
                        assert(k.id == id.id);
                    }
                    if k == id {
                        assert(followers@.take(i as int)[i - 1] == k.id);
                    }
                    if followers@.take(i - 1).contains(k.id) {
                        let j = choose|j: int|
                            0 <= j < i - 1 && #[trigger] followers@.take(i - 1)[j] == k.id;
                        assert(followers@.take(i as int)[j] == k.id);
                    }
                }
                assert(next_index@ =~= constant_map(followers@.take(i as int), (self.commit_index + 1) as usize));
                assert(match_index@ =~= constant_map(followers@.take(i as int), 0));
            }
        }
        assert(followers@.take(i as int) =~= followers@);
        VolitileLeaderState { next_index, match_index }
    }
}

/// For each follower, the position in the log from which the leader sends it entries,
/// and how much of its log the leader knows to match.
#[derive(PartialEq, Default, Debug)]
pub struct VolitileLeaderState {
    pub next_index: IdMap,
    pub match_index: IdMap,
}

/// What a server keeps across crashes: its term, its vote and its log.
#[derive(Default, Debug, PartialEq)]
pub struct PersistentState<DataType> {
    pub current_term: u32,
    pub voted_for: Option<u32>,
    pub log: Vec<LogEntry<DataType>>,
}

impl<DataType: Copy> PersistentState<DataType> {
    pub fn volitile_start_state(&self) -> (r: VolitileState)
        ensures
            r == (VolitileState { commit_index: 0 }),
    {
        VolitileState { commit_index: 0 }
    }

    pub fn log_length(&self) -> (r: usize)
        ensures
            r == self.log.len(),
    {
        self.log.len()
    }

    /// The term of the entry before position `index` (0 at the start of the log).
    pub fn prev_term(&self, index: usize) -> (r: u32)
        requires
            index <= self.log.len(),
        ensures
            r == prev_term_of(self.log@, index as int),
    {
        if index == 0 {
            0
        } else {
            self.log[index - 1].term
        }
    }

    pub fn term(&self) -> (r: u32)
        ensures
            r == self.current_term,
    {
        self.current_term
    }

    /// The entry at position `index`; none just past the end of the log.
    pub fn entry(&self, index: usize) -> (r: Option<LogEntry<DataType>>)
        requires
            index <= self.log.len(),
        ensures
            r == (if index == self.log.len() {
                None
            } else {
                Some(self.log@[index as int])
            }),
    {
        if index == self.log.len() {
            None
        } else {
            Some(self.log[index])
        }
    }
}

/// The term of the entry before position `index` of `log`, 0 at its start.
pub open spec fn prev_term_of<D>(log: Seq<LogEntry<D>>, index: int) -> u32 {
    if index == 0 {
        0
    } else {
        log[index - 1].term
    }
}

/// Where a server's answer goes: to one server, or to all.
#[derive(Clone, Copy, Debug, PartialEq, Eq)]
pub enum RaftResponse<DataType> {
    Target { id: u32, response: RaftRequest<DataType> },
    Broadcast { response: RaftRequest<DataType> },
}

/// How long, in nanoseconds, a follower waits for a leader before it starts an election.
pub const HEARTBEAT_LENGTH_NANOS: u128 = 2_000_000_000;

/// Whether a server that last heard from a leader `elapsed_nanos` ago starts an election.
pub fn election_due(elapsed_nanos: u128) -> (r: bool)
    ensures
        r == (elapsed_nanos > HEARTBEAT_LENGTH_NANOS),
{
    elapsed_nanos > HEARTBEAT_LENGTH_NANOS
}

/// A server's state: its role, when it last heard from a leader, and what it keeps
/// across crashes.
#[derive(Debug)]
pub struct ServerState<DataType> {
    pub state: RaftState,
    pub last_heartbeat: std::time::SystemTime,
    pub persistent_state: PersistentState<DataType>,
}

/// A server's state, its clock left out.
pub struct ServerView<D> {
    pub state: RoleView,
    pub current_term: u32,
    pub voted_for: Option<u32>,
    pub log: Seq<LogEntry<D>>,
}

impl<D> View for ServerState<D> {
    type V = ServerView<D>;

    open spec fn view(&self) -> ServerView<D> {
        ServerView {
            state: self.state@,
            current_term: self.persistent_state.current_term,
            voted_for: self.persistent_state.voted_for,
            log: self.persistent_state.log@,
        }
    }
}

/// A leader's heartbeat: nothing to append, the length of its log, the term of its
/// last entry, and its commit index.
pub open spec fn heartbeat_of<D>(log: Seq<LogEntry<D>>, volitile: VolitileState) -> RequestType<D> {
    RequestType::Append {
        prev_length: log.len() as usize,
        prev_term: prev_term_of(log, log.len() as int),
        commit_index: volitile.commit_index,
        entry: None,
    }
}

impl<DataType: Copy> RequestType<DataType> {
    pub fn heartbeat(persistent_state: &PersistentState<DataType>, volitile: &VolitileState) -> (r:
        RequestType<DataType>)
        ensures
            r == heartbeat_of(persistent_state.log@, *volitile),
    {
        RequestType::Append {
            prev_length: persistent_state.log.len(),
            prev_term: persistent_state.prev_term(persistent_state.log.len()),
            commit_index: volitile.commit_index,
            entry: None,
        }
    }
}

/// The answer `(id, success)`-style message of this server, in its term.
pub open spec fn answer<D>(to: u32, term: u32, request: RequestType<D>) -> Option<RaftResponse<D>> {
    Some(RaftResponse::Target { id: to, response: RaftRequest { term, sender: 0, request } })
}

/// A follower's handling of an append: it refuses a leader of an earlier term, and a
/// log that does not end in `prev_term` at `prev_length`; otherwise it takes the sender as
/// its leader, puts the entry at `prev_length` (dropping what follows where the terms
/// differ) and moves its commit index toward the leader's, within `prev_length`.
/// `None` where the server cannot handle it.
pub open spec fn follower_append<D>(
    s: ServerView<D>,
    volitile: VolitileState,
    sender: u32,
    term: u32,
    prev_length: usize,
    prev_term: u32,
    commit_index: usize,
    entry: Option<LogEntry<D>>,
) -> Option<(ServerView<D>, Option<RaftResponse<D>>)> {
    let log = s.log;
    let n = log.len();
    if prev_length > 0 && prev_length - 1 > n {
        None
    } else {
        let matches = !(prev_length > 0 && prev_length - 1 < n) || log[prev_length - 1].term
            == prev_term;
        let success = term >= s.current_term && matches;
        if !success {
            Some(
                (
                    s,
                    answer(sender, s.current_term, RequestType::AppendResponse { success: false }),
                ),
            )
        } else {
            let new_log = match entry {
                None => Some(log),
                Some(e) => {
                    if n > 0 && prev_length > n {
                        None
                    } else {
                        let l1 = if n > 0 && prev_length < n && log[prev_length as int].term
                            != e.term {
                            log.take(prev_length as int)
                        } else {
                            log
                        };
                        if l1.len() == prev_length {
                            Some(l1.push(e))
                        } else if prev_length < l1.len() {
                            Some(l1.update(prev_length as int, e))
                        } else {
                            None
                        }
                    }
                },
            };
            match new_log {
                None => None,
                Some(l) => {
                    let volitile1 = if commit_index > volitile.commit_index {
                        VolitileState {
                            commit_index: if commit_index < prev_length {
                                commit_index
                            } else {
                                prev_length
                            },
                        }
                    } else {
                        volitile
                    };
                    Some(
                        (
                            ServerView {
                                state: RoleView::Follower { volitile: volitile1 },
                                voted_for: Some(sender),
                                log: l,
                                ..s
                            },
                            answer(
                                sender,
                                s.current_term,
                                RequestType::AppendResponse { success: true },
                            ),
                        ),
                    )
                },
            }
        }
    }
}

/// Whether a follower votes for `sender`: the request is of its term or a later one;
/// the candidate's log does not end in an earlier term, nor, in the same term, is it
/// shorter; and the follower has not voted for someone else.
pub open spec fn follower_vote<D>(
    s: ServerView<D>,
    sender: u32,
    term: u32,
    log_length: usize,
    log_term: u32,
) -> bool {
    let vote0 = term >= s.current_term;
    let vote1 = if s.log.len() > 0 {
        let last = s.log.last().term;
        vote0 && last <= log_term && (last == log_term ==> s.log.len() <= log_length)
    } else {
        vote0
    };
    match s.voted_for {
        Some(p) => vote1 && p == sender,
        None => vote1,
    }
}

/// What handling `req` does to a server that knows of `servers` other servers: a
/// request of a later term makes it a follower of that term first. Followers answer
/// appends and votes; a candidate counts votes and becomes leader, in the next term,
/// with more than half of them; a leader moves its next index for a follower on each
/// answer to an append. `None` where the server cannot handle the request.
pub open spec fn server_handle<D>(s: ServerView<D>, req: RaftRequest<D>, servers: Seq<u32>) -> Option<
    (ServerView<D>, Option<RaftResponse<D>>),
> {
    let s1 = if req.term > s.current_term {
        ServerView {
            state: RoleView::Follower { volitile: VolitileState { commit_index: 0 } },
            voted_for: None,
            current_term: req.term,
            ..s
        }
    } else {
        s
    };
    match s1.state {
        RoleView::Follower { volitile } => match req.request {
            RequestType::Append { prev_length, prev_term, commit_index, entry } => follower_append(
                s1,
                volitile,
                req.sender,
                req.term,
                prev_length,
                prev_term,
                commit_index,
                entry,
            ),
            RequestType::Vote { log_length, log_term } => {
                let vote = follower_vote(s1, req.sender, req.term, log_length, log_term);
                Some(
                    (
                        ServerView {
                            voted_for: if vote {
                                Some(req.sender)
                            } else {
                                s1.voted_for
                            },
                            ..s1
                        },
                        answer(req.sender, s1.current_term, RequestType::VoteResponse { vote }),
                    ),
                )
            },
            _ => Some((s1, None)),
        },
        RoleView::Candidate { volitile, votes } => match req.request {
            RequestType::VoteResponse { vote } => {
                let votes1 = if vote {
                    votes.insert(Id { id: req.sender })
                } else {
                    votes
                };
                if servers.len() == usize::MAX {
                    None
                } else if votes1.len() > (servers.len() + 1) / 2 {
                    if s1.current_term == u32::MAX || (servers.len() > 0 && volitile.commit_index
                        == usize::MAX) {
                        None
                    } else {
                        let term = (s1.current_term + 1) as u32;
                        Some(
                            (
                                ServerView {
                                    state: RoleView::Leader {
                                        next_index: constant_map(
                                            servers,
                                            (volitile.commit_index + 1) as usize,
                                        ),
                                        match_index: constant_map(servers, 0),
                                        volitile,
                                    },
                                    current_term: term,
                                    ..s1
                                },
                                Some(
                                    RaftResponse::Broadcast {
                                        response: RaftRequest {
                                            term,
                                            sender: 0,
                                            request: heartbeat_of(s1.log, volitile),
                                        },
                                    },
                                ),
                            ),
                        )
                    }
                } else {
                    Some(
                        (
                            ServerView {
                                state: RoleView::Candidate { volitile, votes: votes1 },
                                ..s1
                            },
                            None,
                        ),
                    )
                }
            },
            _ => Some((s1, None)),
        },
        RoleView::Leader { next_index, match_index, volitile } => match req.request {
            RequestType::AppendResponse { success } => {
                let who = Id { id: req.sender };
                if !next_index.contains_key(who) {
                    None
                } else {
                    let index = next_index[who];
                    if success && index == usize::MAX {
                        None
                    } else {
                        let next1 = if success {
                            next_index.insert(who, (index + 1) as usize)
                        } else if index > 0 {
                            next_index.insert(who, (index - 1) as usize)
                        } else {
                            next_index
                        };
                        Some(
                            (
                                ServerView {
                                    state: RoleView::Leader {
                                        next_index: next1,
                                        match_index,
                                        volitile,
                                    },
                                    ..s1
                                },
                                None,
                            ),
                        )
                    }
                }
            },
            _ => Some((s1, None)),
        },
        RoleView::Offline => Some((s1, None)),
    }
}

impl<DataType: Copy> Default for ServerState<DataType> {
    /// A fresh server: offline, in term 0, with no vote and an empty log; its last
    /// heartbeat is the time read from the clock.
    fn default() -> (r: Self)
        ensures
            r.wf(),
            r@ == (ServerView::<DataType> {
                state: RoleView::Offline,
                current_term: 0,
                voted_for: None,
                log: Seq::empty(),
            }),
    {
        ServerState {
            state: RaftState::Offline,
            last_heartbeat: now(),
            persistent_state: PersistentState { current_term: 0, voted_for: None, log: Vec::new() },
        }
    }
}

impl<DataType: Copy> ServerState<DataType> {
    pub open spec fn wf(&self) -> bool {
        self.state.wf()
    }

    /// Brings the server up as a follower with nothing known to be committed.
    pub fn start(&mut self)
        ensures
            final(self).wf(),
            final(self)@ == (ServerView {
                state: RoleView::Follower { volitile: VolitileState { commit_index: 0 } },
                ..old(self)@
            }),
            final(self).last_heartbeat == old(self).last_heartbeat,
    {
        self.state = RaftState::Follower { volitile: self.persistent_state.volitile_start_state() };
    }

    /// Takes the server down.
    pub fn crash(&mut self)
        ensures
            final(self).wf(),
            final(self)@ == (ServerView { state: RoleView::Offline, ..old(self)@ }),
            final(self).last_heartbeat == old(self).last_heartbeat,
    {
        self.state = RaftState::Offline;
    }

    /// Starts an election, as server `id`: the server becomes a candidate with its own
    /// vote, in the next term, and gives the vote request to send to every server.
    pub fn start_election(&mut self, id: u32) -> (r: RaftRequest<DataType>)
        requires
            old(self).persistent_state.current_term < u32::MAX,
        ensures
            final(self).wf(),
            final(self)@ == (ServerView {
                state: RoleView::Candidate {
                    volitile: VolitileState { commit_index: 0 },
                    votes: set![Id { id }],
                },
                voted_for: Some(id),
                current_term: (old(self).persistent_state.current_term + 1) as u32,
                ..old(self)@
            }),
            r == (RaftRequest::<DataType> {
                term: (old(self).persistent_state.current_term + 1) as u32,
                sender: 0,
                request: RequestType::Vote {
                    log_length: old(self).persistent_state.log.len(),
                    log_term: prev_term_of(old(self)@.log, old(self)@.log.len() as int),
                },
            }),
            final(self).last_heartbeat == old(self).last_heartbeat,
    {
        let mut votes = IdSet::new();
        votes.insert(Id::new(id));
        assert(votes@ =~= set![Id { id }]);
        self.state = RaftState::Candidate {
            votes,
            volitile: self.persistent_state.volitile_start_state(),
        };
        self.persistent_state.voted_for = Some(id);
        self.persistent_state.current_term = self.persistent_state.current_term + 1;
        RaftRequest {
            term: self.persistent_state.current_term,
            sender: 0,
            request: RequestType::Vote {
                log_length: self.persistent_state.log.len(),
                log_term: self.persistent_state.prev_term(self.persistent_state.log.len()),
            },
        }
    }

    /// A leader's periodic heartbeat, to send to every server; the time of the last
    /// heartbeat becomes the time read from the clock. Nothing for a server that is
    /// not leader.
    pub fn leader_heartbeat(&mut self) -> (r: Option<RaftRequest<DataType>>)
        ensures
            final(self)@ == old(self)@,
            final(self).wf() == old(self).wf(),
            match old(self)@.state {
                RoleView::Leader { volitile, .. } => r == Some(
                    RaftRequest {
                        term: old(self).persistent_state.current_term,
                        sender: 0,
                        request: heartbeat_of(old(self)@.log, volitile),
                    },
                ),
                _ => r is None && final(self).last_heartbeat == old(self).last_heartbeat,
            },
    {
        match &self.state {
            RaftState::Leader { volitile, .. } => {
                let request = RequestType::heartbeat(&self.persistent_state, volitile);
                self.last_heartbeat = now();
                Some(RaftRequest { term: self.persistent_state.current_term, sender: 0, request })
            },
            _ => None,
        }
    }

    /// Whether the server can handle `request` with `servers` as the other servers:
    /// false exactly where handling it would fail.
    pub fn can_handle(&self, request: &RaftRequest<DataType>, servers: &Vec<u32>) -> (r: bool)
        requires
            self.wf(),
        ensures
            r == server_handle(self@, *request, servers@) is Some,
    {
        let ps = &self.persistent_state;
        let newer = request.term > ps.current_term;
        let term1 = if newer {
            request.term
        } else {
            ps.current_term
        };
        let n = ps.log.len();
        if newer {
            return match request.request {
                RequestType::Append { prev_length, prev_term, entry, .. } => {
                    self.append_possible(request.term, term1, prev_length, prev_term, entry)
                },
                _ => true,
            };
        }
        match &self.state {
            RaftState::Follower { .. } => match request.request {
                RequestType::Append { prev_length, prev_term, entry, .. } => {
                    self.append_possible(request.term, term1, prev_length, prev_term, entry)
                },
                _ => true,
            },
            RaftState::Candidate { volitile, votes } => match request.request {
                RequestType::VoteResponse { vote } => {
                    if servers.len() == usize::MAX {
                        return false;
                    }
                    let mut votes1 = votes.clone();
                    if vote {
                        votes1.insert(Id::new(request.sender));
                    }
                    if votes1.len() > (servers.len() + 1) / 2 {
                        term1 < u32::MAX && (servers.len() == 0 || volitile.commit_index
                            < usize::MAX)
                    } else {
                        true
                    }
                },
                _ => true,
            },
            RaftState::Leader { leader_volitile, .. } => match request.request {
                RequestType::AppendResponse { success } => {
                    match leader_volitile.next_index.get(Id::new(request.sender)) {
                        None => false,
                        Some(index) => !(success && index == usize::MAX),
                    }
                },
                _ => true,
            },
            RaftState::Offline => true,
        }
    }

    /// Whether a follower in term `current` can take an append of term `term`.
    fn append_possible(
        &self,
        term: u32,
        current: u32,
        prev_length: usize,
        prev_term: u32,
        entry: Option<LogEntry<DataType>>,
    ) -> (r: bool)
        ensures
            r == follower_append(
                ServerView { current_term: current, ..self@ },
                VolitileState { commit_index: 0 },
                0,
                term,
                prev_length,
                prev_term,
                0,
                entry,
            ) is Some,
    {
        let log = &self.persistent_state.log;
        let n = log.len();
        if prev_length > 0 && prev_length - 1 > n {
            return false;
        }
        let matches = !(prev_length > 0 && prev_length - 1 < n) || log[prev_length - 1].term
            == prev_term;
        let success = term >= current && matches;
        if !success {
            return true;
        }
        match entry {
            None => true,
            Some(e) => {
                if n > 0 && prev_length > n {
                    return false;
                }
                let truncated = n > 0 && prev_length < n && log[prev_length].term != e.term;
                let len1 = if truncated {
                    prev_length
                } else {
                    n
                };
                len1 == prev_length || prev_length < len1
            },
        }
    }

    /// Handles `request` at time `time`, where `servers` are the other servers of the
    /// cluster, and gives the answer to send, if any. The time of the last heartbeat
    /// becomes `time` when the request is of a later term, and the time read from the
    /// clock when the server becomes leader.
    pub fn handle(
        &mut self,
        request: RaftRequest<DataType>,
        servers: Vec<u32>,
        time: std::time::SystemTime,
    ) -> (r: Option<RaftResponse<DataType>>)
        requires
            old(self).wf(),
            server_handle(old(self)@, request, servers@) is Some,
        ensures
            final(self).wf(),
            server_handle(old(self)@, request, servers@) == Some((final(self)@, r)),
            request.term > old(self).persistent_state.current_term && !(final(self)@.state is Leader)
                ==> final(self).last_heartbeat == time,
            request.term <= old(self).persistent_state.current_term && !(final(self)@.state is Leader
                && !(old(self)@.state is Leader)) ==> final(self).last_heartbeat == old(
                self,
            ).last_heartbeat,
    {
        if request.term > self.persistent_state.current_term {
            self.state = RaftState::Follower {
                volitile: self.persistent_state.volitile_start_state(),
            };
            self.last_heartbeat = time;
            self.persistent_state.voted_for = None;
            self.persistent_state.current_term = request.term;
        }
        let mut state = RaftState::Offline;
        core::mem::swap(&mut state, &mut self.state);
        match state {
            RaftState::Follower { mut volitile } => {
                match request.request {
                    RequestType::Append { prev_length, prev_term, commit_index, entry } => {
                        let mut success = request.term >= self.persistent_state.current_term;
                        if prev_length > 0 {
                            if let Some(entry) = self.persistent_state.entry(prev_length - 1) {
                                success = success && entry.term == prev_term;
                            }
                        }
                        if success {
                            self.persistent_state.voted_for = Some(request.sender);
                            if let Some(entry) = entry {
                                if self.persistent_state.log_length() > 0 {
                                    if let Some(local_entry) = self.persistent_state.entry(
                                        prev_length,
                                    ) {
                                        if local_entry.term != entry.term {
                                            self.persistent_state.log.truncate(prev_length);
                                        }
                                    }
                                }
                                if self.persistent_state.log.len() == prev_length {
                                    self.persistent_state.log.push(entry);
                                } else {
                                    self.persistent_state.log.set(prev_length, entry);
                                }
                            }
                            if commit_index > volitile.commit_index {
                                volitile.commit_index = if commit_index < prev_length {
                                    commit_index
                                } else {
                                    prev_length
                                };
                            }
                        }
                        self.state = RaftState::Follower { volitile };
                        Some(
                            RaftResponse::Target {
                                id: request.sender,
                                response: RaftRequest {
                                    term: self.persistent_state.current_term,
                                    sender: 0,
                                    request: RequestType::AppendResponse { success },
                                },
                            },
                        )
                    },
                    RequestType::Vote { log_length, log_term } => {
                        let mut vote = request.term >= self.persistent_state.current_term;
                        if self.persistent_state.log.len() > 0 {
                            let last = self.persistent_state.log[self.persistent_state.log.len()
                                - 1].term;
                            vote = vote && last <= log_term;
                            if last == log_term {
                                vote = vote && self.persistent_state.log.len() <= log_length;
                            }
                        }
                        if let Some(previous_vote) = self.persistent_state.voted_for {
                            vote = vote && previous_vote == request.sender;
                        }
                        if vote {
                            self.persistent_state.voted_for = Some(request.sender);
                        }
                        self.state = RaftState::Follower { volitile };
                        Some(
                            RaftResponse::Target {
                                id: request.sender,
                                response: RaftRequest {
                                    term: self.persistent_state.current_term,
                                    sender: 0,
                                    request: RequestType::VoteResponse { vote },
                                },
                            },
                        )
                    },
                    _ => {
                        self.state = RaftState::Follower { volitile };
                        None
                    },
                }
            },
            RaftState::Candidate { volitile, mut votes } => {
                match request.request {
                    RequestType::VoteResponse { vote } => {
                        if vote {
                            votes.insert(Id::new(request.sender));
                        }
                        if votes.len() > (servers.len() + 1) / 2 {
                            self.persistent_state.current_term =
                                self.persistent_state.current_term + 1;
                            self.last_heartbeat = now();
                            let response = Some(
                                RaftResponse::Broadcast {
                                    response: RaftRequest {
                                        term: self.persistent_state.current_term,
                                        sender: 0,
                                        request: RequestType::heartbeat(
                                            &self.persistent_state,
                                            &volitile,
                                        ),
                                    },
                                },
                            );
                            self.state = RaftState::Leader {
                                leader_volitile: volitile.leader_start_state(servers),
                                volitile,
                            };
                            response
                        } else {
                            self.state = RaftState::Candidate { volitile, votes };
                            None
                        }
                    },
                    _ => {
                        self.state = RaftState::Candidate { volitile, votes };
                        None
                    },
                }
            },
            RaftState::Leader { mut leader_volitile, volitile } => {
                match request.request {
                    RequestType::AppendResponse { success } => {
                        let who = Id::new(request.sender);
                        let index = leader_volitile.next_index.get(who).unwrap();
                        if success {
                            leader_volitile.next_index.insert(who, index + 1);
                        } else if index > 0 {
                            leader_volitile.next_index.insert(who, index - 1);
                        }
                        self.state = RaftState::Leader { leader_volitile, volitile };
                        None
                    },
                    _ => {
                        self.state = RaftState::Leader { leader_volitile, volitile };
                        None
                    },
                }
            },
            RaftState::Offline => {
                self.state = RaftState::Offline;
                None
            },
        }
    }
}

} // verus!
