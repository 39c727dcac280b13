use raft_async::dinner_party::table::Table;
use raft_async::raft::data::id_set::{IdMap, IdSet};
use raft_async::raft::data::persistent_state::{Config, Entry, LogState, PersistentState};
use raft_async::raft::data::request::{
    Client, ClientData, Crash, Event, Insert, InsertResponse, Request, Tick, TransactionId, Vote,
    VoteResponse,
};
use raft_async::raft::data::volitile_state::VolitileState;
use raft_async::raft::machine::Sum;
use raft_async::raft::raft_request::{RaftRequest, RequestType};
use raft_async::raft::raft_server::{RaftResponse, RaftState as ServerRole, ServerState};
use raft_async::raft::server::raft_cluster::Id;
use raft_async::raft::state::concrete::candidate::Candidate;
use raft_async::raft::state::concrete::follower::Follower;
use raft_async::raft::state::concrete::leader::Leader;
use raft_async::raft::state::raft_state::RaftState;
use raft_async::raft::state::state::State;
use std::time::SystemTime;

fn ids(xs: &[u32]) -> IdSet {
    let mut s = IdSet::new();
    for x in xs {
        s.insert(Id::new(*x));
    }
    s
}

fn five() -> Config {
    Config { servers: ids(&[0, 1, 2, 3, 4]) }
}

fn log() -> Vec<Entry<u32>> {
    vec![Entry::config(0, five()), Entry::command(1, 10), Entry::command(3, 4)]
}

fn state(role: RaftState) -> State<u32, Sum> {
    State {
        state_machine: Sum::default(),
        persistent_state: PersistentState { id: Id::new(1), current_term: 4, voted_for: None, log: log() },
        raft_state: role,
        volitile_state: VolitileState { commit_index: 1, tick_since_start: 0 },
    }
}

fn request(term: u32, sender: u32, event: Event<u32, u32>) -> Request<u32, u32> {
    Request { sender: Id::new(sender), reciever: Id::new(1), term, event }
}

#[test]
fn two_majorities_share_a_server() {
    let c = five();
    let a = ids(&[0, 1, 2]);
    let b = ids(&[2, 3, 4]);
    assert!(c.has_quorum(&a) && c.has_quorum(&b));
    assert_eq!(a.count_common(&b), 1);
    let smaller = ids(&[0, 1]);
    assert!(!c.has_quorum(&smaller));
    assert!(c.has_quorum(&smaller.union(&ids(&[4]))));
}

#[test]
fn a_vote_once_given_stays() {
    let mut ps = PersistentState { id: Id::new(1), current_term: 4, voted_for: None, log: log() };
    assert!(ps.try_vote_for(Vote { log_state: LogState { term: 3, length: 3 } }, Id::new(2)));
    assert!(!ps.try_vote_for(Vote { log_state: LogState { term: 9, length: 9 } }, Id::new(3)));
    assert_eq!(ps.voted_for, Some(Id::new(2)));
}

#[test]
fn the_same_insert_twice_changes_nothing_more() {
    let insert = || Insert {
        prev_log_state: LogState { term: 1, length: 2 },
        entries: vec![Entry::command(4, 7), Entry::command(4, 8)],
        leader_commit: 0,
    };
    let mut ps = PersistentState { id: Id::new(1), current_term: 4, voted_for: None, log: log() };
    assert!(ps.try_insert(insert()));
    let once = ps.log.clone();
    assert_eq!(once[..2], log()[..2]);
    assert_eq!(once[2..4], [Entry::command(4, 7), Entry::command(4, 8)]);
    assert!(ps.try_insert(insert()));
    assert_eq!(ps.log, once);
}

#[test]
fn terms_and_commits_only_go_up_while_up() {
    let mut s = state(RaftState::Follower(Follower));
    let requests = vec![
        request(4, 0, Event::Insert(Insert { prev_log_state: LogState { term: 3, length: 3 }, entries: vec![Entry::command(4, 5)], leader_commit: 4 })),
        request(6, 2, Event::Vote(Vote { log_state: LogState { term: 4, length: 4 } })),
        request(6, 2, Event::Insert(Insert { prev_log_state: LogState { term: 4, length: 4 }, entries: Vec::new(), leader_commit: 2 })),
        request(0, 0, Event::Tick(Tick)),
    ];
    for r in requests {
        let before_term = s.persistent_state.current_term;
        let before_commit = s.volitile_state.commit_index;
        assert!(s.can_handle(&r));
        let (_, next) = s.handle_request(r);
        s = next;
        assert!(s.persistent_state.current_term >= before_term);
        assert!(s.volitile_state.commit_index >= before_commit);
    }
    assert_eq!(s.persistent_state.current_term, 6);
    assert_eq!(s.volitile_state.commit_index, 4);
    assert_eq!(s.state_machine, Sum { total: 19 });
}

#[test]
fn a_candidate_leads_only_with_a_quorum() {
    let s = state(RaftState::Candidate(Candidate { votes: ids(&[1]) }));
    let (_, s) = s.handle_request(request(4, 0, Event::VoteResponse(VoteResponse { success: true })));
    assert!(matches!(s.raft_state, RaftState::Candidate(_)));
    let (_, s) = s.handle_request(request(4, 2, Event::VoteResponse(VoteResponse { success: false })));
    assert!(matches!(s.raft_state, RaftState::Candidate(_)));
    let (sent, s) = s.handle_request(request(4, 3, Event::VoteResponse(VoteResponse { success: true })));
    assert!(matches!(s.raft_state, RaftState::Leader(_)));
    assert_eq!(sent.len(), 4);
    assert_eq!(s.persistent_state.current_term, 5);
}

#[test]
fn a_crashed_server_restarts_after_enough_ticks() {
    let (_, mut s) = state(RaftState::Follower(Follower)).handle_request(request(0, 0, Event::Crash(Crash)));
    assert!(matches!(s.raft_state, RaftState::Offline(_)));
    s.persistent_state.voted_for = Some(Id::new(3));
    for _ in 0..99 {
        let (_, next) = s.handle_request(request(0, 0, Event::Tick(Tick)));
        s = next;
        assert!(matches!(s.raft_state, RaftState::Offline(_)));
    }
    let (_, s) = s.handle_request(request(0, 0, Event::Tick(Tick)));
    assert!(matches!(s.raft_state, RaftState::Follower(_)));
    assert_eq!(s.persistent_state.voted_for, None);
    assert_eq!(s.volitile_state, VolitileState { commit_index: 0, tick_since_start: 0 });
}

#[test]
fn first_design_keeps_its_vote_and_term() {
    let mut s: ServerState<u32> = ServerState::default();
    s.start();
    s.persistent_state.current_term = 2;
    let vote = |sender| RaftRequest { term: 2, sender, request: RequestType::Vote { log_length: 0, log_term: 0 } };
    let granted = |r: Option<RaftResponse<u32>>| matches!(r, Some(RaftResponse::Target { response: RaftRequest { request: RequestType::VoteResponse { vote: true }, .. }, .. }));
    assert!(granted(s.handle(vote(3), vec![], SystemTime::now())));
    assert!(!granted(s.handle(vote(4), vec![], SystemTime::now())));
    assert!(granted(s.handle(vote(3), vec![], SystemTime::now())));
    let r = s.handle(RaftRequest { term: 1, sender: 4, request: RequestType::AppendResponse { success: true } }, vec![], SystemTime::now());
    assert_eq!(r, None);
    assert_eq!(s.persistent_state.current_term, 2);
    assert!(matches!(s.state, ServerRole::Follower { .. }));
}

#[test]
fn neighbours_share_forks() {
    let table = Table::new(5);
    for seat in 0..5 {
        let (_, right) = table.fork_indices(seat);
        let (next_left, _) = table.fork_indices((seat + 1) % 5);
        assert_eq!(right, next_left);
    }
    for fork in 0..5 {
        let holders = (0..5)
            .filter(|seat| {
                let (l, r) = table.fork_indices(*seat);
                l == fork || r == fork
            })
            .count();
        assert_eq!(holders, 2);
    }
}

#[test]
fn a_leader_only_appends_to_its_log() {
    let others = vec![Id::new(0), Id::new(2), Id::new(3), Id::new(4)];
    let leader = || {
        RaftState::Leader(Leader {
            next_index: IdMap::from_keys(&others, 3),
            match_index: IdMap::from_keys(&others, 0),
        })
    };
    let s = state(leader());
    let before = s.persistent_state.log.clone();
    let (_, s) = s.handle_request(request(
        0,
        10,
        Event::Client(Client { id: TransactionId(Id::new(10), 1), data: ClientData::Command(6) }),
    ));
    assert_eq!(s.persistent_state.log[..3], before[..]);
    assert_eq!(s.persistent_state.log[3], Entry::command(4, 6));
    let (sent, s) = s.handle_request(request(0, 0, Event::Tick(Tick)));
    assert_eq!(sent.len(), 4);
    assert_eq!(s.persistent_state.log.len(), 4);
    assert!(matches!(s.raft_state, RaftState::Leader(_)));
}

#[test]
fn a_later_term_is_handled_as_a_fresh_follower() {
    let vote = || request(7, 2, Event::Vote(Vote { log_state: LogState { term: 3, length: 3 } }));
    let mut follower = state(RaftState::Follower(Follower));
    follower.persistent_state.current_term = 7;
    let (expected, f) = follower.handle_request(vote());
    let mut candidate = state(RaftState::Candidate(Candidate { votes: ids(&[1]) }));
    candidate.persistent_state.voted_for = Some(Id::new(1));
    let (sent, c) = candidate.handle_request(vote());
    assert_eq!(sent, expected);
    assert_eq!(c, f);
    assert!(c.persistent_state.current_term >= 7);
}

#[test]
fn a_follower_refuses_an_insert_far_past_its_log() {
    let mut s = state(RaftState::Follower(Follower));
    s.volitile_state.tick_since_start = 3;
    let r = request(4, 0, Event::Insert(Insert {
        prev_log_state: LogState { term: 3, length: usize::MAX },
        entries: vec![Entry::command(4, 1)],
        leader_commit: 7,
    }));
    assert!(s.can_handle(&r));
    let (sent, s) = s.handle_request(r);
    assert_eq!(sent.len(), 1);
    assert_eq!(sent[0].event, Event::InsertResponse(InsertResponse { success: false }));
    assert_eq!(s.persistent_state.log, log());
    assert_eq!(s.persistent_state.voted_for, Some(Id::new(0)));
    assert_eq!(s.volitile_state, VolitileState { commit_index: 1, tick_since_start: 0 });
    assert_eq!(s.state_machine, Sum::default());
}
