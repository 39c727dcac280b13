use raft_async::raft::log_entry::LogEntry;
use raft_async::raft::raft_request::{RaftRequest, RequestType};
use raft_async::raft::raft_server::{
    election_due, PersistentState, RaftResponse, RaftState, ServerState, VolitileState,
};
use raft_async::raft::server::raft_cluster::Id;
use std::time::{Duration, SystemTime};

fn entry(term: u32, value: u32) -> LogEntry<u32> {
    LogEntry { term, entry: value }
}

fn server_with(state: RaftState, term: u32, log: Vec<LogEntry<u32>>) -> ServerState<u32> {
    let mut s = ServerState::default();
    s.state = state;
    s.persistent_state.current_term = term;
    s.persistent_state.log = log;
    s
}

fn follower(commit_index: usize) -> RaftState {
    RaftState::Follower { volitile: VolitileState { commit_index } }
}

fn append(term: u32, sender: u32, prev_length: usize, prev_term: u32, commit_index: usize, e: Option<LogEntry<u32>>) -> RaftRequest<u32> {
    RaftRequest {
        term,
        sender,
        request: RequestType::Append { prev_length, prev_term, commit_index, entry: e },
    }
}

fn answer(to: u32, term: u32, request: RequestType<u32>) -> Option<RaftResponse<u32>> {
    Some(RaftResponse::Target { id: to, response: RaftRequest { term, sender: 0, request } })
}

#[test]
fn persistent_state_accessors() {
    let ps = PersistentState { current_term: 3, voted_for: None, log: vec![entry(1, 5), entry(2, 6)] };
    assert_eq!(ps.log_length(), 2);
    assert_eq!(ps.term(), 3);
    assert_eq!(ps.prev_term(0), 0);
    assert_eq!(ps.prev_term(2), 2);
    assert_eq!(ps.entry(1), Some(entry(2, 6)));
    assert_eq!(ps.entry(2), None);
    assert_eq!(ps.volitile_start_state(), VolitileState { commit_index: 0 });
}

#[test]
fn leader_start_state_sends_from_past_the_commit_index() {
    let v = VolitileState { commit_index: 4 };
    let leader = v.leader_start_state(vec![3, 1]);
    assert_eq!(leader.next_index.get(Id::new(1)), Some(5));
    assert_eq!(leader.next_index.get(Id::new(3)), Some(5));
    assert_eq!(leader.match_index.get(Id::new(3)), Some(0));
    assert_eq!(leader.next_index.get(Id::new(2)), None);
}

#[test]
fn heartbeat_carries_log_length_last_term_and_commit() {
    let ps = PersistentState { current_term: 3, voted_for: None, log: vec![entry(1, 5), entry(2, 6)] };
    assert_eq!(
        RequestType::heartbeat(&ps, &VolitileState { commit_index: 1 }),
        RequestType::Append { prev_length: 2, prev_term: 2, commit_index: 1, entry: None }
    );
}

#[test]
fn election_is_due_after_the_heartbeat_length() {
    assert!(!election_due(2_000_000_000));
    assert!(election_due(2_000_000_001));
    assert!(election_due(2_000_500_000));
}

#[test]
fn follower_appends_an_entry_and_commits() {
    let mut s = server_with(follower(0), 2, vec![entry(1, 5)]);
    let request = append(2, 7, 1, 1, 5, Some(entry(2, 9)));
    assert!(s.can_handle(&request, &vec![7]));
    let r = s.handle(request, vec![7], SystemTime::now());
    assert_eq!(r, answer(7, 2, RequestType::AppendResponse { success: true }));
    assert_eq!(s.persistent_state.log, vec![entry(1, 5), entry(2, 9)]);
    assert_eq!(s.persistent_state.voted_for, Some(7));
    assert_eq!(s.state, follower(1));
}

#[test]
fn follower_replaces_a_conflicting_entry() {
    let mut s = server_with(follower(0), 3, vec![entry(1, 5), entry(1, 6), entry(1, 7)]);
    let r = s.handle(append(3, 7, 1, 1, 0, Some(entry(3, 9))), vec![7], SystemTime::now());
    assert_eq!(r, answer(7, 3, RequestType::AppendResponse { success: true }));
    assert_eq!(s.persistent_state.log, vec![entry(1, 5), entry(3, 9)]);
}

#[test]
fn follower_refuses_an_old_leader_and_a_mismatched_log() {
    let mut s = server_with(follower(0), 3, vec![entry(1, 5)]);
    let r = s.handle(append(2, 7, 1, 1, 0, None), vec![7], SystemTime::now());
    assert_eq!(r, answer(7, 3, RequestType::AppendResponse { success: false }));
    let r = s.handle(append(3, 7, 1, 2, 0, None), vec![7], SystemTime::now());
    assert_eq!(r, answer(7, 3, RequestType::AppendResponse { success: false }));
    assert_eq!(s.persistent_state.voted_for, None);
    assert_eq!(s.persistent_state.log, vec![entry(1, 5)]);
}

#[test]
fn a_later_term_makes_a_follower_and_clears_the_vote() {
    let mut s = server_with(RaftState::Offline, 1, Vec::new());
    s.persistent_state.voted_for = Some(4);
    let time = SystemTime::now() + Duration::from_secs(3);
    let r = s.handle(
        RaftRequest { term: 5, sender: 2, request: RequestType::VoteResponse { vote: true } },
        vec![2],
        time,
    );
    assert_eq!(r, None);
    assert_eq!(s.state, follower(0));
    assert_eq!(s.persistent_state.current_term, 5);
    assert_eq!(s.persistent_state.voted_for, None);
    assert_eq!(s.last_heartbeat, time);
}

#[test]
fn follower_votes_once_for_an_up_to_date_candidate() {
    let mut s = server_with(follower(0), 2, vec![entry(2, 5)]);
    let vote = |sender, log_length, log_term| RaftRequest {
        term: 2,
        sender,
        request: RequestType::Vote { log_length, log_term },
    };
    assert_eq!(
        s.handle(vote(3, 1, 1), vec![], SystemTime::now()),
        answer(3, 2, RequestType::VoteResponse { vote: false })
    );
    assert_eq!(
        s.handle(vote(3, 0, 2), vec![], SystemTime::now()),
        answer(3, 2, RequestType::VoteResponse { vote: false })
    );
    assert_eq!(
        s.handle(vote(3, 1, 2), vec![], SystemTime::now()),
        answer(3, 2, RequestType::VoteResponse { vote: true })
    );
    assert_eq!(
        s.handle(vote(4, 5, 9), vec![], SystemTime::now()),
        answer(4, 2, RequestType::VoteResponse { vote: false })
    );
    assert_eq!(s.persistent_state.voted_for, Some(3));
}

#[test]
fn candidate_becomes_leader_with_a_majority() {
    let mut s = server_with(RaftState::Offline, 1, vec![entry(1, 5)]);
    s.start();
    let vote_request = s.start_election(0);
    assert_eq!(
        vote_request,
        RaftRequest { term: 2, sender: 0, request: RequestType::Vote { log_length: 1, log_term: 1 } }
    );
    assert_eq!(s.persistent_state.voted_for, Some(0));
    let servers = vec![1, 2, 3, 4];
    let yes = |sender| RaftRequest { term: 2, sender, request: RequestType::VoteResponse { vote: true } };
    assert_eq!(s.handle(yes(1), servers.clone(), SystemTime::now()), None);
    let r = s.handle(yes(2), servers.clone(), SystemTime::now());
    assert_eq!(
        r,
        Some(RaftResponse::Broadcast {
            response: RaftRequest {
                term: 3,
                sender: 0,
                request: RequestType::Append { prev_length: 1, prev_term: 1, commit_index: 0, entry: None },
            },
        })
    );
    match &s.state {
        RaftState::Leader { leader_volitile, .. } => {
            assert_eq!(leader_volitile.next_index.get(Id::new(4)), Some(1));
        }
        other => panic!("not a leader: {:?}", other),
    }
    assert!(s.leader_heartbeat().is_some());
    s.crash();
    assert_eq!(s.state, RaftState::Offline);
    assert_eq!(s.leader_heartbeat(), None);
}

#[test]
fn leader_moves_next_index_on_answers() {
    let mut s = server_with(follower(2), 1, vec![entry(1, 5)]);
    s.state = RaftState::Leader {
        leader_volitile: VolitileState { commit_index: 2 }.leader_start_state(vec![1]),
        volitile: VolitileState { commit_index: 2 },
    };
    let answer_of = |success| RaftRequest { term: 1, sender: 1, request: RequestType::AppendResponse { success } };
    assert!(!s.can_handle(&RaftRequest { term: 1, sender: 9, request: RequestType::AppendResponse { success: true } }, &vec![1]));
    assert_eq!(s.handle(answer_of(true), vec![1], SystemTime::now()), None);
    assert_eq!(s.handle(answer_of(false), vec![1], SystemTime::now()), None);
    assert_eq!(s.handle(answer_of(false), vec![1], SystemTime::now()), None);
    match &s.state {
        RaftState::Leader { leader_volitile, .. } => {
            assert_eq!(leader_volitile.next_index.get(Id::new(1)), Some(2));
        }
        other => panic!("not a leader: {:?}", other),
    }
}

#[test]
fn can_handle_spots_what_would_fail() {
    let s = server_with(follower(0), 1, Vec::new());
    assert!(!s.can_handle(&append(1, 2, 3, 0, 0, None), &vec![]));
    assert!(s.can_handle(&append(1, 2, 1, 0, 0, None), &vec![]));
    assert!(!s.can_handle(&append(1, 2, 1, 0, 0, Some(entry(1, 1))), &vec![]));
    assert!(s.can_handle(&append(1, 2, 0, 0, 0, Some(entry(1, 1))), &vec![]));
}
