use raft_async::raft::data::id_set::{IdMap, IdSet};
use raft_async::raft::data::persistent_state::{Config, Entry, LogState, PersistentState};
use raft_async::raft::data::request::{
    ActiveConfig, Client, ClientData, ClientResponse, Crash, Data, Event, Insert, InsertResponse,
    Request, Tick, TransactionId, Vote, VoteResponse,
};
use raft_async::raft::data::volitile_state::VolitileState;
use raft_async::raft::machine::Sum;
use raft_async::raft::server::raft_cluster::Id;
use raft_async::raft::state::concrete::candidate::Candidate;
use raft_async::raft::state::concrete::follower::Follower;
use raft_async::raft::state::concrete::leader::Leader;
use raft_async::raft::state::concrete::offline::Offline;
use raft_async::raft::state::raft_state::RaftState;
use raft_async::raft::state::state::State;

type Req = Request<u32, u32>;

fn server(i: u32) -> Id {
    Id::new(i)
}

fn client_0() -> Id {
    Id::new(10)
}

fn none() -> Id {
    Id::new(10000)
}

fn ids(xs: &[u32]) -> IdSet {
    let mut s = IdSet::new();
    for x in xs {
        s.insert(Id::new(*x));
    }
    s
}

fn config() -> Config {
    Config { servers: ids(&[0, 1, 2, 3, 4]) }
}

fn new_config() -> Config {
    Config { servers: ids(&[2, 3, 4, 5, 6]) }
}

fn joint_config() -> Config {
    Config { servers: ids(&[0, 1, 2, 3, 4, 5, 6]) }
}

fn log() -> Vec<Entry<u32>> {
    vec![Entry::config(0, config()), Entry::command(1, 10), Entry::command(3, 4)]
}

fn log_leader() -> Vec<Entry<u32>> {
    let mut l = log();
    l.push(Entry::command(3, 5));
    l.push(Entry::command(3, 1));
    l.push(Entry::command(3, 2));
    l
}

fn log_with_client() -> Vec<Entry<u32>> {
    let mut l = log();
    l.push(Entry::command(4, 100));
    l
}

fn mismatch_log() -> Vec<Entry<u32>> {
    vec![Entry::config(0, config()), Entry::command(1, 10), Entry::command(2, 3)]
}

fn log_transition_config() -> Vec<Entry<u32>> {
    vec![
        Entry { term: 0, data: Data::Config(ActiveConfig::Stable(config())) },
        Entry {
            term: 1,
            data: Data::Config(ActiveConfig::Transition { prev: config(), new: new_config() }),
        },
    ]
}

fn log_transition_stable_config() -> Vec<Entry<u32>> {
    let mut l = log_transition_config();
    l.push(Entry { term: 3, data: Data::Config(ActiveConfig::Stable(new_config())) });
    l
}

fn persistent_state() -> PersistentState<u32> {
    PersistentState { id: server(1), current_term: 4, voted_for: None, log: log() }
}

fn volitile_state() -> VolitileState {
    VolitileState { commit_index: 2, tick_since_start: 0 }
}

fn volitile_state_timeout() -> VolitileState {
    VolitileState { commit_index: 2, tick_since_start: 100000 }
}

fn fresh_volitile_state() -> VolitileState {
    VolitileState { commit_index: 0, tick_since_start: 0 }
}

fn increment_tick(v: VolitileState) -> VolitileState {
    VolitileState { tick_since_start: v.tick_since_start + 1, ..v }
}

/// A server whose state machine holds its committed entries (the command 10).
fn create_state(raft_state: RaftState) -> State<u32, Sum> {
    State {
        state_machine: Sum { total: 10 },
        persistent_state: persistent_state(),
        raft_state,
        volitile_state: volitile_state(),
    }
}

fn follower() -> RaftState {
    RaftState::Follower(Follower)
}

fn offline() -> RaftState {
    RaftState::Offline(Offline)
}

fn candidate(votes: &[u32]) -> RaftState {
    RaftState::Candidate(Candidate { votes: ids(votes) })
}

fn base_candidate() -> RaftState {
    candidate(&[1])
}

fn leader_with_range(log_length: usize, match_index: usize, servers: &[u32]) -> RaftState {
    let others: Vec<Id> = servers.iter().filter(|id| **id != 1).map(|id| Id::new(*id)).collect();
    RaftState::Leader(Leader {
        next_index: IdMap::from_keys(&others, log_length),
        match_index: IdMap::from_keys(&others, match_index),
    })
}

fn base_leader(log_length: usize, match_index: usize) -> RaftState {
    leader_with_range(log_length, match_index, &[0, 1, 2, 3, 4])
}

fn set_next_index(mut state: RaftState, id: u32, index: usize) -> RaftState {
    if let RaftState::Leader(leader) = &mut state {
        leader.next_index.insert(Id::new(id), index);
    }
    state
}

fn set_match_index(mut state: RaftState, id: u32, index: usize) -> RaftState {
    if let RaftState::Leader(leader) = &mut state {
        leader.match_index.insert(Id::new(id), index);
    }
    state
}

fn request(term: u32, sender: Id, reciever: Id, event: Event<u32, u32>) -> Req {
    Request { sender, reciever, term, event }
}

fn reverse_sender(r: Req) -> Req {
    Request { sender: r.reciever, reciever: r.sender, ..r }
}

fn set_term(r: Req, term: u32) -> Req {
    Request { term, ..r }
}

fn transaction_id_1() -> TransactionId {
    TransactionId(client_0(), 1)
}

fn tick() -> Req {
    request(0, none(), none(), Event::Tick(Tick))
}

fn crash() -> Req {
    request(0, none(), none(), Event::Crash(Crash))
}

fn vote_with(term: u32, length: usize) -> Req {
    request(4, server(0), server(1), Event::Vote(Vote { log_state: LogState { term, length } }))
}

fn vote() -> Req {
    vote_with(3, 3)
}

fn vote_response(success: bool) -> Req {
    request(4, server(0), server(1), Event::VoteResponse(VoteResponse { success }))
}

fn insert_response(success: bool) -> Req {
    request(4, server(0), server(1), Event::InsertResponse(InsertResponse { success }))
}

fn insert(prev_length: usize) -> Req {
    let log = log_leader();
    let max_prev_index = (prev_length - 1).min(log.len() - 1);
    let entries = vec![log[max_prev_index + 1].clone()];
    request(
        4,
        server(0),
        server(1),
        Event::Insert(Insert {
            prev_log_state: LogState { term: log[max_prev_index].term, length: prev_length },
            entries,
            leader_commit: 4,
        }),
    )
}

fn insert_heartbeat() -> Req {
    request(
        4,
        server(0),
        server(1),
        Event::Insert(Insert {
            prev_log_state: LogState { term: 3, length: 3 },
            entries: Vec::new(),
            leader_commit: 2,
        }),
    )
}

fn to_all_but_1(request: Req, config: Config) -> Vec<Req> {
    config
        .servers
        .ids
        .iter()
        .filter(|id| **id != request.sender)
        .map(|id| Request {
            sender: request.sender,
            reciever: *id,
            term: request.term,
            event: request.event.clone(),
        })
        .collect()
}

fn request_votes(term: u32) -> Vec<Req> {
    to_all_but_1(set_term(reverse_sender(vote()), term), config())
}

fn mass_heartbeat_with_range(term: u32, config: Config) -> Vec<Req> {
    to_all_but_1(set_term(reverse_sender(insert_heartbeat()), term), config)
}

fn mass_heartbeat(term: u32) -> Vec<Req> {
    mass_heartbeat_with_range(term, config())
}

fn client_command() -> Req {
    request(
        0,
        client_0(),
        server(1),
        Event::Client(Client { id: transaction_id_1(), data: ClientData::Command(100) }),
    )
}

fn client_response(leader_id: Option<Id>) -> Req {
    request(
        0,
        server(1),
        client_0(),
        Event::ClientResponse(ClientResponse::Failed {
            id: transaction_id_1(),
            leader_id,
            data: ClientData::Command(100),
        }),
    )
}

fn run(state: State<u32, Sum>, request: Req, expected: State<u32, Sum>, responses: Vec<Req>) {
    let (got, state) = state.handle_request(request);
    assert_eq!(state, expected);
    assert_eq!(got, responses);
}

// Offline.

#[test]
fn offline_test_tick() {
    let state = create_state(offline());
    let mut expected = create_state(offline());
    expected.volitile_state = increment_tick(volitile_state());
    run(state, tick(), expected, vec![]);
}

#[test]
fn test_reboot() {
    let mut state = create_state(offline());
    state.volitile_state = volitile_state_timeout();
    let mut expected = create_state(follower());
    expected.volitile_state = fresh_volitile_state();
    run(state, tick(), expected, vec![]);
}

// Candidate.

#[test]
fn candidate_test_tick() {
    let mut state = create_state(base_candidate());
    state.persistent_state.voted_for = Some(server(1));
    let mut expected = create_state(base_candidate());
    expected.persistent_state.voted_for = Some(server(1));
    expected.volitile_state = increment_tick(volitile_state());
    run(state, tick(), expected, request_votes(4));
}

#[test]
fn candidate_test_timeout() {
    let mut state = create_state(base_candidate());
    state.volitile_state = volitile_state_timeout();
    state.persistent_state.voted_for = Some(server(1));
    let mut expected = create_state(base_candidate());
    expected.persistent_state.voted_for = Some(server(1));
    expected.persistent_state.current_term = 5;
    run(state, tick(), expected, request_votes(5));
}

#[test]
fn test_request_vote_rejection() {
    let mut state = create_state(base_candidate());
    state.persistent_state.voted_for = Some(server(1));
    let mut expected = create_state(base_candidate());
    expected.persistent_state.voted_for = Some(server(1));
    run(state, vote_response(false), expected, vec![]);
}

#[test]
fn test_request_vote_successful() {
    let mut state = create_state(base_candidate());
    state.persistent_state.voted_for = Some(server(1));
    let mut expected = create_state(candidate(&[0, 1]));
    expected.persistent_state.voted_for = Some(server(1));
    run(state, vote_response(true), expected, vec![]);
}

#[test]
fn test_request_vote_successful_redundant() {
    let mut state = create_state(candidate(&[0, 1]));
    state.persistent_state.voted_for = Some(server(1));
    let mut expected = create_state(candidate(&[0, 1]));
    expected.persistent_state.voted_for = Some(server(1));
    run(state, vote_response(true), expected, vec![]);
}

#[test]
fn test_request_vote_successful_elected() {
    let mut state = create_state(candidate(&[1, 2]));
    state.persistent_state.voted_for = Some(server(1));
    let mut expected = create_state(base_leader(3, 0));
    expected.persistent_state.voted_for = Some(server(1));
    expected.persistent_state.current_term = 5;
    run(state, vote_response(true), expected, mass_heartbeat(5));
}

#[test]
fn test_request_vote_missing_joint_quorum() {
    let mut state = create_state(candidate(&[1, 2]));
    state.persistent_state.voted_for = Some(server(1));
    state.persistent_state.log = log_transition_config();
    let mut expected = create_state(candidate(&[0, 1, 2]));
    expected.persistent_state.voted_for = Some(server(1));
    expected.persistent_state.log = log_transition_config();
    run(state, vote_response(true), expected, vec![]);
}

#[test]
fn test_request_vote_successful_elected_joint_quorum() {
    let mut state = create_state(candidate(&[1, 2, 3, 4]));
    state.persistent_state.current_term = 2;
    state.persistent_state.voted_for = Some(server(1));
    state.persistent_state.log = log_transition_config();
    let mut expected = create_state(leader_with_range(3, 0, &[0, 1, 2, 3, 4, 5, 6]));
    expected.persistent_state.voted_for = Some(server(1));
    expected.persistent_state.log = log_transition_stable_config();
    expected.persistent_state.current_term = 3;
    run(
        state,
        set_term(vote_response(true), 2),
        expected,
        mass_heartbeat_with_range(3, joint_config()),
    );
}

#[test]
fn candidate_test_append_old_leader() {
    let mut state = create_state(candidate(&[1]));
    state.persistent_state.voted_for = Some(server(1));
    let mut expected = create_state(candidate(&[1]));
    expected.persistent_state.voted_for = Some(server(1));
    run(state, set_term(insert(4), 2), expected, vec![]);
}

#[test]
fn test_append_current_leader() {
    let mut state = create_state(candidate(&[1]));
    state.persistent_state.voted_for = Some(server(1));
    let mut expected = create_state(follower());
    expected.persistent_state.voted_for = Some(server(0));
    run(state, set_term(insert(4), 4), expected, vec![]);
}

// Follower.

#[test]
fn follower_test_tick() {
    let state = create_state(follower());
    let mut expected = create_state(follower());
    expected.volitile_state = increment_tick(volitile_state());
    run(state, tick(), expected, vec![]);
}

#[test]
fn follower_test_timeout() {
    let mut state = create_state(follower());
    state.volitile_state = volitile_state_timeout();
    let mut expected = create_state(base_candidate());
    expected.volitile_state = volitile_state();
    expected.persistent_state.current_term = 5;
    expected.persistent_state.voted_for = Some(server(1));
    run(state, tick(), expected, request_votes(5));
}

#[test]
fn follower_test_append_old_leader() {
    let state = create_state(follower());
    let expected = create_state(follower());
    run(state, set_term(insert(2), 2), expected, vec![reverse_sender(insert_response(false))]);
}

#[test]
fn test_append_log_too_short() {
    let state = create_state(follower());
    let mut expected = create_state(follower());
    expected.persistent_state.voted_for = Some(server(0));
    run(state, insert(4), expected, vec![reverse_sender(insert_response(false))]);
}

#[test]
fn test_append_log_last_term_mismatch() {
    let mut state = create_state(follower());
    state.persistent_state.log = mismatch_log();
    let mut expected = create_state(follower());
    expected.persistent_state.log = mismatch_log();
    expected.persistent_state.voted_for = Some(server(0));
    run(state, insert(3), expected, vec![reverse_sender(insert_response(false))]);
}

#[test]
fn test_append_log_basic() {
    let state = create_state(follower());
    let mut expected = create_state(follower());
    expected.persistent_state.log = log_leader()[0..4].iter().map(|e| e.clone()).collect();
    expected.persistent_state.voted_for = Some(server(0));
    expected.volitile_state.commit_index = 4;
    expected.state_machine.total = 19;
    run(state, insert(3), expected, vec![reverse_sender(insert_response(true))]);
}

#[test]
fn test_append_log_overwrite() {
    let mut state = create_state(follower());
    state.persistent_state.log = mismatch_log();
    let mut expected = create_state(follower());
    expected.persistent_state.log = log();
    expected.persistent_state.voted_for = Some(server(0));
    expected.volitile_state.commit_index = 3;
    expected.state_machine.total = 14;
    run(state, insert(2), expected, vec![reverse_sender(insert_response(true))]);
}

#[test]
fn test_vote_old_term() {
    let state = create_state(follower());
    let expected = create_state(follower());
    run(state, set_term(vote(), 2), expected, vec![reverse_sender(vote_response(false))]);
}

#[test]
fn test_vote_shorter_log_larger_last_term() {
    let state = create_state(follower());
    let expected = create_state(follower());
    run(state, vote_with(4, 2), expected, vec![reverse_sender(vote_response(false))]);
}

#[test]
fn test_vote_same_log_length_older_term() {
    let state = create_state(follower());
    let expected = create_state(follower());
    run(state, vote_with(2, 3), expected, vec![reverse_sender(vote_response(false))]);
}

#[test]
fn test_vote_same_log_length_same_term() {
    let state = create_state(follower());
    let mut expected = create_state(follower());
    expected.persistent_state.voted_for = Some(server(0));
    run(state, vote(), expected, vec![reverse_sender(vote_response(true))]);
}

#[test]
fn test_vote_longer_log_length_older_term() {
    let state = create_state(follower());
    let mut expected = create_state(follower());
    expected.persistent_state.voted_for = Some(server(0));
    run(state, vote_with(2, 4), expected, vec![reverse_sender(vote_response(true))]);
}

#[test]
fn follower_test_client_request() {
    let mut state = create_state(follower());
    state.persistent_state.voted_for = Some(server(0));
    let mut expected = create_state(follower());
    expected.persistent_state.voted_for = Some(server(0));
    run(state, client_command(), expected, vec![client_response(Some(server(0)))]);
}

#[test]
fn test_client_request_no_leader() {
    let state = create_state(follower());
    let expected = create_state(follower());
    run(state, client_command(), expected, vec![client_response(None)]);
}

// Leader.

#[test]
fn leader_test_tick() {
    let state = create_state(base_leader(3, 2));
    let mut expected = create_state(base_leader(3, 2));
    expected.volitile_state = increment_tick(volitile_state());
    run(state, tick(), expected, mass_heartbeat(4));
}

#[test]
fn test_append_response_success() {
    let state = create_state(set_next_index(base_leader(3, 2), 0, 2));
    let expected = create_state(set_match_index(base_leader(3, 2), 0, 3));
    run(state, insert_response(true), expected, vec![]);
}

#[test]
fn test_append_response_succeeds_up_to_date() {
    let state = create_state(base_leader(3, 2));
    let expected = create_state(set_match_index(base_leader(3, 2), 0, 3));
    run(state, insert_response(true), expected, vec![]);
}

#[test]
fn test_append_response_fails() {
    let state = create_state(base_leader(3, 2));
    let expected = create_state(set_next_index(base_leader(3, 2), 0, 2));
    run(state, insert_response(false), expected, vec![]);
}

#[test]
fn leader_test_client_request() {
    let state = create_state(base_leader(3, 2));
    let mut expected = create_state(base_leader(3, 2));
    expected.persistent_state.log = log_with_client();
    run(state, client_command(), expected, vec![]);
}

// Every role.

#[test]
fn crash_takes_any_role_offline() {
    for role in [follower(), base_candidate(), base_leader(3, 2), offline()] {
        let state = create_state(role);
        let expected = create_state(offline());
        run(state, crash(), expected, vec![]);
    }
}
