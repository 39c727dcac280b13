use raft_async::raft::data::id_set::{IdMap, IdSet};
use raft_async::raft::data::persistent_state::{Config, Entry, LatestConfig, LogState, PersistentState};
use raft_async::raft::data::request::{ActiveConfig, Data, Event, Insert, Vote};
use raft_async::raft::data::volitile_state::VolitileState;
use raft_async::raft::machine::{DataGenerator, RandNum, Sum};
use raft_async::raft::server::raft_cluster::Id;
use raft_async::raft::state::state::StateMachine;

fn ids(xs: &[u32]) -> IdSet {
    let mut s = IdSet::new();
    for x in xs {
        s.insert(Id::new(*x));
    }
    s
}

fn raw(s: &IdSet) -> Vec<u32> {
    s.ids.iter().map(|id| id.id).collect()
}

fn config(xs: &[u32]) -> Config {
    Config { servers: ids(xs) }
}

fn state_with(log: Vec<Entry<u32>>) -> PersistentState<u32> {
    PersistentState { id: Id::new(1), current_term: 4, voted_for: None, log }
}

fn log() -> Vec<Entry<u32>> {
    vec![Entry::config(0, config(&[0, 1, 2, 3, 4])), Entry::command(1, 10), Entry::command(3, 4)]
}

#[test]
fn id_set_keeps_ids_sorted_and_unique() {
    let s = ids(&[4, 1, 3, 1, 0]);
    assert_eq!(raw(&s), vec![0, 1, 3, 4]);
    assert_eq!(s.len(), 4);
    assert!(s.contains(Id::new(3)));
    assert!(!s.contains(Id::new(2)));
    assert_eq!(raw(&s.union(&ids(&[2, 4, 9]))), vec![0, 1, 2, 3, 4, 9]);
    assert_eq!(s.count_common(&ids(&[1, 2, 4, 7])), 2);
    assert_eq!(ids(&[2, 1]), ids(&[1, 2]));
}

#[test]
fn id_map_insert_get_and_filter() {
    let keys = vec![Id::new(0), Id::new(2), Id::new(5)];
    let mut m = IdMap::from_keys(&keys, 3);
    assert_eq!(m.get(Id::new(2)), Some(3));
    assert_eq!(m.get(Id::new(1)), None);
    m.insert(Id::new(2), 7);
    m.insert(Id::new(1), 9);
    assert_eq!(m.get(Id::new(2)), Some(7));
    assert_eq!(m.get(Id::new(1)), Some(9));
    assert_eq!(m.entries.iter().map(|(k, _)| k.id).collect::<Vec<_>>(), vec![0, 1, 2, 5]);
    assert_eq!(raw(&m.keys_at_least(7)), vec![1, 2]);
}

#[test]
fn config_quorum_is_a_strict_majority() {
    let c = config(&[0, 1, 2, 3, 4]);
    assert!(!c.has_quorum(&ids(&[0, 1])));
    assert!(c.has_quorum(&ids(&[0, 1, 2])));
    assert!(!c.has_quorum(&ids(&[0, 1, 7, 8, 9])));
    let even = config(&[0, 1, 2, 3]);
    assert!(!even.has_quorum(&ids(&[0, 1])));
    assert!(even.has_quorum(&ids(&[0, 1, 2])));
}

#[test]
fn transition_needs_both_quorums() {
    let t = ActiveConfig::Transition { prev: config(&[0, 1, 2, 3, 4]), new: config(&[2, 3, 4, 5, 6]) };
    assert_eq!(raw(&t.servers()), vec![0, 1, 2, 3, 4, 5, 6]);
    assert!(!t.has_quorum(&ids(&[0, 1, 2])));
    assert!(t.has_quorum(&ids(&[0, 1, 2, 3, 4])));
    let latest = LatestConfig { config: t, committed: true };
    assert_eq!(raw(&latest.servers()), vec![0, 1, 2, 3, 4, 5, 6]);
}

#[test]
fn latest_config_reads_the_last_two_configurations() {
    let mut log = log();
    log.push(Entry {
        term: 4,
        data: Data::Config(ActiveConfig::Transition {
            prev: config(&[0, 1, 2, 3, 4]),
            new: config(&[2, 3, 4, 5, 6]),
        }),
    });
    let ps = state_with(log);
    let (prev, latest) = ps.latest_config(2);
    assert!(!latest.committed);
    assert_eq!(raw(&latest.servers()), vec![0, 1, 2, 3, 4, 5, 6]);
    let prev = prev.unwrap();
    assert!(prev.committed);
    assert_eq!(raw(&prev.servers()), vec![0, 1, 2, 3, 4]);
    // The move is not committed, so the old servers decide, and the servers of both
    // sets are talked to.
    assert!(ps.has_quorum(2, &ids(&[0, 1, 2])));
    assert!(!ps.has_quorum(5, &ids(&[0, 1, 2])));
    assert_eq!(raw(&ps.servers(2)), vec![0, 1, 2, 3, 4, 5, 6]);
    assert_eq!(
        ps.other_servers(2).iter().map(|id| id.id).collect::<Vec<_>>(),
        vec![0, 2, 3, 4, 5, 6]
    );
}

#[test]
fn stable_config_not_yet_committed_talks_to_the_previous_one() {
    let mut log = log();
    log.push(Entry::config(4, config(&[1, 7])));
    let ps = state_with(log);
    assert_eq!(raw(&ps.servers(2)), vec![0, 1, 2, 3, 4]);
    assert_eq!(raw(&ps.servers(9)), vec![1, 7]);
    assert!(ps.latest_config(0).0.is_some());
    assert!(state_with(vec![Entry::command(1, 3), Entry::config(0, config(&[1]))])
        .latest_config(0)
        .0
        .is_none());
}

#[test]
fn log_state_is_length_and_last_term() {
    let ps = state_with(log());
    assert_eq!(ps.log_state(), LogState { term: 3, length: 3 });
    assert_eq!(ps.log_state_at(0), Some(LogState { term: 0, length: 0 }));
    assert_eq!(ps.log_state_at(2), Some(LogState { term: 1, length: 2 }));
    assert_eq!(ps.log_state_at(4), None);
    assert_eq!(state_with(Vec::new()).log_state(), LogState { term: 0, length: 0 });
}

#[test]
fn push_appends_under_the_current_term() {
    let mut ps = state_with(log());
    ps.push(Data::Command(8));
    assert_eq!(ps.log.len(), 4);
    assert_eq!(ps.log[3], Entry::command(4, 8));
}

#[test]
fn insert_sends_one_entry_from_the_index() {
    let ps = state_with(log());
    let event: Event<u32, u32> = ps.insert(1, 1, 2);
    assert_eq!(
        event,
        Event::Insert(Insert {
            prev_log_state: LogState { term: 0, length: 1 },
            entries: vec![Entry::command(1, 10)],
            leader_commit: 2,
        })
    );
    let event: Event<u32, u32> = ps.insert(3, 1, 2);
    assert_eq!(
        event,
        Event::Insert(Insert {
            prev_log_state: LogState { term: 3, length: 3 },
            entries: Vec::new(),
            leader_commit: 2,
        })
    );
    let event: Event<u32, u32> = ps.insert(1, 5, 0);
    assert_eq!(
        event,
        Event::Insert(Insert {
            prev_log_state: LogState { term: 0, length: 1 },
            entries: vec![Entry::command(1, 10), Entry::command(3, 4)],
            leader_commit: 0,
        })
    );
}

fn insert_of(term: u32, length: usize, entries: Vec<Entry<u32>>) -> Insert<u32> {
    Insert { prev_log_state: LogState { term, length }, entries, leader_commit: 0 }
}

#[test]
fn try_insert_refuses_a_log_that_does_not_match() {
    let mut ps = state_with(log());
    assert!(!ps.try_insert(insert_of(3, 4, vec![Entry::command(4, 1)])));
    assert!(!ps.try_insert(insert_of(2, 3, vec![Entry::command(4, 1)])));
    assert_eq!(ps.log, log());
}

#[test]
fn try_insert_keeps_what_agrees_and_drops_what_conflicts() {
    // Same terms: overwritten in place, the rest kept.
    let mut ps = state_with(log());
    assert!(ps.try_insert(insert_of(0, 1, vec![Entry::command(1, 11)])));
    assert_eq!(ps.log, vec![Entry::config(0, config(&[0, 1, 2, 3, 4])), Entry::command(1, 11), Entry::command(3, 4)]);
    // A different term: the log is cut there.
    let mut ps = state_with(log());
    assert!(ps.try_insert(insert_of(0, 1, vec![Entry::command(2, 5)])));
    assert_eq!(ps.log, vec![Entry::config(0, config(&[0, 1, 2, 3, 4])), Entry::command(2, 5)]);
    // Past the end: appended.
    let mut ps = state_with(log());
    assert!(ps.try_insert(insert_of(3, 3, vec![Entry::command(4, 6), Entry::command(4, 7)])));
    assert_eq!(ps.log.len(), 5);
    assert_eq!(ps.log[4], Entry::command(4, 7));
}

#[test]
fn try_vote_for_keeps_its_vote() {
    let mut ps = state_with(log());
    assert!(!ps.try_vote_for(Vote { log_state: LogState { term: 3, length: 2 } }, Id::new(0)));
    assert_eq!(ps.voted_for, None);
    assert!(!ps.try_vote_for(Vote { log_state: LogState { term: 2, length: 3 } }, Id::new(0)));
    assert!(ps.try_vote_for(Vote { log_state: LogState { term: 3, length: 3 } }, Id::new(0)));
    assert_eq!(ps.voted_for, Some(Id::new(0)));
    assert!(!ps.try_vote_for(Vote { log_state: LogState { term: 9, length: 9 } }, Id::new(2)));
    assert!(ps.try_vote_for(Vote { log_state: LogState { term: 0, length: 0 } }, Id::new(0)));
    assert_eq!(ps.voted_for, Some(Id::new(0)));
}

#[test]
fn max_commit_index_is_bounded_by_what_was_sent() {
    assert_eq!(insert_of(3, 3, vec![Entry::command(4, 6)]).max_commit_index(), 0);
    let mut i = insert_of(3, 3, vec![Entry::command(4, 6)]);
    i.leader_commit = 9;
    assert_eq!(i.max_commit_index(), 4);
    i.leader_commit = 2;
    assert_eq!(i.max_commit_index(), 2);
}

#[test]
fn commit_applies_the_newly_committed_commands() {
    let ps = state_with(log());
    let mut vs = VolitileState { commit_index: 1, tick_since_start: 5 };
    let mut sm = Sum { total: 99 };
    assert!(vs.try_update_commit_index::<u32, u32, Sum>(&mut sm, &ps, 3));
    assert_eq!(vs, VolitileState { commit_index: 3, tick_since_start: 5 });
    assert_eq!(vs.get_commit_index(), 3);
    assert_eq!(sm, Sum { total: 113 });
    assert!(!vs.try_update_commit_index::<u32, u32, Sum>(&mut sm, &ps, 2));
    assert_eq!(vs.commit_index, 3);
    assert_eq!(sm.total, 113);
}

#[test]
fn commit_adds_to_what_the_machine_holds() {
    let ps = state_with(vec![Entry::command(1, 5)]);
    let mut vs = VolitileState { commit_index: 0, tick_since_start: 0 };
    let mut sm = Sum { total: 7 };
    assert!(vs.try_update_commit_index::<u32, u32, Sum>(&mut sm, &ps, 1));
    assert_eq!(sm.total, 12);
}

#[test]
fn try_insert_refuses_a_start_far_past_the_log() {
    let mut ps = state_with(log());
    assert!(!ps.try_insert(insert_of(3, usize::MAX, vec![Entry::command(4, 1)])));
    assert_eq!(ps.log, log());
}

#[test]
fn sum_adds_commands_and_wraps() {
    let mut sm = Sum::fresh();
    sm.apply(5);
    sm.apply(7);
    assert_eq!(sm.get(), 12);
    sm.apply(u32::MAX);
    assert_eq!(sm.get(), 11);
}

#[test]
fn rand_num_makes_commands_from_1_to_4() {
    let g = RandNum {};
    let mut seen = [false; 5];
    for _ in 0..400 {
        let n = g.gen();
        assert!((1..5).contains(&n));
        seen[n as usize] = true;
    }
    assert!(seen[1..].iter().filter(|b| **b).count() > 1);
}
