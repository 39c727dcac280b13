use vstd::prelude::*;

use crate::raft::data::persistent_state::{
    EntryView, PersistentStateView, appended, is_config, last_config_before, log_state_at_spec,
    quorum_config, vote_granted,
};
use crate::raft::data::request::{
    ActiveConfigView, EventView, RequestView, Vote, VoteResponse, active_quorum, active_servers,
    quorum,
};
use crate::raft::data::volitile_state::{lemma_replay_concat, replay};
use crate::raft::raft_request::{RaftRequest, RequestType};
use crate::raft::raft_server::{RaftResponse, RoleView, ServerView, server_handle};
use crate::raft::state::concrete::offline::TICK_TO_REBOOT;
use crate::raft::server::raft_cluster::Id;
use crate::raft::state::raft_state::RaftStateView;
use crate::raft::state::state::{StateMachine, StateView, state_step};

verus! {

broadcast use vstd::set::group_set_axioms;

/// Any two majorities of the same finite set of servers have a server in common.
pub proof fn lemma_quorums_intersect(servers: Set<Id>, a: Set<Id>, b: Set<Id>)
    requires
        servers.finite(),
        quorum(servers, a),
        quorum(servers, b),
    ensures
        exists|x: Id| servers.contains(x) && a.contains(x) && b.contains(x),
{
    let x = servers.intersect(a);
    let y = servers.intersect(b);
    vstd::set_lib::lemma_len_subset(x, servers);
    vstd::set_lib::lemma_len_subset(y, servers);
    assert((x + y).subset_of(servers));
    vstd::set_lib::lemma_len_subset(x + y, servers);
    vstd::set_lib::lemma_set_intersect_union_lens(x, y);
    assert(x.intersect(y).len() > 0);
    if x.intersect(y) =~= Set::<Id>::empty() {
        assert(x.intersect(y).len() == 0);
    }
    let w = x.intersect(y).choose();
    assert(x.intersect(y).contains(w));
}

/// Any two quorums of the same configuration have a server of it in common; while a
/// configuration moves, they share a server of the old set and one of the new.
pub proof fn lemma_active_quorums_intersect(config: ActiveConfigView, a: Set<Id>, b: Set<Id>)
    requires
        active_servers(config).finite(),
        active_quorum(config, a),
        active_quorum(config, b),
    ensures
        exists|x: Id| active_servers(config).contains(x) && a.contains(x) && b.contains(x),
{
    match config {
        ActiveConfigView::Stable(s) => {
            lemma_quorums_intersect(s, a, b);
        },
        ActiveConfigView::Transition { prev, new } => {
            vstd::set_lib::lemma_set_union_finite_implies_sets_finite(prev, new);
            lemma_quorums_intersect(prev, a, b);
            let x = choose|x: Id| prev.contains(x) && a.contains(x) && b.contains(x);
            assert(active_servers(config).contains(x));
        },
    }
}

/// Adding votes never loses a majority.
pub proof fn lemma_quorum_monotone(servers: Set<Id>, a: Set<Id>, b: Set<Id>)
    requires
        servers.finite(),
        a.subset_of(b),
        quorum(servers, a),
    ensures
        quorum(servers, b),
{
    assert(servers.intersect(a).subset_of(servers.intersect(b)));
    vstd::set_lib::lemma_len_subset(servers.intersect(b), servers);
    vstd::set_lib::lemma_len_subset(servers.intersect(a), servers.intersect(b));
}

/// Once a server has granted its vote to `a`, it grants it to no one else: a later
/// request from `b` is granted only if `b` is `a`.
pub proof fn lemma_single_vote<T>(ps: PersistentStateView<T>, first: Vote, a: Id, second: Vote, b: Id)
    requires
        vote_granted(ps, first, a),
        vote_granted(PersistentStateView { voted_for: Some(a), ..ps }, second, b),
    ensures
        a == b,
{
}

/// After a successful insert, the log agrees with the leader's: it is unchanged before
/// the insert point, and holds the leader's entries right after it.
pub proof fn lemma_insert_matches_leader<T>(
    log: Seq<EntryView<T>>,
    start: int,
    entries: Seq<EntryView<T>>,
)
    requires
        0 <= start <= log.len(),
    ensures
        appended(log, start, entries).len() >= start + entries.len(),
        appended(log, start, entries).take(start) == log.take(start),
        appended(log, start, entries).subrange(start, start + entries.len()) == entries,
{
    let r = appended(log, start, entries);
    assert(r.take(start) =~= log.take(start));
    assert(r.subrange(start, start + entries.len()) =~= entries);
}

/// Receiving the same insert a second time changes nothing: it succeeds again and
/// leaves the log as the first one did.
pub proof fn lemma_insert_idempotent<T>(
    log: Seq<EntryView<T>>,
    start: int,
    entries: Seq<EntryView<T>>,
)
    requires
        0 <= start <= log.len(),
    ensures
        log_state_at_spec(appended(log, start, entries), start) == log_state_at_spec(log, start),
        appended(appended(log, start, entries), start, entries) == appended(log, start, entries),
{
    let r = appended(log, start, entries);
    lemma_insert_matches_leader(log, start, entries);
    if start > 0 {
        assert(r[start - 1] == r.take(start)[start - 1]);
        assert(log[start - 1] == log.take(start)[start - 1]);
    }
    assert(!crate::raft::data::persistent_state::conflicts(
        r,
        start,
        entries,
        entries.len() as int,
    )) by {
        assert forall|j: int| 0 <= j < entries.len() && start + j < r.len() implies #[trigger] r[start
            + j].term == entries[j].term by {
            assert(r[start + j] == r.subrange(start, start + entries.len())[j]);
        }
    }
    let rr = appended(r, start, entries);
    if start + entries.len() >= r.len() {
        assert(rr =~= r);
    } else {
        assert(rr =~= r);
    }
}

/// A server that is up and gets a request of a later term handles it exactly as a
/// follower in that term that has given no vote would; it is then in that term or a
/// later one.
pub proof fn lemma_later_term_makes_follower<T, Output, SM: StateMachine<T, Output>>(
    s: StateView<T, SM>,
    req: RequestView<T, Output>,
)
    requires
        !(s.raft_state is Offline),
        req.term > s.persistent_state.current_term,
    ensures
        state_step(s, req) == state_step(
            StateView {
                raft_state: RaftStateView::Follower,
                persistent_state: PersistentStateView {
                    current_term: req.term,
                    voted_for: None,
                    ..s.persistent_state
                },
                ..s
            },
            req,
        ),
        state_step(s, req) is Some ==> state_step(s, req)->Some_0.1.persistent_state.current_term
            >= req.term,
{
    let f = StateView {
        raft_state: RaftStateView::Follower,
        persistent_state: PersistentStateView {
            current_term: req.term,
            voted_for: None,
            ..s.persistent_state
        },
        ..s
    };
    if state_step(f, req) is Some {
        lemma_term_monotone(f, req);
    }
}

/// A server's term never goes down.
pub proof fn lemma_term_monotone<T, Output, SM: StateMachine<T, Output>>(
    s: StateView<T, SM>,
    req: RequestView<T, Output>,
)
    requires
        state_step(s, req) is Some,
    ensures
        state_step(s, req)->Some_0.1.persistent_state.current_term
            >= s.persistent_state.current_term,
{
}

/// While a server is up, its commit index never goes down, and the state machine
/// changes only when it moves: then the commands of the newly committed entries, in
/// the log as it now stands, are applied to it in order.
pub proof fn lemma_commit_monotone<T, Output, SM: StateMachine<T, Output>>(
    s: StateView<T, SM>,
    req: RequestView<T, Output>,
)
    requires
        state_step(s, req) is Some,
        !(s.raft_state is Offline),
    ensures
        ({
            let t = state_step(s, req)->Some_0.1;
            let (from, to) = (s.volitile_state.commit_index, t.volitile_state.commit_index);
            &&& to >= from
            &&& to != from ==> to <= t.persistent_state.log.len() && t.state_machine == replay::<
                T,
                Output,
                SM,
            >(s.state_machine, t.persistent_state.log.subrange(from as int, to as int))
            &&& to == from ==> t.state_machine == s.state_machine
        }),
{
}

/// A server that is up and whose state machine holds what the commands of its
/// committed log give keeps it so, as long as the step leaves the committed entries
/// in place.
pub proof fn lemma_machine_follows_committed_log<T, Output, SM: StateMachine<T, Output>>(
    s: StateView<T, SM>,
    req: RequestView<T, Output>,
)
    requires
        state_step(s, req) is Some,
        !(s.raft_state is Offline),
        s.volitile_state.commit_index <= s.persistent_state.log.len(),
        s.state_machine == replay::<T, Output, SM>(
            SM::initial(),
            s.persistent_state.log.take(s.volitile_state.commit_index as int),
        ),
        ({
            let t = state_step(s, req)->Some_0.1;
            &&& s.volitile_state.commit_index <= t.persistent_state.log.len()
            &&& t.persistent_state.log.take(s.volitile_state.commit_index as int)
                == s.persistent_state.log.take(s.volitile_state.commit_index as int)
        }),
    ensures
        ({
            let t = state_step(s, req)->Some_0.1;
            t.state_machine == replay::<T, Output, SM>(
                SM::initial(),
                t.persistent_state.log.take(t.volitile_state.commit_index as int),
            )
        }),
{
    let t = state_step(s, req)->Some_0.1;
    let from = s.volitile_state.commit_index as int;
    let to = t.volitile_state.commit_index as int;
    lemma_commit_monotone(s, req);
    if to != from {
        let log = t.persistent_state.log;
        lemma_replay_concat::<T, Output, SM>(SM::initial(), log.take(from), log.subrange(from, to));
        assert(log.take(from) + log.subrange(from, to) =~= log.take(to));
    }
}

/// A candidate becomes leader only on a vote that completes a quorum of its votes.
pub proof fn lemma_leader_has_quorum<T, Output, SM: StateMachine<T, Output>>(
    s: StateView<T, SM>,
    req: RequestView<T, Output>,
)
    requires
        s.raft_state is Candidate,
        req.term <= s.persistent_state.current_term,
        state_step(s, req) is Some,
        state_step(s, req)->Some_0.1.raft_state is Leader,
    ensures
        req.event is VoteResponse,
        active_quorum(
            quorum_config(s.persistent_state.log, s.volitile_state.commit_index as int),
            if req.event->VoteResponse_0.success {
                s.raft_state->votes.insert(req.sender)
            } else {
                s.raft_state->votes
            },
        ),
{
}

/// A server that is not a follower, and is not made one by a later term, never drops
/// or changes an entry of its log: at most it appends.
pub proof fn lemma_log_only_grows_outside_followers<T, Output, SM: StateMachine<T, Output>>(
    s: StateView<T, SM>,
    req: RequestView<T, Output>,
)
    requires
        !(s.raft_state is Follower),
        req.term <= s.persistent_state.current_term || s.raft_state is Offline,
        state_step(s, req) is Some,
    ensures
        ({
            let log = s.persistent_state.log;
            let next = state_step(s, req)->Some_0.1.persistent_state.log;
            next.len() >= log.len() && next.take(log.len() as int) == log
        }),
{
    let log = s.persistent_state.log;
    let next = state_step(s, req)->Some_0.1.persistent_state.log;
    assert(next.take(log.len() as int) =~= log);
}

/// A crash takes a server offline whatever its role, sends nothing, and changes
/// nothing else.
pub proof fn lemma_crash<T, Output, SM: StateMachine<T, Output>>(
    s: StateView<T, SM>,
    req: RequestView<T, Output>,
)
    requires
        req.event is Crash,
        req.term <= s.persistent_state.current_term,
    ensures
        state_step(s, req) == Some(
            (
                Seq::<RequestView<T, Output>>::empty(),
                StateView { raft_state: RaftStateView::Offline, ..s },
            ),
        ),
{
}

/// A crashed server comes back only on a tick, once `TICK_TO_REBOOT` ticks have been
/// counted, and then as a follower that has withdrawn its vote.
pub proof fn lemma_restart_after_ticks<T, Output, SM: StateMachine<T, Output>>(
    s: StateView<T, SM>,
    req: RequestView<T, Output>,
)
    requires
        s.raft_state is Offline,
        state_step(s, req) is Some,
        !(state_step(s, req)->Some_0.1.raft_state is Offline),
    ensures
        req.event is Tick,
        s.volitile_state.tick_since_start + 1 >= TICK_TO_REBOOT,
        state_step(s, req)->Some_0.1.raft_state is Follower,
        state_step(s, req)->Some_0.1.persistent_state.voted_for is None,
{
}

/// In the first design too, a server's term never goes down.
pub proof fn lemma_server_term_monotone<D>(s: ServerView<D>, req: RaftRequest<D>, servers: Seq<u32>)
    requires
        server_handle(s, req, servers) is Some,
    ensures
        server_handle(s, req, servers)->Some_0.0.current_term >= s.current_term,
{
}

/// In the first design, a follower that has voted in its term votes for no one else
/// in that term.
pub proof fn lemma_server_single_vote<D>(
    s: ServerView<D>,
    req: RaftRequest<D>,
    servers: Seq<u32>,
    voted: u32,
)
    requires
        s.voted_for == Some(voted),
        req.term <= s.current_term,
        req.request is Vote,
        server_handle(s, req, servers) is Some,
        server_handle(s, req, servers)->Some_0.1 matches Some(
            RaftResponse::Target { response: RaftRequest { request: RequestType::VoteResponse { vote: true }, .. }, .. },
        ),
    ensures
        req.sender == voted,
        server_handle(s, req, servers)->Some_0.0.voted_for == Some(voted),
{
}

/// A server never commits past what the leader reports committed: after an insert its
/// commit index is at most the larger of its own and the insert's `leader_commit`; and
/// where it moves, it moves to the leader's commit index, or to the end of the entries
/// the insert carries where that comes first.
pub proof fn lemma_insert_commits_no_further_than_leader<T, Output, SM: StateMachine<T, Output>>(
    s: StateView<T, SM>,
    req: RequestView<T, Output>,
)
    requires
        req.event is Insert,
        state_step(s, req) is Some,
    ensures
        ({
            let c = state_step(s, req)->Some_0.1.volitile_state.commit_index;
            let ev = req.event->Insert_0;
            let end = ev.prev_log_state.length + ev.entries.len();
            &&& c <= s.volitile_state.commit_index || c <= ev.leader_commit
            &&& c != s.volitile_state.commit_index ==> c == (if ev.leader_commit < end {
                ev.leader_commit as int
            } else {
                end
            })
        }),
{
}

/// A leader commits only what a quorum holds: when an answer moves its commit index,
/// the servers whose match index reaches the new commit index form a quorum of the
/// configuration in force, and the new commit index lies within its log.
pub proof fn lemma_leader_commits_only_quorum_matched<T, Output, SM: StateMachine<T, Output>>(
    s: StateView<T, SM>,
    req: RequestView<T, Output>,
)
    requires
        s.raft_state is Leader,
        req.term <= s.persistent_state.current_term,
        state_step(s, req) is Some,
        state_step(s, req)->Some_0.1.volitile_state.commit_index != s.volitile_state.commit_index,
    ensures
        ({
            let t = state_step(s, req)->Some_0.1;
            let c = t.volitile_state.commit_index;
            &&& req.event is InsertResponse
            &&& t.raft_state is Leader
            &&& c <= t.persistent_state.log.len()
            &&& active_quorum(
                quorum_config(s.persistent_state.log, s.volitile_state.commit_index as int),
                Set::new(
                    |k: Id|
                        t.raft_state->match_index.contains_key(k) && t.raft_state->match_index[k]
                            >= c,
                ),
            )
        }),
{
}

/// The last configuration entry of `log` stands at `i`.
pub open spec fn last_config_at<T>(log: Seq<EntryView<T>>, i: int) -> bool {
    &&& 0 <= i < log.len()
    &&& is_config(log[i])
    &&& forall|j: int| i < j < log.len() ==> !is_config(#[trigger] log[j])
}

proof fn lemma_last_config_at<T>(log: Seq<EntryView<T>>, i: int, end: int)
    requires
        last_config_at(log, i),
        i < end <= log.len(),
    ensures
        last_config_before(log, end) == Some(i),
    decreases end,
{
    if end - 1 > i {
        assert(!is_config(log[end - 1]));
        lemma_last_config_at(log, i, end - 1);
    }
}

/// A leader whose log ends, in configurations, with a committed one that leaves it
/// out steps down on its next tick and sends nothing.
pub proof fn lemma_leader_left_out_steps_down<T, Output, SM: StateMachine<T, Output>>(
    s: StateView<T, SM>,
    req: RequestView<T, Output>,
    i: int,
)
    requires
        s.raft_state is Leader,
        req.event is Tick,
        req.term <= s.persistent_state.current_term,
        state_step(s, req) is Some,
        last_config_at(s.persistent_state.log, i),
        i < s.volitile_state.commit_index,
        !active_servers(s.persistent_state.log[i].data->Config_0).contains(s.persistent_state.id),
    ensures
        state_step(s, req)->Some_0.1.raft_state is Follower,
        state_step(s, req)->Some_0.0 == Seq::<RequestView<T, Output>>::empty(),
{
    lemma_last_config_at(s.persistent_state.log, i, s.persistent_state.log.len() as int);
}

/// A leader that stays leader on a tick sends each server it talks to the entry at
/// that server's next index, after the log state before it and with the commit index;
/// a server already at the end of the log gets no entry.
pub proof fn lemma_heartbeat_carries_next_entry<T, Output, SM: StateMachine<T, Output>>(
    s: StateView<T, SM>,
    req: RequestView<T, Output>,
)
    requires
        s.raft_state is Leader,
        req.event is Tick,
        req.term <= s.persistent_state.current_term,
        state_step(s, req) is Some,
        state_step(s, req)->Some_0.1.raft_state is Leader,
    ensures
        ({
            let (sent, t) = state_step(s, req)->Some_0;
            let log = t.persistent_state.log;
            forall|i: int|
                0 <= i < sent.len() ==> {
                    let r = #[trigger] sent[i];
                    let k = t.raft_state->next_index[r.reciever] as int;
                    &&& r.term == t.persistent_state.current_term
                    &&& r.sender == t.persistent_state.id
                    &&& r.event is Insert
                    &&& r.event->Insert_0.leader_commit == t.volitile_state.commit_index
                    &&& r.event->Insert_0.prev_log_state.length == k
                    &&& (k > 0 ==> r.event->Insert_0.prev_log_state.term == log[k - 1].term)
                    &&& (k < log.len() ==> r.event->Insert_0.entries == seq![log[k]])
                    &&& (k == log.len() ==> r.event->Insert_0.entries.len() == 0)
                }
        }),
{
    let (sent, t) = state_step(s, req)->Some_0;
    let log = t.persistent_state.log;
    assert forall|i: int| 0 <= i < sent.len() implies {
        let r = #[trigger] sent[i];
        let k = t.raft_state->next_index[r.reciever] as int;
        &&& r.term == t.persistent_state.current_term
        &&& r.sender == t.persistent_state.id
        &&& r.event is Insert
        &&& r.event->Insert_0.leader_commit == t.volitile_state.commit_index
        &&& r.event->Insert_0.prev_log_state.length == k
        &&& (k > 0 ==> r.event->Insert_0.prev_log_state.term == log[k - 1].term)
        &&& (k < log.len() ==> r.event->Insert_0.entries == seq![log[k]])
        &&& (k == log.len() ==> r.event->Insert_0.entries.len() == 0)
    } by {
        let r = sent[i];
        let k = t.raft_state->next_index[r.reciever] as int;
        if k < log.len() {
            assert(r.event->Insert_0.entries =~= seq![log[k]]);
        }
    }
}

/// In the first design, a follower never commits past what the leader reports: after
/// an append its commit index is at most the larger of its own and the request's; and
/// where it moves, it moves to the request's commit index, or to the length of the log
/// the leader vouched for where that comes first. (A request of a later term first
/// resets the commit index to 0.)
pub proof fn lemma_server_append_commits_no_further_than_leader<D>(
    s: ServerView<D>,
    req: RaftRequest<D>,
    servers: Seq<u32>,
)
    requires
        s.state is Follower,
        req.request is Append,
        server_handle(s, req, servers) is Some,
    ensures
        server_handle(s, req, servers)->Some_0.0.state is Follower,
        ({
            let t = server_handle(s, req, servers)->Some_0.0;
            let (old, new) = (
                s.state->Follower_volitile.commit_index,
                t.state->Follower_volitile.commit_index,
            );
            let (ci, len) = (req.request->commit_index, req.request->prev_length);
            let base = if req.term > s.current_term {
                0
            } else {
                old
            };
            &&& new <= old || new <= ci
            &&& new != base ==> new == (if ci < len {
                ci
            } else {
                len
            })
        }),
{
}

} // verus!
