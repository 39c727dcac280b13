use vstd::prelude::*;

use crate::raft::data::data_type::CommandType;
use crate::raft::data::id_set::{IdSet, ascending};
use crate::raft::data::request::{
    ActiveConfig, ActiveConfigView, Data, DataView, Event, EventView, Insert, InsertView, Vote,
    active_quorum, active_servers, quorum,
};
use crate::raft::server::raft_cluster::Id;

verus! {

broadcast use vstd::set::group_set_axioms, vstd::seq_lib::seq_to_set_is_finite;

/// A set of servers.
#[derive(Debug, PartialEq, Eq, Default)]
pub struct Config {
    pub servers: IdSet,
}

impl View for Config {
    type V = Set<Id>;

    open spec fn view(&self) -> Set<Id> {
        self.servers@
    }
}

impl Clone for Config {
    fn clone(&self) -> (r: Config)
        ensures
            r.servers.ids@ == self.servers.ids@,
    {
        Config { servers: self.servers.clone() }
    }
}

impl Config {
    pub open spec fn wf(&self) -> bool {
        self.servers.wf()
    }

    /// More than half of the servers are among `votes`.
    pub fn has_quorum(&self, votes: &IdSet) -> (r: bool)
        requires
            self.wf(),
        ensures
            r == quorum(self@, votes@),
    {
        self.servers.count_common(votes) >= self.servers.len() / 2 + 1
    }
}

/// An entry of the replicated log: the term in which a leader added it, and what it holds.
#[derive(Debug, PartialEq, Eq)]
pub struct Entry<T> {
    pub term: u32,
    pub data: Data<T>,
}

pub struct EntryView<T> {
    pub term: u32,
    pub data: DataView<T>,
}

impl<T> View for Entry<T> {
    type V = EntryView<T>;

    open spec fn view(&self) -> EntryView<T> {
        EntryView { term: self.term, data: self.data@ }
    }
}

pub open spec fn log_view<T>(log: Seq<Entry<T>>) -> Seq<EntryView<T>> {
    log.map_values(|e: Entry<T>| e@)
}

impl<T: CommandType> Clone for Entry<T> {
    fn clone(&self) -> (r: Entry<T>)
        ensures
            r@ == self@,
            self.wf() ==> r.wf(),
    {
        Entry { term: self.term, data: self.data.clone() }
    }
}

impl<T> Entry<T> {
    pub open spec fn wf(&self) -> bool {
        self.data.wf()
    }

    pub fn command(term: u32, data: T) -> (r: Self)
        ensures
            r@ == (EntryView { term, data: DataView::Command(data) }),
            r.wf(),
    {
        Entry { term, data: Data::Command(data) }
    }

    pub fn config(term: u32, config: Config) -> (r: Self)
        requires
            config.wf(),
        ensures
            r@ == (EntryView::<T> { term, data: DataView::Config(ActiveConfigView::Stable(config@)) }),
            r.wf(),
    {
        Entry { term, data: Data::Config(ActiveConfig::Stable(config)) }
    }

    pub fn is_config(&self) -> (r: bool)
        ensures
            r == is_config(self@),
    {
        match &self.data {
            Data::Config(_) => true,
            Data::Command(_) => false,
        }
    }
}

/// The length of a log and the term of its last entry (0 for an empty log).
#[derive(Clone, Copy, Debug, PartialEq, Eq, Structural)]
pub struct LogState {
    pub term: u32,
    pub length: usize,
}

/// A configuration entry of the log, and whether the commit index has passed it.
#[derive(Debug, PartialEq, Eq)]
pub struct LatestConfig {
    pub config: ActiveConfig,
    pub committed: bool,
}

pub struct LatestConfigView {
    pub config: ActiveConfigView,
    pub committed: bool,
}

impl View for LatestConfig {
    type V = LatestConfigView;

    open spec fn view(&self) -> LatestConfigView {
        LatestConfigView { config: self.config@, committed: self.committed }
    }
}

impl LatestConfig {
    pub open spec fn wf(&self) -> bool {
        self.config.wf()
    }

    pub fn servers(&self) -> (r: IdSet)
        requires
            self.wf(),
        ensures
            r.wf(),
            r@ == active_servers(self.config@),
    {
        self.config.servers()
    }
}

pub open spec fn is_config<T>(e: EntryView<T>) -> bool {
    e.data is Config
}

pub open spec fn config_of<T>(e: EntryView<T>) -> ActiveConfigView {
    e.data->Config_0
}

/// The position of the last configuration entry among the first `end` entries of `log`.
pub open spec fn last_config_before<T>(log: Seq<EntryView<T>>, end: int) -> Option<int>
    decreases end,
{
    if end <= 0 {
        None
    } else if is_config(log[end - 1]) {
        Some(end - 1)
    } else {
        last_config_before(log, end - 1)
    }
}

pub open spec fn has_config<T>(log: Seq<EntryView<T>>) -> bool {
    last_config_before(log, log.len() as int) is Some
}

pub open spec fn latest_at<T>(log: Seq<EntryView<T>>, i: int, commit_index: int) -> LatestConfigView {
    LatestConfigView { config: config_of(log[i]), committed: i < commit_index }
}

/// The last configuration entry of the log, and the one before it if there is one.
pub open spec fn latest_configs<T>(log: Seq<EntryView<T>>, commit_index: int) -> (
    Option<LatestConfigView>,
    LatestConfigView,
) {
    let n = last_config_before(log, log.len() as int)->Some_0;
    let prev = match last_config_before(log, n) {
        Some(p) => Some(latest_at(log, p, commit_index)),
        None => None,
    };
    (prev, latest_at(log, n, commit_index))
}

/// The configuration whose majorities count: the one before the last while the last
/// is not committed, and the last one otherwise.
pub open spec fn quorum_config<T>(log: Seq<EntryView<T>>, commit_index: int) -> ActiveConfigView {
    let (prev, latest) = latest_configs(log, commit_index);
    match prev {
        Some(p) => if p.committed && !latest.committed {
            p.config
        } else {
            latest.config
        },
        None => latest.config,
    }
}

/// The configuration whose servers a server talks to: while the last configuration
/// is not committed, the one before it if the last is stable, and the last one otherwise.
pub open spec fn serving_config<T>(log: Seq<EntryView<T>>, commit_index: int) -> ActiveConfigView {
    let (prev, latest) = latest_configs(log, commit_index);
    match prev {
        Some(p) => if !latest.committed && latest.config is Stable {
            p.config
        } else {
            latest.config
        },
        None => latest.config,
    }
}

pub open spec fn server_set<T>(log: Seq<EntryView<T>>, commit_index: int) -> Set<Id> {
    active_servers(serving_config(log, commit_index))
}

/// The log state after the first `length` entries of `log`, if the log is that long.
pub open spec fn log_state_at_spec<T>(log: Seq<EntryView<T>>, length: int) -> Option<LogState> {
    if length > log.len() || length < 0 {
        None
    } else {
        Some(
            LogState {
                term: if length == 0 {
                    0
                } else {
                    log[length - 1].term
                },
                length: length as usize,
            },
        )
    }
}

/// Some entry of `entries`, among the first `k`, disagrees in term with the entry
/// of `log` at the place where it is to go, `start` places further.
pub open spec fn conflicts<T>(
    log: Seq<EntryView<T>>,
    start: int,
    entries: Seq<EntryView<T>>,
    k: int,
) -> bool {
    exists|j: int|
        0 <= j < k && start + j < log.len() && #[trigger] log[start + j].term != entries[j].term
}

/// The log after `entries` are written after its first `start` entries: those that
/// agree in term overwrite what is there, and from the first that disagrees on, the
/// rest of the log gives way.
pub open spec fn appended<T>(log: Seq<EntryView<T>>, start: int, entries: Seq<EntryView<T>>) -> Seq<
    EntryView<T>,
> {
    if conflicts(log, start, entries, entries.len() as int) || start + entries.len() >= log.len() {
        log.take(start) + entries
    } else {
        log.take(start) + entries + log.skip(start + entries.len())
    }
}

/// What a server keeps across crashes: its id, its term, its vote and its log.
#[derive(Debug, PartialEq, Eq, Default)]
pub struct PersistentState<T> {
    pub id: Id,
    pub current_term: u32,
    pub voted_for: Option<Id>,
    pub log: Vec<Entry<T>>,
}

pub struct PersistentStateView<T> {
    pub id: Id,
    pub current_term: u32,
    pub voted_for: Option<Id>,
    pub log: Seq<EntryView<T>>,
}

impl<T> View for PersistentState<T> {
    type V = PersistentStateView<T>;

    open spec fn view(&self) -> PersistentStateView<T> {
        PersistentStateView {
            id: self.id,
            current_term: self.current_term,
            voted_for: self.voted_for,
            log: log_view(self.log@),
        }
    }
}

/// Copies the entries of `log`.
pub fn copy_entries<T: CommandType>(log: &Vec<Entry<T>>, from: usize, to: usize) -> (r: Vec<Entry<T>>)
    requires
        from <= to <= log.len(),
    ensures
        log_view(r@) == log_view(log@).subrange(from as int, to as int),
        (forall|i: int| 0 <= i < log.len() ==> #[trigger] log@[i].wf()) ==> (forall|i: int|
            0 <= i < r.len() ==> #[trigger] r@[i].wf()),
{
    let mut r: Vec<Entry<T>> = Vec::new();
    let mut i: usize = from;
    while i < to
        invariant
            from <= i <= to <= log.len(),
            r.len() == i - from,
            forall|j: int| 0 <= j < r.len() ==> #[trigger] r@[j]@ == log@[from + j]@,
            forall|j: int| 0 <= j < r.len() ==> log@[from + j].wf() ==> #[trigger] r@[j].wf(),
        decreases to - i,
    {
        r.push(log[i].clone());
        i += 1;
    }
    assert(log_view(r@) =~= log_view(log@).subrange(from as int, to as int));
    r
}

impl<T: CommandType> Clone for PersistentState<T> {
    fn clone(&self) -> (r: PersistentState<T>)
        ensures
            r@ == self@,
            self.wf() ==> r.wf(),
    {
        let log = copy_entries(&self.log, 0, self.log.len());
        assert(log_view(self.log@).subrange(0, self.log.len() as int) =~= log_view(self.log@));
        PersistentState {
            id: self.id,
            current_term: self.current_term,
            voted_for: self.voted_for,
            log,
        }
    }
}

proof fn lemma_last_config_step<T>(log: Seq<EntryView<T>>, end: int)
    requires
        0 < end,
        !is_config(log[end - 1]),
    ensures
        last_config_before(log, end) == last_config_before(log, end - 1),
{
}

proof fn lemma_last_config_found<T>(log: Seq<EntryView<T>>, end: int, k: int)
    requires
        last_config_before(log, end) == Some(k),
    ensures
        0 <= k < end,
        is_config(log[k]),
    decreases end,
{
    if end > 0 && !is_config(log[end - 1]) {
        lemma_last_config_found(log, end - 1, k);
    }
}

impl<T> PersistentState<T> {
    pub open spec fn wf(&self) -> bool {
        forall|i: int| 0 <= i < self.log.len() ==> #[trigger] self.log@[i].wf()
    }
}

impl<T: CommandType> PersistentState<T> {
    /// The configuration held by the entry at `i`.
    fn config_at(&self, i: usize) -> (r: ActiveConfig)
        requires
            self.wf(),
            i < self.log.len(),
            is_config(self@.log[i as int]),
        ensures
            r.wf(),
            r@ == config_of(self@.log[i as int]),
    {
        assert(self.log@[i as int].wf());
        match &self.log[i].data {
            Data::Config(config) => config.clone(),
            Data::Command(_) => {
                assert(false);
                ActiveConfig::Stable(Config { servers: IdSet::new() })
            },
        }
    }

    /// The position of the last configuration entry before position `end`, if any.
    fn last_config_before(&self, end: usize) -> (r: Option<usize>)
        requires
            end <= self.log.len(),
        ensures
            match r {
                Some(k) => last_config_before(self@.log, end as int) == Some(k as int),
                None => last_config_before(self@.log, end as int) is None,
            },
    {
        let mut i = end;
        while i > 0 && !self.log[i - 1].is_config()
            invariant
                i <= end <= self.log.len(),
                last_config_before(self@.log, end as int) == last_config_before(
                    self@.log,
                    i as int,
                ),
            decreases i,
        {
            proof {
                lemma_last_config_step(self@.log, i as int);
            }
            i -= 1;
        }
        if i == 0 {
            None
        } else {
            Some(i - 1)
        }
    }

    /// Whether the log holds a configuration entry.
    pub fn has_config(&self) -> (r: bool)
        ensures
            r == has_config(self@.log),
    {
        self.last_config_before(self.log.len()).is_some()
    }

    /// The last configuration entry of the log and the one before it, with whether
    /// `commit_index` has passed each.
    pub fn latest_config(&self, commit_index: usize) -> (r: (Option<LatestConfig>, LatestConfig))
        requires
            self.wf(),
            has_config(self@.log),
        ensures
            r.1.wf(),
            r.1@ == latest_configs(self@.log, commit_index as int).1,
            match r.0 {
                Some(p) => p.wf() && latest_configs(self@.log, commit_index as int).0 == Some(
                    p@,
                ),
                None => latest_configs(self@.log, commit_index as int).0 is None,
            },
    {
        let n = self.last_config_before(self.log.len()).unwrap();
        proof {
            lemma_last_config_found(self@.log, self.log.len() as int, n as int);
        }
        let latest = LatestConfig { config: self.config_at(n), committed: n < commit_index };
        let prev = match self.last_config_before(n) {
            Some(p) => {
                proof {
                    lemma_last_config_found(self@.log, n as int, p as int);
                }
                Some(LatestConfig { config: self.config_at(p), committed: p < commit_index })
            },
            None => None,
        };
        (prev, latest)
    }

    /// Whether `matching` is a quorum of the configuration in force.
    pub fn has_quorum(&self, commit_index: usize, matching: &IdSet) -> (r: bool)
        requires
            self.wf(),
            has_config(self@.log),
        ensures
            r == active_quorum(quorum_config(self@.log, commit_index as int), matching@),
    {
        let (prev, latest) = self.latest_config(commit_index);
        match prev {
            Some(p) => {
                if p.committed && !latest.committed {
                    p.config.has_quorum(matching)
                } else {
                    latest.config.has_quorum(matching)
                }
            },
            None => latest.config.has_quorum(matching),
        }
    }

    /// The servers of the configuration in force.
    pub fn servers(&self, commit_index: usize) -> (r: IdSet)
        requires
            self.wf(),
            has_config(self@.log),
        ensures
            r.wf(),
            r@ == server_set(self@.log, commit_index as int),
    {
        let (prev, latest) = self.latest_config(commit_index);
        match prev {
            Some(p) => {
                let stable = match &latest.config {
                    ActiveConfig::Stable(_) => true,
                    _ => false,
                };
                if !latest.committed && stable {
                    p.servers()
                } else {
                    latest.servers()
                }
            },
            None => latest.servers(),
        }
    }

    /// The servers of the configuration in force but this one, by increasing id.
    pub fn other_servers(&self, commit_index: usize) -> (r: Vec<Id>)
        requires
            self.wf(),
            has_config(self@.log),
        ensures
            ascending(r@),
            r@.to_set() == server_set(self@.log, commit_index as int).remove(self.id),
    {
        let servers = self.servers(commit_index);
        let mut r: Vec<Id> = Vec::new();
        let mut i: usize = 0;
        proof {
            assert(r@.to_set() =~= servers.ids@.take(0).to_set().remove(self.id));
        }
        while i < servers.ids.len()
            invariant
                i <= servers.ids.len(),
                servers.wf(),
                ascending(r@),
                forall|j: int, m: int|
                    0 <= j < r.len() && i <= m < servers.ids.len() ==> #[trigger] r@[j].id
                        < #[trigger] servers.ids@[m].id,
                r@.to_set() == servers.ids@.take(i as int).to_set().remove(self.id),
            decreases servers.ids.len() - i,
        {
            let x = servers.ids[i];
            let ghost before = r@;
            proof {
                assert(servers.ids@.take(i + 1) =~= servers.ids@.take(i as int).push(x));
                servers.ids@.take(i as int).lemma_push_to_set_commute(x);
            }
            if x != self.id {
                r.push(x);
                proof {
                    before.lemma_push_to_set_commute(x);
                    assert(r@.to_set() =~= servers.ids@.take(i + 1).to_set().remove(self.id));
                    assert forall|a: int, b: int| 0 <= a < b < r.len() implies r@[a].id
                        < r@[b].id by {
                        if b == r.len() - 1 {
                            assert(before[a].id < servers.ids@[i as int].id);
                        } else {
                            assert(before[a].id < before[b].id);
                        }
                    }
                    assert forall|j: int, m: int|
                        0 <= j < r.len() && i + 1 <= m < servers.ids.len() implies #[trigger] r@[j].id
                        < #[trigger] servers.ids@[m].id by {
                        if j < before.len() {
                            assert(before[j].id < servers.ids@[m].id);
                        } else {
                            assert(servers.ids@[i as int].id < servers.ids@[m].id);
                        }
                    }
                }
            } else {
                assert(r@.to_set() =~= servers.ids@.take(i + 1).to_set().remove(self.id));
            }
            i += 1;
        }
        assert(servers.ids@.take(i as int) =~= servers.ids@);
        r
    }

    /// Appends `data` to the log under the current term.
    pub fn push(&mut self, data: Data<T>)
        requires
            old(self).wf(),
            data.wf(),
        ensures
            final(self).wf(),
            final(self)@ == (PersistentStateView {
                log: old(self)@.log.push(EntryView { term: old(self).current_term, data: data@ }),
                ..old(self)@
            }),
    {
        let term = self.current_term;
        self.log.push(Entry { term, data });
        assert(self@.log =~= old(self)@.log.push(EntryView { term, data: data@ }));
    }

    /// The request that brings a follower whose log should continue at `index` up to
    /// date: at most `max_length` entries from there, the log state before them, and
    /// the commit index.
    pub fn insert<Output>(&self, index: usize, max_length: usize, commit_index: usize) -> (r: Event<
        T,
        Output,
    >)
        requires
            self.wf(),
            index <= self.log.len(),
            index < self.log.len() ==> index + max_length <= usize::MAX,
        ensures
            r.wf(),
            r@ == EventView::<T, Output>::Insert(
                insert_view(self@.log, index as int, max_length as int, commit_index),
            ),
    {
        let entries = if index < self.log.len() {
            let end = if index + max_length < self.log.len() {
                index + max_length
            } else {
                self.log.len()
            };
            copy_entries(&self.log, index, end)
        } else {
            let e: Vec<Entry<T>> = Vec::new();
            assert(log_view(e@) =~= Seq::empty());
            e
        };
        Event::Insert(
            Insert {
                prev_log_state: self.log_state_at(index).unwrap(),
                entries,
                leader_commit: commit_index,
            },
        )
    }

    /// Writes the entries of `event` after the first `event.prev_log_state.length`
    /// entries, if the log agrees with the leader's up to there.
    pub fn try_insert(&mut self, event: Insert<T>) -> (r: bool)
        requires
            old(self).wf(),
            event.wf(),
        ensures
            final(self).wf(),
            r == (log_state_at_spec(old(self)@.log, event.prev_log_state.length as int) == Some(
                event.prev_log_state,
            )),
            final(self)@ == (PersistentStateView {
                log: if r {
                    appended(old(self)@.log, event.prev_log_state.length as int, event@.entries)
                } else {
                    old(self)@.log
                },
                ..old(self)@
            }),
    {
        let log_state = self.log_state_at(event.prev_log_state.length);
        if log_state.is_none() {
            return false;
        } else if !(log_state.unwrap() == event.prev_log_state) {
            return false;
        }
        let ghost log0 = self@.log;
        let ghost entries = event@.entries;
        let start = event.prev_log_state.length;
        let n = event.entries.len();
        let mut k: usize = 0;
        while k < n
            invariant
                k <= n == event.entries.len(),
                start <= log0.len(),
                start + k <= self.log.len(),
                event.wf(),
                entries == event@.entries,
                self.wf(),
                self.id == old(self).id,
                self.current_term == old(self).current_term,
                self.voted_for == old(self).voted_for,
                self@.log == (if conflicts(log0, start as int, entries, k as int) || start + k
                    >= log0.len() {
                    log0.take(start as int) + entries.take(k as int)
                } else {
                    log0.take(start as int) + entries.take(k as int) + log0.skip(start + k)
                }),
            decreases n - k,
        {
            let entry = event.entries[k].clone();
            let log_index = start + k;
            let ghost before = self@.log;
            let ghost ev = entry@;
            let ghost was_open = !conflicts(log0, start as int, entries, k as int) && start + k
                < log0.len();
            proof {
                assert(entries[k as int] == entry@);
                assert(log0.take(start as int).len() == start);
                assert(entries.take(k as int).len() == k);
                if was_open {
                    assert(before.len() == log0.len());
                    assert(before[log_index as int] == log0[log_index as int]);
                } else {
                    assert(before.len() == log_index);
                }
            }
            if self.log.len() > log_index && self.log[log_index].term != entry.term {
                proof {
                    assert(was_open);
                    assert(self@.log[log_index as int] == self.log@[log_index as int]@);
                    assert(log0[start + k].term != entries[k as int].term);
                    assert(conflicts(log0, start as int, entries, k + 1));
                    assert(before.take(log_index as int) =~= log0.take(start as int) + entries.take(
                        k as int,
                    ));
                }
                self.log.truncate(log_index);
                proof {
                    assert(self@.log =~= before.take(log_index as int));
                }
                let ghost mid = self@.log;
                self.log.push(entry);
                k += 1;
                proof {
                    assert(self@.log =~= mid.push(ev));
                    assert(entries.take(k as int) =~= entries.take(k - 1).push(ev));
                    assert(self@.log =~= log0.take(start as int) + entries.take(k as int));
                }
            } else if self.log.len() > log_index {
                self.log.set(log_index, entry);
                proof {
                    assert(!conflicts(log0, start as int, entries, k + 1)) by {
                        if conflicts(log0, start as int, entries, k + 1) {
                            let j = choose|j: int|
                                0 <= j < k + 1 && start + j < log0.len() && #[trigger] log0[start
                                    + j].term != entries[j].term;
                            assert(j == k);
                        }
                    }
                }
                k += 1;
                proof {
                    assert(self@.log =~= before.update(log_index as int, ev));
                    assert(entries.take(k as int) =~= entries.take(k - 1).push(ev));
                    if start + k >= log0.len() {
                        assert(self@.log =~= log0.take(start as int) + entries.take(k as int));
                    } else {
                        assert(self@.log =~= log0.take(start as int) + entries.take(k as int)
                            + log0.skip(start + k));
                    }
                }
            } else {
                self.log.push(entry);
                proof {
                    if conflicts(log0, start as int, entries, k as int) {
                        assert(conflicts(log0, start as int, entries, k + 1));
                    }
                }
                k += 1;
                proof {
                    assert(self@.log =~= before.push(ev));
                    assert(entries.take(k as int) =~= entries.take(k - 1).push(ev));
                    assert(self@.log =~= log0.take(start as int) + entries.take(k as int));
                }
            }
        }
        proof {
            assert(entries.take(n as int) =~= entries);
        }
        true
    }

    /// Gives this server's vote to `id` for the current term, if it has not voted
    /// for someone else and the candidate's log is at least as up to date.
    pub fn try_vote_for(&mut self, event: Vote, id: Id) -> (r: bool)
        ensures
            final(self).wf() == old(self).wf(),
            r == vote_granted(old(self)@, event, id),
            final(self)@ == (PersistentStateView {
                voted_for: if r {
                    Some(id)
                } else {
                    old(self).voted_for
                },
                ..old(self)@
            }),
    {
        if let Some(voted_for) = self.voted_for {
            return voted_for == id;
        }
        let log_state = self.log_state();
        if log_state.length > event.log_state.length {
            return false;
        } else if log_state.length == event.log_state.length && log_state.term
            > event.log_state.term {
            return false;
        }
        self.voted_for = Some(id);
        true
    }

    /// The length of the log and the term of its last entry.
    pub fn log_state(&self) -> (r: LogState)
        ensures
            Some(r) == log_state_at_spec(self@.log, self.log.len() as int),
    {
        self.log_state_at(self.log.len()).unwrap()
    }

    /// The log state after the first `length` entries, if the log is that long.
    pub fn log_state_at(&self, length: usize) -> (r: Option<LogState>)
        ensures
            r == log_state_at_spec(self@.log, length as int),
    {
        if length > self.log.len() {
            None
        } else {
            Some(
                LogState {
                    term: if length == 0 {
                        0
                    } else {
                        self.log[length - 1].term
                    },
                    length,
                },
            )
        }
    }
}

/// The request to append at most `max_length` entries of `log` from position `index`
/// on, with the log state before them and the commit index `commit_index`.
pub open spec fn insert_view<T>(
    log: Seq<EntryView<T>>,
    index: int,
    max_length: int,
    commit_index: usize,
) -> InsertView<T> {
    InsertView {
        prev_log_state: log_state_at_spec(log, index)->Some_0,
        entries: if index < log.len() {
            log.subrange(
                index,
                if index + max_length < log.len() {
                    index + max_length
                } else {
                    log.len() as int
                },
            )
        } else {
            Seq::empty()
        },
        leader_commit: commit_index,
    }
}

/// Whether a server in state `ps` grants its vote to `id`, who asks with log state
/// `event.log_state`: it keeps a vote it has given, and otherwise votes for a
/// candidate whose log is longer, or as long and ending in a term at least as late.
pub open spec fn vote_granted<T>(ps: PersistentStateView<T>, event: Vote, id: Id) -> bool {
    match ps.voted_for {
        Some(v) => v == id,
        None => {
            let mine = log_state_at_spec(ps.log, ps.log.len() as int)->Some_0;
            !(mine.length > event.log_state.length) && !(mine.length == event.log_state.length
                && mine.term > event.log_state.term)
        },
    }
}

} // verus!
