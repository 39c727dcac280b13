use vstd::prelude::*;

use crate::raft::data::data_type::CommandType;
use crate::raft::data::id_set::IdSet;
use crate::raft::data::persistent_state::{Config, Entry, EntryView, LogState, copy_entries, log_view};
use crate::raft::server::raft_cluster::{Id, Message};

verus! {

/// A message between two parties of the cluster.
#[derive(Debug, PartialEq, Eq)]
pub struct Request<T, Output> {
    pub sender: Id,
    pub reciever: Id,
    pub term: u32,
    pub event: Event<T, Output>,
}

pub struct RequestView<T, Output> {
    pub sender: Id,
    pub reciever: Id,
    pub term: u32,
    pub event: EventView<T, Output>,
}

impl<T, Output> View for Request<T, Output> {
    type V = RequestView<T, Output>;

    open spec fn view(&self) -> RequestView<T, Output> {
        RequestView { sender: self.sender, reciever: self.reciever, term: self.term, event: self.event@ }
    }
}

impl<T, Output> Request<T, Output> {
    pub open spec fn wf(&self) -> bool {
        self.event.wf()
    }
}

impl<T: CommandType, Output: Copy> Clone for Request<T, Output> {
    fn clone(&self) -> (r: Request<T, Output>)
        ensures
            r@ == self@,
            self.wf() ==> r.wf(),
    {
        Request {
            sender: self.sender,
            reciever: self.reciever,
            term: self.term,
            event: self.event.clone(),
        }
    }
}

impl<T, Output> Message for Request<T, Output> {
    fn recipient(&self) -> (r: Id)
        ensures
            r == self.reciever,
    {
        self.reciever
    }
}

/// The configuration a cluster is in: one set of servers, or the move from one set to another.
#[derive(Debug, PartialEq, Eq)]
pub enum ActiveConfig {
    Stable(Config),
    Transition { prev: Config, new: Config },
}

pub enum ActiveConfigView {
    Stable(Set<Id>),
    Transition { prev: Set<Id>, new: Set<Id> },
}

impl View for ActiveConfig {
    type V = ActiveConfigView;

    open spec fn view(&self) -> ActiveConfigView {
        match self {
            ActiveConfig::Stable(c) => ActiveConfigView::Stable(c@),
            ActiveConfig::Transition { prev, new } => ActiveConfigView::Transition {
                prev: prev@,
                new: new@,
            },
        }
    }
}

/// The servers that a configuration involves.
pub open spec fn active_servers(config: ActiveConfigView) -> Set<Id> {
    match config {
        ActiveConfigView::Stable(s) => s,
        ActiveConfigView::Transition { prev, new } => prev.union(new),
    }
}

/// More than half of `servers` are among `votes`.
pub open spec fn quorum(servers: Set<Id>, votes: Set<Id>) -> bool {
    servers.intersect(votes).len() >= servers.len() / 2 + 1
}

/// `votes` carry a configuration: a majority of its servers, or, while it moves,
/// a majority of the old servers and a majority of the new ones.
pub open spec fn active_quorum(config: ActiveConfigView, votes: Set<Id>) -> bool {
    match config {
        ActiveConfigView::Stable(s) => quorum(s, votes),
        ActiveConfigView::Transition { prev, new } => quorum(prev, votes) && quorum(new, votes),
    }
}

impl Clone for ActiveConfig {
    fn clone(&self) -> (r: ActiveConfig)
        ensures
            r@ == self@,
            self.wf() ==> r.wf(),
    {
        match self {
            ActiveConfig::Stable(c) => ActiveConfig::Stable(c.clone()),
            ActiveConfig::Transition { prev, new } => ActiveConfig::Transition {
                prev: prev.clone(),
                new: new.clone(),
            },
        }
    }
}

impl ActiveConfig {
    pub open spec fn wf(&self) -> bool {
        match self {
            ActiveConfig::Stable(c) => c.wf(),
            ActiveConfig::Transition { prev, new } => prev.wf() && new.wf(),
        }
    }

    pub fn servers(&self) -> (r: IdSet)
        requires
            self.wf(),
        ensures
            r.wf(),
            r@ == active_servers(self@),
    {
        match self {
            ActiveConfig::Stable(config) => config.servers.clone(),
            ActiveConfig::Transition { prev, new } => prev.servers.union(&new.servers),
        }
    }

    pub fn has_quorum(&self, matching: &IdSet) -> (r: bool)
        requires
            self.wf(),
        ensures
            r == active_quorum(self@, matching@),
    {
        match self {
            ActiveConfig::Stable(config) => config.has_quorum(matching),
            ActiveConfig::Transition { prev, new } => {
                prev.has_quorum(matching) && new.has_quorum(matching)
            },
        }
    }
}

/// What a log entry holds.
#[derive(Debug, PartialEq, Eq)]
pub enum Data<T> {
    Command(T),
    Config(ActiveConfig),
}

pub enum DataView<T> {
    Command(T),
    Config(ActiveConfigView),
}

impl<T> View for Data<T> {
    type V = DataView<T>;

    open spec fn view(&self) -> DataView<T> {
        match self {
            Data::Command(c) => DataView::Command(*c),
            Data::Config(a) => DataView::Config(a@),
        }
    }
}

impl<T> Data<T> {
    pub open spec fn wf(&self) -> bool {
        match self {
            Data::Command(_) => true,
            Data::Config(a) => a.wf(),
        }
    }
}

impl<T: CommandType> Clone for Data<T> {
    fn clone(&self) -> (r: Data<T>)
        ensures
            r@ == self@,
            self.wf() ==> r.wf(),
    {
        match self {
            Data::Command(c) => Data::Command(*c),
            Data::Config(a) => Data::Config(a.clone()),
        }
    }
}

impl<T: CommandType> Clone for ClientData<T> {
    fn clone(&self) -> (r: ClientData<T>)
        ensures
            r@ == self@,
            self.wf() ==> r.wf(),
    {
        match self {
            ClientData::Command(c) => ClientData::Command(*c),
            ClientData::Config(c) => ClientData::Config(c.clone()),
        }
    }
}

#[derive(Debug, PartialEq, Eq)]
pub struct Transaction<T> {
    pub id: TransactionId,
    pub data: Data<T>,
}

/// What a client asks the cluster to add: a command, or a new set of servers.
#[derive(Debug, PartialEq, Eq)]
pub enum ClientData<T> {
    Command(T),
    Config(Config),
}

pub enum ClientDataView<T> {
    Command(T),
    Config(Set<Id>),
}

impl<T> View for ClientData<T> {
    type V = ClientDataView<T>;

    open spec fn view(&self) -> ClientDataView<T> {
        match self {
            ClientData::Command(c) => ClientDataView::Command(*c),
            ClientData::Config(c) => ClientDataView::Config(c@),
        }
    }
}

impl<T> ClientData<T> {
    pub open spec fn wf(&self) -> bool {
        match self {
            ClientData::Command(_) => true,
            ClientData::Config(c) => c.wf(),
        }
    }
}

/// What happens to a server: a message of the protocol, a crash, a clock tick,
/// or a client's request and its answer.
#[derive(Debug, PartialEq, Eq)]
pub enum Event<T, Output> {
    Insert(Insert<T>),
    InsertResponse(InsertResponse),
    Vote(Vote),
    VoteResponse(VoteResponse),
    Crash(Crash),
    Tick(Tick),
    Client(Client<T>),
    ClientResponse(ClientResponse<T, Output>),
}

pub enum EventView<T, Output> {
    Insert(InsertView<T>),
    InsertResponse(InsertResponse),
    Vote(Vote),
    VoteResponse(VoteResponse),
    Crash,
    Tick,
    Client { id: TransactionId, data: ClientDataView<T> },
    ClientResponse(ClientResponseView<T, Output>),
}

impl<T, Output> View for Event<T, Output> {
    type V = EventView<T, Output>;

    open spec fn view(&self) -> EventView<T, Output> {
        match self {
            Event::Insert(i) => EventView::Insert(i@),
            Event::InsertResponse(r) => EventView::InsertResponse(*r),
            Event::Vote(v) => EventView::Vote(*v),
            Event::VoteResponse(r) => EventView::VoteResponse(*r),
            Event::Crash(_) => EventView::Crash,
            Event::Tick(_) => EventView::Tick,
            Event::Client(c) => EventView::Client { id: c.id, data: c.data@ },
            Event::ClientResponse(r) => EventView::ClientResponse(r@),
        }
    }
}

impl<T, Output> Event<T, Output> {
    pub open spec fn wf(&self) -> bool {
        match self {
            Event::Insert(i) => i.wf(),
            Event::Client(c) => c.data.wf(),
            Event::ClientResponse(r) => r.wf(),
            _ => true,
        }
    }
}

impl<T: CommandType, Output: Copy> Clone for Event<T, Output> {
    fn clone(&self) -> (r: Event<T, Output>)
        ensures
            r@ == self@,
            self.wf() ==> r.wf(),
    {
        match self {
            Event::Insert(i) => Event::Insert(i.clone()),
            Event::InsertResponse(r) => Event::InsertResponse(*r),
            Event::Vote(v) => Event::Vote(*v),
            Event::VoteResponse(r) => Event::VoteResponse(*r),
            Event::Crash(_) => Event::Crash(Crash),
            Event::Tick(_) => Event::Tick(Tick),
            Event::Client(c) => Event::Client(Client { id: c.id, data: c.data.clone() }),
            Event::ClientResponse(r) => Event::ClientResponse(r.clone()),
        }
    }
}

#[derive(Debug, PartialEq, Eq, Clone, Copy)]
pub struct Crash;

/// A client's request, under the transaction id that the client chose.
#[derive(Debug, PartialEq, Eq)]
pub struct Client<T> {
    pub id: TransactionId,
    pub data: ClientData<T>,
}

/// A transaction: the client that started it and its number there.
#[derive(Clone, Copy, Debug, Hash, PartialEq, Eq, Structural)]
pub struct TransactionId(pub Id, pub u32);

impl TransactionId {
    /// The transaction id that stands for "no transaction".
    pub fn none() -> (r: TransactionId)
        ensures
            r.0.id == 10000,
            r.1 == 0,
    {
        TransactionId(Id::none(), 0)
    }
}

#[allow(inconsistent_fields)]
#[derive(Debug, PartialEq, Eq)]
pub enum ResponseEvent<T, Output> {
    Failed { leader_id: Option<Id>, data: ClientData<T> },
    Success { data: Output },
}

/// The answer to a client: refused (with the leader, where known), or done.
#[allow(inconsistent_fields)]
#[derive(Debug, PartialEq, Eq)]
pub enum ClientResponse<T, Output> {
    Failed { id: TransactionId, leader_id: Option<Id>, data: ClientData<T> },
    Success { id: TransactionId, data: Output },
}

impl<T: CommandType, Output: Copy> Clone for ClientResponse<T, Output> {
    fn clone(&self) -> (r: ClientResponse<T, Output>)
        ensures
            r@ == self@,
            self.wf() ==> r.wf(),
    {
        match self {
            ClientResponse::Failed { id, leader_id, data } => ClientResponse::Failed {
                id: *id,
                leader_id: *leader_id,
                data: data.clone(),
            },
            ClientResponse::Success { id, data } => ClientResponse::Success { id: *id, data: *data },
        }
    }
}

#[allow(inconsistent_fields)]
pub enum ClientResponseView<T, Output> {
    Failed { id: TransactionId, leader_id: Option<Id>, data: ClientDataView<T> },
    Success { id: TransactionId, data: Output },
}

impl<T, Output> View for ClientResponse<T, Output> {
    type V = ClientResponseView<T, Output>;

    open spec fn view(&self) -> ClientResponseView<T, Output> {
        match self {
            ClientResponse::Failed { id, leader_id, data } => ClientResponseView::Failed {
                id: *id,
                leader_id: *leader_id,
                data: data@,
            },
            ClientResponse::Success { id, data } => ClientResponseView::Success {
                id: *id,
                data: *data,
            },
        }
    }
}

impl<T, Output> ClientResponse<T, Output> {
    pub open spec fn wf(&self) -> bool {
        match self {
            ClientResponse::Failed { data, .. } => data.wf(),
            _ => true,
        }
    }
}

/// A leader's request to append `entries` after the first `prev_log_state.length`
/// entries of the log, and the leader's commit index.
#[derive(Debug, PartialEq, Eq)]
pub struct Insert<T> {
    pub prev_log_state: LogState,
    pub entries: Vec<Entry<T>>,
    pub leader_commit: usize,
}

pub struct InsertView<T> {
    pub prev_log_state: LogState,
    pub entries: Seq<EntryView<T>>,
    pub leader_commit: usize,
}

impl<T> View for Insert<T> {
    type V = InsertView<T>;

    open spec fn view(&self) -> InsertView<T> {
        InsertView {
            prev_log_state: self.prev_log_state,
            entries: log_view(self.entries@),
            leader_commit: self.leader_commit,
        }
    }
}

impl<T: CommandType> Clone for Insert<T> {
    fn clone(&self) -> (r: Insert<T>)
        ensures
            r@ == self@,
            self.wf() ==> r.wf(),
    {
        let entries = copy_entries(&self.entries, 0, self.entries.len());
        assert(log_view(self.entries@).subrange(0, self.entries.len() as int) =~= log_view(
            self.entries@,
        ));
        Insert { prev_log_state: self.prev_log_state, entries, leader_commit: self.leader_commit }
    }
}

/// The highest commit index that an insert lets its receiver reach.
pub open spec fn max_commit_index_of<T>(insert: InsertView<T>) -> int {
    let end = insert.prev_log_state.length + insert.entries.len();
    if (insert.leader_commit as int) < end {
        insert.leader_commit as int
    } else {
        end
    }
}

impl<T> Insert<T> {
    pub open spec fn wf(&self) -> bool {
        forall|i: int| 0 <= i < self.entries.len() ==> #[trigger] self.entries@[i].wf()
    }

    pub fn max_commit_index(&self) -> (r: usize)
        requires
            self.prev_log_state.length + self.entries.len() <= usize::MAX,
        ensures
            r == max_commit_index_of(self@),
    {
        let end = self.prev_log_state.length + self.entries.len();
        if self.leader_commit < end {
            self.leader_commit
        } else {
            end
        }
    }
}

#[derive(Debug, PartialEq, Eq, Clone, Copy, Structural)]
pub struct InsertResponse {
    pub success: bool,
}

#[derive(Debug, PartialEq, Eq, Clone, Copy, Structural)]
pub struct Vote {
    pub log_state: LogState,
}

#[derive(Debug, PartialEq, Eq, Clone, Copy, Structural)]
pub struct VoteResponse {
    pub success: bool,
}

#[derive(Debug, PartialEq, Eq, Clone, Copy)]
pub struct Tick;

} // verus!
