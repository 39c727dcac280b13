use vstd::prelude::*;

use crate::raft::data::data_type::CommandType;
use crate::raft::data::request::{
    Client, ClientData, ClientResponse, ClientResponseView, Event, EventView, Request, RequestView,
};
use crate::raft::server::raft_cluster::Id;
use crate::random::gen_u32;
use std::collections::HashSet;

verus! {

/// The request by which client `client` asks `leader` to apply `command`, as
/// transaction `id`.
pub fn command_request<T: CommandType, Output>(
    client: Id,
    leader: Id,
    id: crate::raft::data::request::TransactionId,
    command: T,
) -> (r: Request<T, Output>)
    ensures
        r.wf(),
        r@ == (RequestView::<T, Output> {
            sender: client,
            reciever: leader,
            term: 0,
            event: EventView::Client {
                id,
                data: crate::raft::data::request::ClientDataView::Command(command),
            },
        }),
{
    Request {
        sender: client,
        reciever: leader,
        term: 0,
        event: Event::Client(Client { id, data: ClientData::Command(command) }),
    }
}

/// The transaction that `response` refuses while naming a leader to ask instead; none
/// for any other message.
pub fn redirected_transaction<T: CommandType, Output>(response: &Request<T, Output>) -> (r: Option<
    crate::raft::data::request::TransactionId,
>)
    requires
        response.wf(),
    ensures
        r == match response@.event {
            EventView::ClientResponse(ClientResponseView::Failed { id, leader_id: Some(_), .. }) => Some(id),
            _ => None,
        },
{
    match &response.event {
        Event::ClientResponse(ClientResponse::Failed { id, leader_id, .. }) => match leader_id {
            Some(_) => Some(*id),
            None => None,
        },
        _ => None,
    }
}

/// What client `client` does with `response`: where it is a refusal that names a
/// leader, the client takes that server as its leader and sends it the same data again,
/// as transaction `id`; it does nothing with any other message.
pub fn redirect<T: CommandType, Output>(
    client: Id,
    response: Request<T, Output>,
    id: crate::raft::data::request::TransactionId,
) -> (r: Option<(Id, Request<T, Output>)>)
    requires
        response.wf(),
    ensures
        match response@.event {
            EventView::ClientResponse(ClientResponseView::Failed { leader_id: Some(leader), data, .. }) => {
                &&& r is Some
                &&& r->Some_0.0 == leader
                &&& r->Some_0.1.wf()
                &&& r->Some_0.1@ == (RequestView::<T, Output> {
                    sender: client,
                    reciever: leader,
                    term: 0,
                    event: EventView::Client { id, data },
                })
            },
            _ => r is None,
        },
{
    match response.event {
        Event::ClientResponse(ClientResponse::Failed { leader_id, data, .. }) => {
            match leader_id {
                Some(leader) => Some(
                    (
                        leader,
                        Request {
                            sender: client,
                            reciever: leader,
                            term: 0,
                            event: Event::Client(Client { id, data }),
                        },
                    ),
                ),
                None => None,
            }
        },
        _ => None,
    }
}

/// A transaction id of client `client` whose number it has not used yet, drawn at
/// random; the number is recorded in `used`. Where the drawn number is taken, the
/// next free number above it is used, and failing that the first free one below it
/// (`transaction_id_from`). `requires` asks for a free number, without which no id
/// could be given.
pub fn transaction_id(client: Id, used: &mut HashSet<u32>) -> (r:
    crate::raft::data::request::TransactionId)
    requires
        exists|n: u32| !old(used)@.contains(n),
    ensures
        r.0 == client,
        !old(used)@.contains(r.1),
        final(used)@ == old(used)@.insert(r.1),
{
    let drawn = gen_u32();
    transaction_id_from(client, used, drawn)
}

/// The transaction id of client `client` for the number `drawn`: the first number
/// from `drawn` up that `used` does not hold, or, where all of those are taken, the
/// first free number from 0 up. The number is recorded in `used`.
pub fn transaction_id_from(client: Id, used: &mut HashSet<u32>, drawn: u32) -> (r:
    crate::raft::data::request::TransactionId)
    requires
        exists|n: u32| !old(used)@.contains(n),
    ensures
        r.0 == client,
        !old(used)@.contains(r.1),
        final(used)@ == old(used)@.insert(r.1),
        (exists|n: u32| drawn <= n && !old(used)@.contains(n)) ==> drawn <= r.1 && forall|
            n: u32,
        | drawn <= n < r.1 ==> old(used)@.contains(n),
        !(exists|n: u32| drawn <= n && !old(used)@.contains(n)) ==> forall|n: u32|
            n < r.1 ==> old(used)@.contains(n),
{
    broadcast use vstd::std_specs::hash::group_hash_axioms;

    let start = drawn;
    let mut n = start;
    loop
        invariant
            start == drawn,
            start <= n,
            used@ == old(used)@,
            forall|x: u32| start <= x < n ==> used@.contains(x),
        ensures
            start == drawn,
            used@ == old(used)@,
            forall|x: u32| start <= x ==> used@.contains(x),
        decreases u32::MAX - n,
    {
        if !used.contains(&n) {
            proof {
                assert(drawn <= n && !old(used)@.contains(n));
            }
            used.insert(n);
            return crate::raft::data::request::TransactionId(client, n);
        }
        if n == u32::MAX {
            break ;
        }
        n = n + 1;
    }
    let mut n: u32 = 0;
    loop
        invariant
            start == drawn,
            n <= start,
            used@ == old(used)@,
            exists|k: u32| !old(used)@.contains(k),
            forall|x: u32| start <= x ==> used@.contains(x),
            forall|x: u32| x < n ==> used@.contains(x),
        decreases start - n,
    {
        if !used.contains(&n) {
            proof {
                assert(!(exists|m: u32| drawn <= m && !old(used)@.contains(m)));
            }
            used.insert(n);
            return crate::raft::data::request::TransactionId(client, n);
        }
        proof {
            if n + 1 == start {
                let k = choose|k: u32| !old(used)@.contains(k);
                assert(used@.contains(k));
            }
        }
        n = n + 1;
    }
}

} // verus!
