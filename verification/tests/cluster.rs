use raft_async::raft::data::persistent_state::Config;
use raft_async::raft::data::request::{
    Client, ClientData, ClientResponse, Event, Request, TransactionId, VoteResponse,
};
use raft_async::raft::server::client::{
    command_request, redirect, redirected_transaction, transaction_id, transaction_id_from,
};
use std::collections::HashSet;
use raft_async::raft::server::cluster;
use raft_async::raft::server::raft_cluster::{delivers, initial_config, Id, Message};
use raft_async::raft::server::switch;

#[test]
fn ids_keep_their_number() {
    assert_eq!(Id::new(7).id, 7);
    assert_eq!(Id::none().id, 10000);
    assert_eq!(cluster::Id::new(3), cluster::Id(3));
    assert_eq!(switch::Id::new(4), switch::Id(4));
    assert_eq!(TransactionId::none(), TransactionId(Id::new(10000), 0));
}

#[test]
fn cluster_starts_with_servers_numbered_from_zero() {
    let c: Config = initial_config(5);
    assert_eq!(c.servers.ids.iter().map(|id| id.id).collect::<Vec<_>>(), vec![0, 1, 2, 3, 4]);
    assert_eq!(initial_config(0).servers.ids.len(), 0);
}

#[test]
fn cluster_drops_rolls_above_80() {
    assert!(delivers(0));
    assert!(delivers(80));
    assert!(!delivers(81));
    assert!(!delivers(99));
}

#[test]
fn a_request_goes_to_its_reciever() {
    let r: Request<u32, u32> = command_request(Id::new(10), Id::new(2), TransactionId(Id::new(10), 1), 5);
    assert_eq!(r.recipient(), Id::new(2));
    assert_eq!(r.sender, Id::new(10));
    assert_eq!(r.term, 0);
    assert_eq!(
        r.event,
        Event::Client(Client { id: TransactionId(Id::new(10), 1), data: ClientData::Command(5) })
    );
}

#[test]
fn a_refusal_naming_a_leader_is_sent_on_to_it() {
    let refusal: Request<u32, u32> = Request {
        sender: Id::new(1),
        reciever: Id::new(10),
        term: 0,
        event: Event::ClientResponse(ClientResponse::Failed {
            id: TransactionId(Id::new(10), 1),
            leader_id: Some(Id::new(3)),
            data: ClientData::Command(8),
        }),
    };
    let (leader, resend) = redirect(Id::new(10), refusal, TransactionId(Id::new(10), 2)).unwrap();
    assert_eq!(leader, Id::new(3));
    assert_eq!(
        resend,
        Request {
            sender: Id::new(10),
            reciever: Id::new(3),
            term: 0,
            event: Event::Client(Client { id: TransactionId(Id::new(10), 2), data: ClientData::Command(8) }),
        }
    );
}

#[test]
fn other_answers_are_ignored() {
    let no_leader: Request<u32, u32> = Request {
        sender: Id::new(1),
        reciever: Id::new(10),
        term: 0,
        event: Event::ClientResponse(ClientResponse::Failed {
            id: TransactionId(Id::new(10), 1),
            leader_id: None,
            data: ClientData::Command(8),
        }),
    };
    assert!(redirect(Id::new(10), no_leader, TransactionId(Id::new(10), 2)).is_none());
    let vote: Request<u32, u32> = Request {
        sender: Id::new(1),
        reciever: Id::new(10),
        term: 0,
        event: Event::VoteResponse(VoteResponse { success: true }),
    };
    assert!(redirect(Id::new(10), vote, TransactionId(Id::new(10), 2)).is_none());
}

#[test]
fn transaction_ids_are_never_reused() {
    let mut used: HashSet<u32> = HashSet::new();
    let mut seen: HashSet<u32> = HashSet::new();
    for _ in 0..200 {
        let id = transaction_id(Id::new(7), &mut used);
        assert_eq!(id.0, Id::new(7));
        assert!(seen.insert(id.1), "number {} given twice", id.1);
        assert!(used.contains(&id.1));
    }
    assert_eq!(used, seen);
}

#[test]
fn a_taken_number_is_not_given_again() {
    let mut used: HashSet<u32> = (0..1000u32).collect();
    let before = used.clone();
    let id = transaction_id(Id::new(3), &mut used);
    assert!(!before.contains(&id.1));
    assert_eq!(used.len(), 1001);
}

#[test]
fn a_taken_draw_moves_to_the_next_free_number() {
    let mut used: HashSet<u32> = [5, 6, 9].into_iter().collect();
    let id = transaction_id_from(Id::new(2), &mut used, 5);
    assert_eq!(id.0, Id::new(2));
    assert_eq!(id.1, 7);
    assert!(used.contains(&7));
    let id = transaction_id_from(Id::new(2), &mut used, 8);
    assert_eq!(id.1, 8);
    let mut top: HashSet<u32> = [u32::MAX - 1, u32::MAX, 0].into_iter().collect();
    let id = transaction_id_from(Id::new(2), &mut top, u32::MAX - 1);
    assert_eq!(id.1, 1);
}

#[test]
fn only_a_refusal_naming_a_leader_is_redirected() {
    let id = TransactionId(Id::new(9), 4);
    let refusal = |leader_id| Request::<u32, u32> {
        sender: Id::new(1),
        reciever: Id::new(9),
        term: 0,
        event: Event::ClientResponse(ClientResponse::Failed { id, leader_id, data: ClientData::Command(3) }),
    };
    assert_eq!(redirected_transaction(&refusal(Some(Id::new(2)))), Some(id));
    assert_eq!(redirected_transaction(&refusal(None)), None);
    let done = Request::<u32, u32> {
        sender: Id::new(1),
        reciever: Id::new(9),
        term: 0,
        event: Event::ClientResponse(ClientResponse::Success { id, data: 3 }),
    };
    assert_eq!(redirected_transaction(&done), None);
}
