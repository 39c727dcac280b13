use vstd::prelude::*;

use std::sync::Arc;

use crate::dinner_party::fork::Fork;
use crate::dinner_party::philosopher::Philosopher;

verus! {

#[verifier::external_type_specification]
#[verifier::external_body]
#[verifier::reject_recursive_types(T)]
pub struct ExSender<T>(std::sync::mpsc::Sender<T>);

#[verifier::external_type_specification]
#[verifier::external_body]
#[verifier::reject_recursive_types(T)]
pub struct ExReceiver<T>(std::sync::mpsc::Receiver<T>);

/// The two forks a philosopher picks up: the one on the left and the next one.
pub type ForkPair = (Arc<std::sync::Mutex<Fork>>, Arc<std::sync::Mutex<Fork>>);

/// The pairs handed to `send` on `sender` so far, in order, whether or not the
/// channel took them.
pub uninterp spec fn handed(sender: std::sync::mpsc::Sender<ForkPair>) -> Seq<ForkPair>;

/// The pairs that the channel of `sender` has accepted from it so far, in order: those
/// sent while its receiving end was still there.
pub uninterp spec fn accepted(sender: std::sync::mpsc::Sender<ForkPair>) -> Seq<ForkPair>;

/// A new channel (`std::sync::mpsc::channel`): its sending and its receiving end. No
/// pair has been handed to it or sent on it yet.
#[verifier::external_body]
fn channel() -> (r: (std::sync::mpsc::Sender<ForkPair>, std::sync::mpsc::Receiver<ForkPair>))
    ensures
        handed(r.0) == Seq::<ForkPair>::empty(),
        accepted(r.0) == Seq::<ForkPair>::empty(),
{
    std::sync::mpsc::channel()
}

/// Sends `value` on `sender` (`std::sync::mpsc::Sender::send`): the value is handed to
/// the channel whatever comes back. True where the channel took it, which it does
/// while its receiving end is there; the value then follows those sent before. False
/// where the receiving end is gone and the value was not sent.
#[verifier::external_body]
fn send(sender: &mut std::sync::mpsc::Sender<ForkPair>, value: ForkPair) -> (r: bool)
    ensures
        handed(*final(sender)) == handed(*old(sender)).push(value),
        r ==> accepted(*final(sender)) == accepted(*old(sender)).push(value),
        !r ==> accepted(*final(sender)) == accepted(*old(sender)),
{
    sender.send(value).is_ok()
}

/// A table with a fork between each two seats; each guest who sits down gets a channel
/// on which, once every seat is taken, the two forks of the guest's seat arrive.
pub struct Table {
    pub total_seats: usize,
    pub forks: Vec<Arc<std::sync::Mutex<Fork>>>,
    pub channels: Vec<std::sync::mpsc::Sender<ForkPair>>,
}

/// The positions of the two forks at seat `index` of a table of `seats`: its own and
/// the next one round the table.
pub open spec fn fork_indices_of(index: int, seats: int) -> (int, int) {
    (index, (index + 1) % seats)
}

/// The forks at seat `index` of a table with `forks`: its own and the next one round
/// the table.
pub open spec fn seat_pair(forks: Seq<Arc<std::sync::Mutex<Fork>>>, index: int) -> ForkPair {
    (forks[fork_indices_of(index, forks.len() as int).0], forks[fork_indices_of(
        index,
        forks.len() as int,
    ).1])
}

/// What each of `senders` has had its channel accept so far, by seat.
pub open spec fn taken(senders: Seq<std::sync::mpsc::Sender<ForkPair>>) -> Seq<Seq<ForkPair>> {
    senders.map_values(|sender: std::sync::mpsc::Sender<ForkPair>| accepted(sender))
}

/// What has been handed to each of `senders` so far, by seat.
pub open spec fn handed_all(senders: Seq<std::sync::mpsc::Sender<ForkPair>>) -> Seq<
    Seq<ForkPair>,
> {
    senders.map_values(|sender: std::sync::mpsc::Sender<ForkPair>| handed(sender))
}

/// Whether ringing the bell, going from what was handed to each seat's channel
/// (`before`) to what has been (`after`), handed each seat's channel exactly the forks
/// of that seat at a table with `forks`.
pub open spec fn bell_rang(
    before: Seq<Seq<ForkPair>>,
    after: Seq<Seq<ForkPair>>,
    forks: Seq<Arc<std::sync::Mutex<Fork>>>,
) -> bool {
    &&& after.len() == before.len()
    &&& forall|i: int|
        0 <= i < after.len() ==> #[trigger] after[i] == before[i].push(seat_pair(forks, i))
}

/// Whether each seat's channel, going from `before` to `after`, took the forks of that
/// seat at a table with `forks`.
pub open spec fn all_served(
    before: Seq<Seq<ForkPair>>,
    after: Seq<Seq<ForkPair>>,
    forks: Seq<Arc<std::sync::Mutex<Fork>>>,
) -> bool {
    forall|i: int| 0 <= i < after.len() ==> #[trigger] after[i] == before[i].push(seat_pair(forks, i))
}

/// What ringing the bell did to the channels, from what they had taken (`before`) to
/// what they have taken (`after`): each took the forks of its own seat or nothing, and
/// `delivered` tells whether all of them took theirs.
pub open spec fn dinner_served(
    before: Seq<Seq<ForkPair>>,
    after: Seq<Seq<ForkPair>>,
    forks: Seq<Arc<std::sync::Mutex<Fork>>>,
    delivered: bool,
) -> bool {
    &&& after.len() == before.len()
    &&& forall|i: int|
        0 <= i < after.len() ==> (#[trigger] after[i] == before[i].push(seat_pair(forks, i))
            || after[i] == before[i])
    &&& delivered == all_served(before, after, forks)
}

/// Going round the table: a position below twice the number of seats, taken modulo it.
proof fn lemma_round(x: int, m: int)
    requires
        0 < m,
        0 <= x < 2 * m,
    ensures
        x % m == (if x < m {
            x
        } else {
            x - m
        }),
{
    if x < m {
        vstd::arithmetic::div_mod::lemma_small_mod(x as nat, m as nat);
    } else {
        vstd::arithmetic::div_mod::lemma_small_mod((x - m) as nat, m as nat);
        vstd::arithmetic::div_mod::lemma_mod_add_multiples_vanish(x - m, m);
    }
}

/// Neighbours share a fork: the right fork of each seat is the left fork of the next.
pub proof fn lemma_neighbours_share_a_fork(index: int, seats: int)
    requires
        0 <= index < seats,
    ensures
        fork_indices_of(index, seats).1 == fork_indices_of((index + 1) % seats, seats).0,
{
}

/// At a table of two seats or more, every fork is held by exactly two seats: as the
/// left fork of its own seat and the right fork of the seat before.
pub proof fn lemma_each_fork_has_two_seats(fork: int, seats: int)
    requires
        2 <= seats,
        0 <= fork < seats,
    ensures
        ({
            let before = (fork + seats - 1) % seats;
            &&& fork_indices_of(fork, seats).0 == fork
            &&& fork_indices_of(before, seats).1 == fork
            &&& before != fork
            &&& forall|seat: int|
                0 <= seat < seats && (fork_indices_of(seat, seats).0 == fork
                    || fork_indices_of(seat, seats).1 == fork) ==> seat == fork || seat == before
        }),
{
    let before = (fork + seats - 1) % seats;
    lemma_round(fork + seats - 1, seats);
    lemma_round(before + 1, seats);
    assert forall|seat: int|
        0 <= seat < seats && (fork_indices_of(seat, seats).0 == fork || fork_indices_of(
            seat,
            seats,
        ).1 == fork) implies seat == fork || seat == before by {
        lemma_round(seat + 1, seats);
    }
}

impl Table {
    pub open spec fn wf(&self) -> bool {
        self.forks.len() == self.total_seats
    }

    /// A table of `total_seats` seats, with as many forks and nobody seated.
    pub fn new(total_seats: usize) -> (r: Table)
        ensures
            r.wf(),
            r.total_seats == total_seats,
            r.channels.len() == 0,
    {
        let mut forks = Vec::new();
        let mut i: usize = 0;
        while i < total_seats
            invariant
                i <= total_seats,
                forks.len() == i,
            decreases total_seats - i,
        {
            forks.push(Fork::new());
            i += 1;
        }
        Self { total_seats, forks, channels: Vec::new() }
    }

    /// The positions of the two forks at seat `index`.
    pub fn fork_indices(&self, index: usize) -> (r: (usize, usize))
        requires
            self.wf(),
            index < self.total_seats,
        ensures
            r.0 == fork_indices_of(index as int, self.total_seats as int).0,
            r.1 == fork_indices_of(index as int, self.total_seats as int).1,
    {
        (index, (index + 1) % self.total_seats)
    }

    /// The two forks of seat `index`, to hand to the guest there.
    pub fn seat_forks(&self, index: usize) -> (r: ForkPair)
        requires
            self.wf(),
            index < self.total_seats,
        ensures
            r == seat_pair(self.forks@, index as int),
    {
        let (left, right) = self.fork_indices(index);
        (self.forks[left].clone(), self.forks[right].clone())
    }

    /// Seats a guest, and rings the dinner bell once every seat is taken. Gives the
    /// guest's end of a new channel, and, where the bell rang, whether every guest's
    /// forks were sent. Until the bell rings no channel is sent anything; when it
    /// rings, each seat's channel is handed the forks of that seat.
    pub fn sit(&mut self, _philosopher: &Philosopher) -> (r: (
        std::sync::mpsc::Receiver<ForkPair>,
        Option<bool>,
    ))
        requires
            old(self).wf(),
        ensures
            final(self).wf(),
            final(self).total_seats == old(self).total_seats,
            final(self).forks@ == old(self).forks@,
            final(self).channels.len() == old(self).channels.len() + 1,
            r.1 is Some <==> final(self).channels.len() == final(self).total_seats,
            r.1 is None ==> handed(final(self).channels@.last()) == Seq::<ForkPair>::empty(),
            r.1 is None ==> accepted(final(self).channels@.last()) == Seq::<ForkPair>::empty(),
            r.1 is None ==> final(self).channels@.drop_last() == old(self).channels@,
            r.1 is Some ==> bell_rang(
                handed_all(old(self).channels@).push(Seq::<ForkPair>::empty()),
                handed_all(final(self).channels@),
                final(self).forks@,
            ),
            r.1 is Some ==> dinner_served(
                taken(old(self).channels@).push(Seq::<ForkPair>::empty()),
                taken(final(self).channels@),
                final(self).forks@,
                r.1->Some_0,
            ),
    {
        let (sender, reciever) = channel();
        self.channels.push(sender);
        if self.channels.len() == self.total_seats {
            let delivered = self.dinner_bell();
            (reciever, Some(delivered))
        } else {
            (reciever, None)
        }
    }

    /// Hands each seated guest's channel, by seat, the two forks of its seat; true
    /// where every channel took them. A channel whose guest has left takes nothing.
    pub fn dinner_bell(&mut self) -> (r: bool)
        requires
            old(self).wf(),
            old(self).channels.len() <= old(self).total_seats,
        ensures
            final(self).wf(),
            final(self).total_seats == old(self).total_seats,
            final(self).forks@ == old(self).forks@,
            bell_rang(handed_all(old(self).channels@), handed_all(final(self).channels@), final(self).forks@),
            dinner_served(taken(old(self).channels@), taken(final(self).channels@), final(self).forks@, r),
    {
        let mut outcomes: Vec<bool> = Vec::new();
        let mut index: usize = 0;
        while index < self.channels.len()
            invariant
                self.wf(),
                self.total_seats == old(self).total_seats,
                self.forks@ == old(self).forks@,
                self.channels.len() == old(self).channels.len(),
                self.channels.len() <= self.total_seats,
                index <= self.channels.len(),
                outcomes.len() == index,
                forall|i: int|
                    index <= i < self.channels.len() ==> self.channels@[i] == old(
                        self,
                    ).channels@[i],
                forall|i: int|
                    0 <= i < index ==> handed(#[trigger] self.channels@[i]) == handed(
                        old(self).channels@[i],
                    ).push(seat_pair(self.forks@, i)),
                forall|i: int|
                    0 <= i < index ==> accepted(#[trigger] self.channels@[i]) == if outcomes@[i] {
                        accepted(old(self).channels@[i]).push(seat_pair(self.forks@, i))
                    } else {
                        accepted(old(self).channels@[i])
                    },
            decreases self.channels.len() - index,
        {
            let pair = self.seat_forks(index);
            let ghost before = self.channels@;
            let sent = send(&mut self.channels[index], pair);
            outcomes.push(sent);
            proof {
                let i = index as int;
                assert(self.channels@ == before.update(i, self.channels@[i]));
                assert forall|j: int| 0 <= j < i implies self.channels@[j] == before[j] by {}
            }
            index += 1;
        }
        let delivered = all_delivered(&outcomes);
        proof {
            let b = taken(old(self).channels@);
            let a = taken(self.channels@);
            let hb = handed_all(old(self).channels@);
            let ha = handed_all(self.channels@);
            assert forall|i: int| 0 <= i < a.len() implies #[trigger] a[i] == accepted(
                self.channels@[i],
            ) && b[i] == accepted(old(self).channels@[i]) && ha[i] == handed(self.channels@[i])
                && hb[i] == handed(old(self).channels@[i]) by {}
            assert forall|i: int| 0 <= i < a.len() implies (#[trigger] a[i] == b[i].push(
                seat_pair(self.forks@, i),
            )) == outcomes@[i] by {
                assert(b[i].push(seat_pair(self.forks@, i)).len() != b[i].len());
            }
            assert forall|i: int| 0 <= i < ha.len() implies #[trigger] ha[i] == hb[i].push(
                seat_pair(self.forks@, i),
            ) by {}
            if !delivered {
                let k = choose|k: int| 0 <= k < outcomes.len() && !outcomes@[k];
                assert(!(a[k] == b[k].push(seat_pair(self.forks@, k))));
            }
        }
        delivered
    }
}

/// Whether every send of the bell, by seat, was taken.
pub fn all_delivered(outcomes: &Vec<bool>) -> (r: bool)
    ensures
        r == (forall|i: int| 0 <= i < outcomes.len() ==> outcomes@[i]),
{
    let mut i: usize = 0;
    while i < outcomes.len()
        invariant
            i <= outcomes.len(),
            forall|j: int| 0 <= j < i ==> outcomes@[j],
        decreases outcomes.len() - i,
    {
        if !outcomes[i] {
            return false;
        }
        i += 1;
    }
    true
}

} // verus!
