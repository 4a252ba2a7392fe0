//! The broker: the single owner of the subscriber registry, which consumes
//! commands in arrival order.
use crate::operation::Operation;
use std::sync::mpsc::{Receiver, Sender};
use vstd::prelude::*;

verus! {

/// One registry entry: a subscriber's id and the sending end of its channel.
pub struct Subscription {
    pub id: String,
    pub sender: Sender<String>,
}

/// The ids of `subs`, in registry order.
pub open spec fn ids_of(subs: Seq<Subscription>) -> Seq<Seq<char>> {
    subs.map_values(|s: Subscription| s.id@)
}

/// The ids after a subscribe of `id`: a known id keeps its place (its sender
/// is replaced), a new one goes at the end.
pub open spec fn ids_after_subscribe(ids: Seq<Seq<char>>, id: Seq<char>) -> Seq<Seq<char>> {
    if ids.contains(id) {
        ids
    } else {
        ids.push(id)
    }
}

/// The ids after an unsubscribe of `id`: its entry is gone, the rest stay in
/// order; an unknown `id` changes nothing.
pub open spec fn ids_after_unsubscribe(ids: Seq<Seq<char>>, id: Seq<char>) -> Seq<Seq<char>> {
    if ids.contains(id) {
        ids.remove(ids.index_of(id))
    } else {
        ids
    }
}

/// The registry entries of `subs`: each id with its sender, in registry order.
pub open spec fn entries_of(subs: Seq<Subscription>) -> Seq<(Seq<char>, Sender<String>)> {
    subs.map_values(|s: Subscription| (s.id@, s.sender))
}

/// The ids of registry entries, in order.
pub open spec fn keys(entries: Seq<(Seq<char>, Sender<String>)>) -> Seq<Seq<char>> {
    entries.map_values(|e: (Seq<char>, Sender<String>)| e.0)
}

/// The entries after a subscribe of `id` with `sender`: a known id keeps its
/// place and now holds `sender`; a new one goes at the end. Every other entry
/// is unchanged.
pub open spec fn entries_after_subscribe(
    entries: Seq<(Seq<char>, Sender<String>)>,
    id: Seq<char>,
    sender: Sender<String>,
) -> Seq<(Seq<char>, Sender<String>)> {
    if keys(entries).contains(id) {
        entries.update(keys(entries).index_of(id), (id, sender))
    } else {
        entries.push((id, sender))
    }
}

/// The entries after an unsubscribe of `id`: its entry is gone, the others
/// stay, in order, with their senders; an unknown `id` changes nothing.
pub open spec fn entries_after_unsubscribe(
    entries: Seq<(Seq<char>, Sender<String>)>,
    id: Seq<char>,
) -> Seq<(Seq<char>, Sender<String>)> {
    if keys(entries).contains(id) {
        entries.remove(keys(entries).index_of(id))
    } else {
        entries
    }
}

/// The items that stay after a publish in which the send to the subscriber of
/// `items[i]` was accepted exactly when `accepted[i]`.
pub open spec fn survivors<A>(items: Seq<A>, accepted: Seq<bool>) -> Seq<A>
    decreases items.len(),
{
    if items.len() == 0 || accepted.len() == 0 {
        Seq::empty()
    } else {
        let rest = survivors(items.drop_last(), accepted.drop_last());
        if accepted.last() {
            rest.push(items.last())
        } else {
            rest
        }
    }
}

/// The (subscriber, payload) pairs that a publish of `msg` hands out, in
/// registry order, when the send to `ids[i]` was accepted exactly when
/// `accepted[i]`.
pub open spec fn deliveries(ids: Seq<Seq<char>>, accepted: Seq<bool>, msg: Seq<char>) -> Seq<
    (Seq<char>, Seq<char>),
>
    decreases ids.len(),
{
    if ids.len() == 0 || accepted.len() == 0 {
        Seq::empty()
    } else {
        let rest = deliveries(ids.drop_last(), accepted.drop_last(), msg);
        if accepted.last() {
            rest.push((ids.last(), msg))
        } else {
            rest
        }
    }
}

/// Extending a publish by one more subscriber keeps its item among the
/// survivors exactly when its send was accepted.
proof fn lemma_survivors_step<A>(items: Seq<A>, accepted: Seq<bool>, k: int, b: bool)
    requires
        0 <= k < items.len(),
        accepted.len() == k,
    ensures
        survivors(items.take(k + 1), accepted.push(b)) == if b {
            survivors(items.take(k), accepted).push(items[k])
        } else {
            survivors(items.take(k), accepted)
        },
{
    assert(items.take(k + 1).drop_last() =~= items.take(k));
    assert(accepted.push(b).drop_last() =~= accepted);
}

/// Extending a publish by one more subscriber adds that subscriber to the
/// survivors and to the deliveries exactly when its send was accepted.
proof fn lemma_publish_step(ids: Seq<Seq<char>>, accepted: Seq<bool>, k: int, b: bool, msg: Seq<char>)
    requires
        0 <= k < ids.len(),
        accepted.len() == k,
    ensures
        survivors(ids.take(k + 1), accepted.push(b)) == if b {
            survivors(ids.take(k), accepted).push(ids[k])
        } else {
            survivors(ids.take(k), accepted)
        },
        deliveries(ids.take(k + 1), accepted.push(b), msg) == if b {
            deliveries(ids.take(k), accepted, msg).push((ids[k], msg))
        } else {
            deliveries(ids.take(k), accepted, msg)
        },
{
    lemma_survivors_step(ids, accepted, k, b);
    assert(ids.take(k + 1).drop_last() =~= ids.take(k));
    assert(accepted.push(b).drop_last() =~= accepted);
}

/// Every survivor of a publish was registered before it, and survivors keep
/// ids unique.
pub proof fn lemma_survivors_subset(ids: Seq<Seq<char>>, accepted: Seq<bool>)
    requires
        ids.no_duplicates(),
        accepted.len() == ids.len(),
    ensures
        survivors(ids, accepted).no_duplicates(),
        forall|x: Seq<char>| #[trigger] survivors(ids, accepted).contains(x) ==> ids.contains(x),
    decreases ids.len(),
{
    if ids.len() > 0 {
        let front = ids.drop_last();
        assert(front.no_duplicates());
        lemma_survivors_subset(front, accepted.drop_last());
        let rest = survivors(front, accepted.drop_last());
        if rest.contains(ids.last()) {
            let j = choose|j: int| 0 <= j < front.len() && front[j] == ids.last();
            assert(ids[j] == ids[ids.len() - 1]);
        }
        assert forall|x: Seq<char>| #[trigger] survivors(ids, accepted).contains(x) implies ids.contains(x) by {
            if rest.contains(x) {
                let j = choose|j: int| 0 <= j < front.len() && front[j] == x;
                assert(ids[j] == x);
            } else {
                assert(x == ids.last());
                assert(ids[ids.len() - 1] == x);
            }
        }
    }
}

/// The broker: the registry, the consuming end of the command channel, and a
/// record of every payload that a subscriber's channel accepted.
pub struct Broker {
    subs: Vec<Subscription>,
    receiver: Receiver<Operation>,
    delivered: Ghost<Seq<(Seq<char>, Seq<char>)>>,
}

impl Broker {
    /// The ids of the registered subscribers, in registry order.
    pub closed spec fn ids(&self) -> Seq<Seq<char>> {
        ids_of(self.subs@)
    }

    /// The registry: each subscriber's id with the sender that delivers to it.
    pub closed spec fn entries(&self) -> Seq<(Seq<char>, Sender<String>)> {
        entries_of(self.subs@)
    }

    /// The consuming end of the command channel.
    pub closed spec fn command_source(&self) -> Receiver<Operation> {
        self.receiver
    }

    /// Every (subscriber, payload) pair handed to a subscriber's channel and
    /// accepted by it, in the order of the sends.
    pub closed spec fn delivered(&self) -> Seq<(Seq<char>, Seq<char>)> {
        self.delivered@
    }

    /// Registry ids are unique.
    pub open spec fn wf(&self) -> bool {
        self.ids().no_duplicates()
    }

    /// A dormant broker with an empty registry, and the producing end of its
    /// command channel.
    pub fn new() -> (r: (Broker, Sender<Operation>))
        ensures
            r.0.wf(),
            r.0.ids() == Seq::<Seq<char>>::empty(),
            r.0.entries() == Seq::<(Seq<char>, Sender<String>)>::empty(),
            r.0.delivered() == Seq::<(Seq<char>, Seq<char>)>::empty(),
    {
        let (sender, receiver) = std::sync::mpsc::channel();
        let broker = Broker { subs: Vec::new(), receiver, delivered: Ghost(Seq::empty()) };
        proof {
            assert(ids_of(broker.subs@) =~= Seq::empty());
            assert(entries_of(broker.subs@) =~= Seq::empty());
        }
        (broker, sender)
    }

    /// The place of `id` in the registry, if it is registered.
    fn position(&self, id: &String) -> (r: Option<usize>)
        ensures
            r matches Some(j) ==> j < self.ids().len() && self.ids()[j as int] == id@,
            r is None ==> !self.ids().contains(id@),
    {
        let mut j: usize = 0;
        while j < self.subs.len()
            invariant
                j <= self.subs@.len(),
                forall|t: int| 0 <= t < j ==> self.ids()[t] != id@,
            decreases self.subs@.len() - j,
        {
            if self.subs[j].id == *id {
                return Some(j);
            }
            j = j + 1;
        }
        proof {
            assert forall|t: int| 0 <= t < self.ids().len() implies self.ids()[t] != id@ by {}
        }
        None
    }

    /// Registers `id` with `sender`. A known `id` keeps its place and its old
    /// sender is dropped (last writer wins); a new one goes at the end.
    pub fn subscribe(&mut self, id: String, sender: Sender<String>)
        requires
            old(self).wf(),
        ensures
            final(self).wf(),
            final(self).ids() == ids_after_subscribe(old(self).ids(), id@),
            final(self).entries() == entries_after_subscribe(old(self).entries(), id@, sender),
            final(self).delivered() == old(self).delivered(),
            final(self).command_source() == old(self).command_source(),
    {
        let ghost old_ids = self.ids();
        let ghost old_entries = self.entries();
        proof {
            assert(keys(old_entries) =~= old_ids);
        }
        match self.position(&id) {
            Some(j) => {
                let ghost new_id = id@;
                let ghost new_sender = sender;
                self.subs[j] = Subscription { id, sender };
                proof {
                    assert(self.ids() =~= old_ids.update(j as int, new_id));
                    assert(old_ids.contains(new_id));
                    assert(old_ids.update(j as int, new_id) =~= old_ids);
                    let c = old_ids.index_of(new_id);
                    assert(old_ids[c] == old_ids[j as int]);
                    assert(c == j);
                    assert(self.entries() =~= old_entries.update(j as int, (new_id, new_sender)));
                }
            },
            None => {
                let ghost new_id = id@;
                let ghost new_sender = sender;
                self.subs.push(Subscription { id, sender });
                proof {
                    assert(self.ids() =~= old_ids.push(new_id));
                    assert(self.entries() =~= old_entries.push((new_id, new_sender)));
                }
            },
        }
    }

    /// Removes `id` from the registry, dropping its sender; an unknown `id`
    /// is no error and changes nothing.
    pub fn unsubscribe(&mut self, id: &str)
        requires
            old(self).wf(),
        ensures
            final(self).wf(),
            final(self).ids() == ids_after_unsubscribe(old(self).ids(), id@),
            final(self).entries() == entries_after_unsubscribe(old(self).entries(), id@),
            !final(self).ids().contains(id@),
            final(self).delivered() == old(self).delivered(),
            final(self).command_source() == old(self).command_source(),
    {
        let ghost old_ids = self.ids();
        let ghost old_entries = self.entries();
        proof {
            assert(keys(old_entries) =~= old_ids);
        }
        let key = id.to_owned();
        if let Some(j) = self.position(&key) {
            let _gone = self.subs.remove(j);
            proof {
                assert(self.ids() =~= old_ids.remove(j as int));
                assert(self.entries() =~= old_entries.remove(j as int));
                assert(old_ids.contains(id@));
                let c = old_ids.index_of(id@);
                assert(old_ids[c] == old_ids[j as int]);
                assert(c == j);
                assert forall|a: int, b: int|
                    0 <= a < b < self.ids().len() implies self.ids()[a] != self.ids()[b] by {
                    let a0 = if a < j { a } else { a + 1 };
                    let b0 = if b < j { b } else { b + 1 };
                    assert(self.ids()[a] == old_ids[a0]);
                    assert(self.ids()[b] == old_ids[b0]);
                }
                if self.ids().contains(id@) {
                    let t = choose|t: int| 0 <= t < self.ids().len() && self.ids()[t] == id@;
                    let t0 = if t < j { t } else { t + 1 };
                    assert(self.ids()[t] == old_ids[t0]);
                }
            }
        }
    }

    /// Drops every subscriber's sender, so that each receiving end sees its
    /// channel closed.
    pub fn close(&mut self)
        requires
            old(self).wf(),
        ensures
            final(self).wf(),
            final(self).ids() == Seq::<Seq<char>>::empty(),
            final(self).entries() == Seq::<(Seq<char>, Sender<String>)>::empty(),
            final(self).delivered() == old(self).delivered(),
            final(self).command_source() == old(self).command_source(),
    {
        self.subs.clear();
        proof {
            assert(self.ids() =~= Seq::<Seq<char>>::empty());
            assert(self.entries() =~= Seq::<(Seq<char>, Sender<String>)>::empty());
        }
    }

    /// Carries out one command. Returns whether the broker keeps running:
    /// false after `Close`, true after any other command.
    pub fn handle(&mut self, op: Operation) -> (running: bool)
        requires
            old(self).wf(),
        ensures
            final(self).wf(),
            running == !(op is Close),
            handled(*old(self), *final(self), op),
            old(self).delivered().is_prefix_of(final(self).delivered()),
    {
        match op {
            Operation::Sub { id, sender } => {
                self.subscribe(id, sender);
                true
            },
            Operation::Unsub(id) => {
                self.unsubscribe(id.as_str());
                true
            },
            Operation::Pub(msg) => {
                self.publish(msg.as_str());
                true
            },
            Operation::Close => {
                self.close();
                false
            },
        }
    }

    /// Waits for the next command and carries it out. Returns false once the
    /// broker should stop: after `Close`, or when every producer is gone (the
    /// broker is then left as it was). Whatever arrives, the record of
    /// deliveries only grows.
    pub fn step(&mut self) -> (running: bool)
        requires
            old(self).wf(),
        ensures
            final(self).wf(),
            old(self).delivered().is_prefix_of(final(self).delivered()),
            running ==> exists|op: Operation|
                !(op is Close) && #[trigger] handled(*old(self), *final(self), op),
            !running ==> handled(*old(self), *final(self), Operation::Close) || *final(self)
                == *old(self),
    {
        match self.receiver.recv() {
            Ok(op) => {
                let ghost received = op;
                let ghost before = *self;
                let running = self.handle(op);
                proof {
                    assert(handled(before, *self, received));
                }
                running
            },
            Err(_) => false,
        }
    }

    /// Hands `msg` to every registered subscriber. A subscriber whose channel
    /// refuses it (its receiving end is gone) leaves the registry; every other
    /// one stays, in order, and the failure of one send stops no other.
    pub fn publish(&mut self, msg: &str)
        requires
            old(self).wf(),
        ensures
            final(self).wf(),
            exists|accepted: Seq<bool>|
                accepted.len() == old(self).ids().len() && final(self).ids() == survivors(
                    old(self).ids(),
                    accepted,
                ) && final(self).delivered() == old(self).delivered() + deliveries(
                    old(self).ids(),
                    accepted,
                    msg@,
                ) && final(self).entries() == survivors(old(self).entries(), accepted),
            old(self).delivered().is_prefix_of(final(self).delivered()),
            final(self).command_source() == old(self).command_source(),
    {
        let ghost old_ids = self.ids();
        let ghost old_entries = self.entries();
        let ghost old_delivered = self.delivered@;
        let ghost mut accepted: Seq<bool> = Seq::empty();
        let ghost mut k: int = 0;
        let mut i: usize = 0;
        proof {
            assert(old_ids.take(0) =~= Seq::<Seq<char>>::empty());
            assert(old_ids.skip(0) =~= old_ids);
            assert(survivors(old_ids.take(0), accepted) =~= Seq::<Seq<char>>::empty());
            assert(old_entries.take(0) =~= Seq::<(Seq<char>, Sender<String>)>::empty());
            assert(old_entries.skip(0) =~= old_entries);
            assert(survivors(old_entries.take(0), accepted).len() == 0);
            assert(survivors(old_entries.take(0), accepted) =~= Seq::<
                (Seq<char>, Sender<String>),
            >::empty());
            assert(deliveries(old_ids.take(0), accepted, msg@) =~= Seq::empty());
            assert(old_delivered + Seq::<(Seq<char>, Seq<char>)>::empty() =~= old_delivered);
        }
        while i < self.subs.len()
            invariant
                0 <= k <= old_ids.len(),
                accepted.len() == k,
                i == survivors(old_ids.take(k), accepted).len(),
                i == survivors(old_entries.take(k), accepted).len(),
                ids_of(self.subs@) == survivors(old_ids.take(k), accepted) + old_ids.skip(k),
                entries_of(self.subs@) == survivors(old_entries.take(k), accepted)
                    + old_entries.skip(k),
                old_ids.len() == old_entries.len(),
                self.receiver == old(self).receiver,
                self.delivered@ == old_delivered + deliveries(old_ids.take(k), accepted, msg@),
            decreases old_ids.len() - k,
        {
            proof {
                assert(ids_of(self.subs@).len() == self.subs@.len());
                assert(entries_of(self.subs@).len() == self.subs@.len());
            }
            let ghost before = self.subs@;
            let sent = self.subs[i].sender.send(msg.to_owned());
            proof {
                assert(ids_of(self.subs@)[i as int] == old_ids[k]);
                lemma_publish_step(old_ids, accepted, k, sent.is_ok(), msg@);
                lemma_survivors_step(old_entries, accepted, k, sent.is_ok());
                assert(old_ids.skip(k + 1) =~= old_ids.skip(k).drop_first());
                assert(old_entries.skip(k + 1) =~= old_entries.skip(k).drop_first());
                assert(entries_of(self.subs@)[i as int] == old_entries[k]);
            }
            if sent.is_ok() {
                proof {
                    self.delivered@ = self.delivered@.push((old_ids[k], msg@));
                    assert(ids_of(self.subs@) =~= survivors(old_ids.take(k), accepted).push(old_ids[k])
                        + old_ids.skip(k + 1));
                    assert(entries_of(self.subs@) =~= survivors(old_entries.take(k), accepted).push(
                        old_entries[k],
                    ) + old_entries.skip(k + 1));
                }
                i = i + 1;
            } else {
                let _gone = self.subs.remove(i);
                proof {
                    assert(ids_of(self.subs@) =~= ids_of(before).remove(i as int));
                    assert(entries_of(self.subs@) =~= entries_of(before).remove(i as int));
                    assert(old_ids.skip(k).drop_first() =~= old_ids.skip(k + 1));
                    assert(entries_of(self.subs@) =~= survivors(old_entries.take(k), accepted)
                        + old_entries.skip(k + 1));
                    assert(ids_of(self.subs@) =~= survivors(old_ids.take(k), accepted) + old_ids.skip(
                        k + 1,
                    ));
                }
            }
            proof {
                accepted = accepted.push(sent.is_ok());
                k = k + 1;
            }
        }
        proof {
            assert(ids_of(self.subs@).len() == self.subs@.len());
            assert(k == old_ids.len());
            assert(old_ids.take(k) =~= old_ids);
            assert(old_ids.skip(k) =~= Seq::<Seq<char>>::empty());
            assert(ids_of(self.subs@) =~= survivors(old_ids, accepted));
            assert(old_entries.take(k) =~= old_entries);
            assert(old_entries.skip(k) =~= Seq::<(Seq<char>, Sender<String>)>::empty());
            assert(entries_of(self.subs@) =~= survivors(old_entries, accepted));
            lemma_survivors_subset(old_ids, accepted);
            assert(self.delivered@.subrange(0, old_delivered.len() as int) =~= old_delivered);
        }
    }

    /// The number of registered subscribers.
    pub fn subscriber_count(&self) -> (r: usize)
        ensures
            r == self.ids().len(),
    {
        self.subs.len()
    }

    /// Whether `id` is registered.
    pub fn is_subscribed(&self, id: &str) -> (r: bool)
        ensures
            r == self.ids().contains(id@),
    {
        let key = id.to_owned();
        self.position(&key).is_some()
    }
}

/// Whether `after` is `before` with `op` carried out.
pub open spec fn handled(before: Broker, after: Broker, op: Operation) -> bool {
    &&& after.command_source() == before.command_source()
    &&& match op {
        Operation::Sub { id, sender } => {
            &&& after.ids() == ids_after_subscribe(before.ids(), id@)
            &&& after.entries() == entries_after_subscribe(before.entries(), id@, sender)
            &&& after.delivered() == before.delivered()
        },
        Operation::Unsub(id) => {
            &&& after.ids() == ids_after_unsubscribe(before.ids(), id@)
            &&& after.entries() == entries_after_unsubscribe(before.entries(), id@)
            &&& after.delivered() == before.delivered()
        },
        Operation::Pub(msg) => exists|accepted: Seq<bool>|
            {
                &&& accepted.len() == before.ids().len()
                &&& after.ids() == survivors(before.ids(), accepted)
                &&& after.entries() == survivors(before.entries(), accepted)
                &&& after.delivered() == before.delivered() + deliveries(
                    before.ids(),
                    accepted,
                    msg@,
                )
            },
        Operation::Close => {
            &&& after.ids() == Seq::<Seq<char>>::empty()
            &&& after.entries() == Seq::<(Seq<char>, Sender<String>)>::empty()
            &&& after.delivered() == before.delivered()
        },
    }
}

} // verus!
