//! What a run of broker commands hands to one subscriber, and the guarantees
//! that follow from the broker's contracts.
use crate::broker::{deliveries, ids_after_unsubscribe, survivors};
use vstd::prelude::*;

verus! {

/// The payloads that `log` hands to `id`, in order.
pub open spec fn received(log: Seq<(Seq<char>, Seq<char>)>, id: Seq<char>) -> Seq<Seq<char>>
    decreases log.len(),
{
    if log.len() == 0 {
        Seq::empty()
    } else {
        let rest = received(log.drop_last(), id);
        if log.last().0 == id {
            rest.push(log.last().1)
        } else {
            rest
        }
    }
}

/// What a subscriber receives from two logs in turn is what it receives from
/// the first, then what it receives from the second.
pub proof fn lemma_received_append(
    a: Seq<(Seq<char>, Seq<char>)>,
    b: Seq<(Seq<char>, Seq<char>)>,
    id: Seq<char>,
)
    ensures
        received(a + b, id) == received(a, id) + received(b, id),
    decreases b.len(),
{
    if b.len() == 0 {
        assert(a + b =~= a);
        assert(received(a, id) + received(b, id) =~= received(a, id));
    } else {
        lemma_received_append(a, b.drop_last(), id);
        assert((a + b).drop_last() =~= a + b.drop_last());
        assert((a + b).last() == b.last());
        if b.last().0 == id {
            assert(received(a, id) + received(b, id) =~= (received(a, id) + received(
                b.drop_last(),
                id,
            )).push(b.last().1));
        }
    }
}

/// One publish hands `msg` to a registered subscriber once if its send was
/// accepted, and not at all otherwise; one that is not registered gets nothing.
proof fn lemma_one_publish(ids: Seq<Seq<char>>, accepted: Seq<bool>, msg: Seq<char>, id: Seq<char>)
    requires
        ids.no_duplicates(),
        accepted.len() == ids.len(),
    ensures
        received(deliveries(ids, accepted, msg), id) == if ids.contains(id) && accepted[ids.index_of(
            id,
        )] {
            seq![msg]
        } else {
            Seq::<Seq<char>>::empty()
        },
        survivors(ids, accepted).contains(id) <==> ids.contains(id) && accepted[ids.index_of(id)],
    decreases ids.len(),
{
    if ids.len() > 0 {
        let front = ids.drop_last();
        let n = ids.len() - 1;
        assert(front.no_duplicates());
        lemma_one_publish(front, accepted.drop_last(), msg, id);
        let d = deliveries(ids, accepted, msg);
        let rest = deliveries(front, accepted.drop_last(), msg);
        let sv = survivors(front, accepted.drop_last());
        if ids.last() == id {
            assert(ids[n] == id);
            assert(ids.contains(id));
            assert(ids.index_of(id) == n);
            if front.contains(id) {
                let j = choose|j: int| 0 <= j < front.len() && front[j] == id;
                assert(ids[j] == ids[n]);
            }
            if accepted.last() {
                assert(d.drop_last() =~= rest);
                assert(received(d, id) =~= seq![msg]);
                assert(survivors(ids, accepted)[sv.len() as int] == id);
            } else {
                assert(received(d, id) =~= Seq::<Seq<char>>::empty());
            }
        } else {
            if accepted.last() {
                assert(d.drop_last() =~= rest);
            }
            if sv.contains(id) {
                let j = choose|j: int| 0 <= j < sv.len() && sv[j] == id;
                if accepted.last() {
                    assert(survivors(ids, accepted)[j] == id);
                }
            }
            if survivors(ids, accepted).contains(id) {
                let j = choose|j: int|
                    0 <= j < survivors(ids, accepted).len() && survivors(ids, accepted)[j] == id;
                if accepted.last() {
                    assert(j < sv.len());
                    assert(sv[j] == id);
                }
            }
            if ids.contains(id) {
                let j = ids.index_of(id);
                assert(j < n);
                assert(front[j] == id);
                assert(front.contains(id));
                let k = front.index_of(id);
                assert(ids[k] == id);
                assert(k == j);
            }
            if front.contains(id) {
                let j = choose|j: int| 0 <= j < front.len() && front[j] == id;
                assert(ids[j] == id);
            }
        }
    }
}

/// A publish hands its payload to each registered subscriber whose channel
/// accepts it exactly once; a subscriber whose channel refuses it gets
/// nothing and leaves the registry.
pub proof fn lemma_delivery(
    ids: Seq<Seq<char>>,
    accepted: Seq<bool>,
    log: Seq<(Seq<char>, Seq<char>)>,
    msg: Seq<char>,
    i: int,
)
    requires
        ids.no_duplicates(),
        accepted.len() == ids.len(),
        0 <= i < ids.len(),
    ensures
        accepted[i] ==> received(log + deliveries(ids, accepted, msg), ids[i]) == received(
            log,
            ids[i],
        ).push(msg),
        !accepted[i] ==> received(log + deliveries(ids, accepted, msg), ids[i]) == received(
            log,
            ids[i],
        ),
        accepted[i] <==> survivors(ids, accepted).contains(ids[i]),
{
    let id = ids[i];
    assert(ids.contains(id));
    let j = ids.index_of(id);
    assert(ids[j] == ids[i]);
    assert(j == i);
    lemma_one_publish(ids, accepted, msg, id);
    lemma_received_append(log, deliveries(ids, accepted, msg), id);
    assert(received(log, id) + seq![msg] =~= received(log, id).push(msg));
    assert(received(log, id) + Seq::<Seq<char>>::empty() =~= received(log, id));
}

/// Once `id` is unsubscribed, a publish hands it nothing, and it stays out of
/// the registry.
pub proof fn lemma_no_delivery_after_unsubscribe(
    ids: Seq<Seq<char>>,
    id: Seq<char>,
    accepted: Seq<bool>,
    msg: Seq<char>,
)
    requires
        ids.no_duplicates(),
        accepted.len() == ids_after_unsubscribe(ids, id).len(),
    ensures
        received(deliveries(ids_after_unsubscribe(ids, id), accepted, msg), id) == Seq::<
            Seq<char>,
        >::empty(),
        !survivors(ids_after_unsubscribe(ids, id), accepted).contains(id),
{
    let rest = ids_after_unsubscribe(ids, id);
    if ids.contains(id) {
        let j = ids.index_of(id);
        assert forall|a: int, b: int| 0 <= a < b < rest.len() implies rest[a] != rest[b] by {
            let a0 = if a < j { a } else { a + 1 };
            let b0 = if b < j { b } else { b + 1 };
            assert(rest[a] == ids[a0]);
            assert(rest[b] == ids[b0]);
        }
        if rest.contains(id) {
            let t = choose|t: int| 0 <= t < rest.len() && rest[t] == id;
            let t0 = if t < j { t } else { t + 1 };
            assert(rest[t] == ids[t0]);
        }
    }
    lemma_one_publish(rest, accepted, msg, id);
}

/// Two publishes in a row reach a subscriber registered before both in the
/// order they were made: it gets both, only the first, or neither, and never
/// the second without the first.
pub proof fn lemma_fifo(
    ids: Seq<Seq<char>>,
    first: Seq<bool>,
    second: Seq<bool>,
    m1: Seq<char>,
    m2: Seq<char>,
    id: Seq<char>,
)
    requires
        ids.no_duplicates(),
        first.len() == ids.len(),
        second.len() == survivors(ids, first).len(),
        ids.contains(id),
    ensures
        ({
            let got = received(
                deliveries(ids, first, m1) + deliveries(survivors(ids, first), second, m2),
                id,
            );
            got == seq![m1, m2] || got == seq![m1] || got == Seq::<Seq<char>>::empty()
        }),
{
    let mid = survivors(ids, first);
    crate::broker::lemma_survivors_subset(ids, first);
    lemma_one_publish(ids, first, m1, id);
    lemma_one_publish(mid, second, m2, id);
    lemma_received_append(deliveries(ids, first, m1), deliveries(mid, second, m2), id);
    assert(seq![m1] + seq![m2] =~= seq![m1, m2]);
    assert(seq![m1] + Seq::<Seq<char>>::empty() =~= seq![m1]);
    assert(Seq::<Seq<char>>::empty() + Seq::<Seq<char>>::empty() =~= Seq::<Seq<char>>::empty());
}

} // verus!
