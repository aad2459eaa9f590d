//! The notification bus: a publish/subscribe relay between the synchronizer
//! and any number of observers, neither knowing about the other.
//!
//! Each subscription owns an inbox.  Publishing appends the notification to
//! every current subscriber's inbox, in subscription order, so an observer
//! reads its notifications in exactly the order they were published.  An
//! observer that is slow or failing only leaves its own inbox unread; it
//! cannot keep a notification from reaching the others.

use vstd::prelude::*;
use crate::sync::Notification;

verus! {

/// One subscription: its handle and the notifications delivered to it, in
/// delivery order, not yet read by its owner.
pub struct Subscription {
    pub id: u64,
    pub inbox: Vec<Notification>,
}

/// Subscription handles are strictly increasing, so every live handle is
/// unique and below the next one to be handed out.
pub open spec fn ids_ok(subs: Seq<Subscription>, next: u64) -> bool {
    &&& forall|i: int, j: int|
        0 <= i < j < subs.len() ==> (#[trigger] subs[i]).id < (#[trigger] subs[j]).id
    &&& forall|i: int| 0 <= i < subs.len() ==> (#[trigger] subs[i]).id < next
}

/// One publish: every subscriber keeps its handle and gains exactly the
/// published notification at the end of its inbox.
pub open spec fn publish_step(
    pre: Seq<Subscription>,
    n: Notification,
    post: Seq<Subscription>,
) -> bool {
    &&& post.len() == pre.len()
    &&& forall|i: int|
        0 <= i < pre.len() ==> (#[trigger] post[i]).id == pre[i].id && post[i].inbox@
            == pre[i].inbox@.push(n)
}

/// The subscriptions left after removing the one with the given handle, if
/// any; all others keep their relative order.
pub open spec fn remove_id(subs: Seq<Subscription>, h: u64) -> Seq<Subscription>
    decreases subs.len(),
{
    if subs.len() == 0 {
        Seq::empty()
    } else if subs.last().id == h {
        remove_id(subs.drop_last(), h)
    } else {
        remove_id(subs.drop_last(), h).push(subs.last())
    }
}

/// The inbox of the subscription with the given handle, or nothing when no
/// subscription carries it.
pub open spec fn inbox_of(subs: Seq<Subscription>, h: u64) -> Option<Seq<Notification>>
    decreases subs.len(),
{
    if subs.len() == 0 {
        Option::None
    } else if subs[0].id == h {
        Option::Some(subs[0].inbox@)
    } else {
        inbox_of(subs.skip(1), h)
    }
}

/// A handle has an inbox exactly when some subscription carries it.
proof fn lemma_inbox_of_some(subs: Seq<Subscription>, h: u64)
    ensures
        inbox_of(subs, h) is Some <==> exists|i: int| 0 <= i < subs.len() && (#[trigger] subs[i]).id
            == h,
    decreases subs.len(),
{
    if subs.len() > 0 && subs[0].id != h {
        lemma_inbox_of_some(subs.skip(1), h);
        if inbox_of(subs, h) is Some {
            let i = choose|i: int| 0 <= i < subs.skip(1).len() && (#[trigger] subs.skip(1)[i]).id
                == h;
            assert(subs[i + 1].id == h);
        }
        if exists|i: int| 0 <= i < subs.len() && (#[trigger] subs[i]).id == h {
            let i = choose|i: int| 0 <= i < subs.len() && (#[trigger] subs[i]).id == h;
            assert(subs.skip(1)[i - 1].id == h);
        }
    }
}

/// Removing a handle that no subscription carries changes nothing.
proof fn lemma_remove_id_absent(subs: Seq<Subscription>, h: u64)
    requires
        forall|i: int| 0 <= i < subs.len() ==> (#[trigger] subs[i]).id != h,
    ensures
        remove_id(subs, h) == subs,
    decreases subs.len(),
{
    if subs.len() > 0 {
        assert(subs.last().id != h);
        lemma_remove_id_absent(subs.drop_last(), h);
        assert(subs.drop_last().push(subs.last()) =~= subs);
    }
}

/// Removing a handle leaves exactly the other subscriptions, in order.
proof fn lemma_remove_id_at(subs: Seq<Subscription>, h: u64, at: int)
    requires
        0 <= at < subs.len(),
        subs[at].id == h,
        forall|i: int| 0 <= i < subs.len() && i != at ==> (#[trigger] subs[i]).id != h,
    ensures
        remove_id(subs, h) == subs.subrange(0, at) + subs.subrange(at + 1, subs.len() as int),
    decreases subs.len(),
{
    if at == subs.len() - 1 {
        assert(subs.last().id == h);
        lemma_remove_id_absent(subs.drop_last(), h);
        assert(subs.drop_last() =~= subs.subrange(0, at) + subs.subrange(
            at + 1,
            subs.len() as int,
        ));
    } else {
        assert(subs.last().id != h);
        let d = subs.drop_last();
        assert(d[at].id == h);
        lemma_remove_id_at(d, h, at);
        assert((d.subrange(0, at) + d.subrange(at + 1, d.len() as int)).push(subs.last()) =~= subs
            .subrange(0, at) + subs.subrange(at + 1, subs.len() as int));
        assert(d.subrange(0, at) =~= subs.subrange(0, at));
    }
}

/// No subscription carries a handle once it has been removed.
proof fn lemma_remove_id_gone(subs: Seq<Subscription>, h: u64)
    ensures
        forall|i: int|
            0 <= i < remove_id(subs, h).len() ==> (#[trigger] remove_id(subs, h)[i]).id != h,
    decreases subs.len(),
{
    if subs.len() > 0 {
        lemma_remove_id_gone(subs.drop_last(), h);
        if subs.last().id != h {
            let r = remove_id(subs.drop_last(), h).push(subs.last());
            assert forall|i: int| 0 <= i < r.len() implies (#[trigger] r[i]).id != h by {
                if i < r.len() - 1 {
                    assert(r[i] == remove_id(subs.drop_last(), h)[i]);
                } else {
                    assert(r[i] == subs.last());
                }
            }
        }
    }
}

/// The bus: the current subscriptions and the next handle to hand out.
pub struct Bus {
    pub subs: Vec<Subscription>,
    pub next_id: u64,
}

impl Bus {
    /// The bus's invariant: handles are unique and below `next_id`.
    pub open spec fn wf(&self) -> bool {
        ids_ok(self.subs@, self.next_id)
    }

    /// A fresh bus with no subscribers.
    pub fn new() -> (b: Bus)
        ensures
            b.subs@.len() == 0,
            b.next_id == 0,
            b.wf(),
    {
        Bus { subs: Vec::new(), next_id: 0 }
    }

    /// Registers a new observer: appends a subscription with a fresh handle
    /// and an empty inbox, and returns the handle.
    pub fn subscribe(&mut self) -> (h: u64)
        requires
            old(self).wf(),
            old(self).next_id < u64::MAX,
        ensures
            final(self).wf(),
            h == old(self).next_id,
            final(self).subs@.len() == old(self).subs@.len() + 1,
            final(self).subs@.subrange(0, old(self).subs@.len() as int) == old(self).subs@,
            final(self).subs@.last().id == h,
            final(self).subs@.last().inbox@ == Seq::<Notification>::empty(),
    {
        let h = self.next_id;
        self.next_id = self.next_id + 1;
        self.subs.push(Subscription { id: h, inbox: Vec::new() });
        proof {
            assert(self.subs@.subrange(0, old(self).subs@.len() as int) =~= old(self).subs@);
        }
        h
    }

    /// Delivers a notification to every current subscriber, in subscription
    /// order: each inbox gains exactly this notification at its end.
    pub fn publish(&mut self, n: Notification)
        requires
            old(self).wf(),
        ensures
            final(self).wf(),
            final(self).next_id == old(self).next_id,
            publish_step(old(self).subs@, n, final(self).subs@),
    {
        let mut updated: Vec<Subscription> = Vec::new();
        let len = self.subs.len();
        let mut i: usize = 0;
        while i < len
            invariant
                i <= len,
                len == self.subs@.len(),
                self.subs@ == old(self).subs@,
                self.next_id == old(self).next_id,
                updated@.len() == i,
                forall|j: int|
                    0 <= j < i ==> (#[trigger] updated@[j]).id == self.subs@[j].id
                        && updated@[j].inbox@ == self.subs@[j].inbox@.push(n),
            decreases len - i,
        {
            let sub = &self.subs[i];
            let mut nb = copy_notifications(&sub.inbox);
            nb.push(n);
            updated.push(Subscription { id: sub.id, inbox: nb });
            i = i + 1;
        }
        self.subs = updated;
    }

    /// Withdraws a subscription: the handle's entry, if any, is removed; all
    /// other subscriptions are untouched.  Removing a handle twice is a
    /// no-op the second time.
    pub fn unsubscribe(&mut self, h: u64)
        requires
            old(self).wf(),
        ensures
            final(self).wf(),
            final(self).next_id == old(self).next_id,
            final(self).subs@ == remove_id(old(self).subs@, h),
    {
        let len = self.subs.len();
        let mut i: usize = 0;
        while i < len
            invariant
                i <= len,
                len == self.subs@.len(),
                self.subs@ == old(self).subs@,
                self.next_id == old(self).next_id,
                old(self).wf(),
                forall|j: int| 0 <= j < i ==> (#[trigger] self.subs@[j]).id != h,
            decreases len - i,
        {
            if self.subs[i].id == h {
                proof {
                    lemma_remove_id_at(self.subs@, h, i as int);
                }
                self.subs.remove(i);
                proof {
                    assert(self.subs@ =~= old(self).subs@.subrange(0, i as int) + old(
                        self,
                    ).subs@.subrange(i + 1 as int, len as int));
                }
                return ;
            }
            i = i + 1;
        }
        proof {
            lemma_remove_id_absent(self.subs@, h);
        }
    }

    /// Reads a copy of the inbox of the given handle: the notifications
    /// delivered to it so far, in delivery order, or nothing for a handle
    /// that is not subscribed.
    pub fn notifications(&self, h: u64) -> (r: Option<Vec<Notification>>)
        ensures
            match r {
                Option::Some(v) => inbox_of(self.subs@, h) == Option::Some(v@),
                Option::None => inbox_of(self.subs@, h) is None,
            },
    {
        let len = self.subs.len();
        let mut i: usize = 0;
        proof {
            assert(self.subs@.skip(0) =~= self.subs@);
        }
        while i < len
            invariant
                i <= len,
                len == self.subs@.len(),
                inbox_of(self.subs@, h) == inbox_of(self.subs@.skip(i as int), h),
            decreases len - i,
        {
            proof {
                assert(self.subs@.skip(i as int)[0] == self.subs@[i as int]);
                assert(self.subs@.skip(i as int).skip(1) =~= self.subs@.skip(i + 1 as int));
            }
            if self.subs[i].id == h {
                return Option::Some(copy_notifications(&self.subs[i].inbox));
            }
            i = i + 1;
        }
        Option::None
    }
}

fn copy_notifications(v: &Vec<Notification>) -> (r: Vec<Notification>)
    ensures
        r@ == v@,
{
    let mut r: Vec<Notification> = Vec::new();
    let mut i: usize = 0;
    while i < v.len()
        invariant
            i <= v@.len(),
            r@ == v@.subrange(0, i as int),
        decreases v@.len() - i,
    {
        r.push(v[i]);
        proof {
            assert(r@ =~= v@.subrange(0, i + 1 as int));
        }
        i = i + 1;
    }
    proof {
        assert(v@.subrange(0, v@.len() as int) =~= v@);
    }
    r
}

// ---------------------------------------------------------------------------
// Laws of the bus.
// ---------------------------------------------------------------------------

/// A run of publishes: the subscriptions go through one `publish_step` per
/// notification, in the order given.
pub open spec fn publish_trace(
    pre: Seq<Subscription>,
    ns: Seq<Notification>,
    post: Seq<Subscription>,
) -> bool
    decreases ns.len(),
{
    if ns.len() == 0 {
        post == pre
    } else {
        exists|mid: Seq<Subscription>|
            #[trigger] publish_step(pre, ns[0], mid) && publish_trace(mid, ns.skip(1), post)
    }
}

/// Notification ordering matches processing order: over any run of
/// publishes, every subscriber present throughout ends with its old inbox
/// followed by exactly the published notifications, in publish order — so
/// all subscribers see the same relative order.
pub proof fn lemma_publish_trace_order(
    s0: Seq<Subscription>,
    ns: Seq<Notification>,
    s1: Seq<Subscription>,
    i: int,
)
    requires
        publish_trace(s0, ns, s1),
        0 <= i < s0.len(),
    ensures
        s1.len() == s0.len(),
        s1[i].id == s0[i].id,
        s1[i].inbox@ == s0[i].inbox@ + ns,
    decreases ns.len(),
{
    if ns.len() == 0 {
        assert(s1[i].inbox@ =~= s0[i].inbox@ + ns);
    } else {
        let mid = choose|mid: Seq<Subscription>|
            #[trigger] publish_step(s0, ns[0], mid) && publish_trace(mid, ns.skip(1), s1);
        lemma_publish_trace_order(mid, ns.skip(1), s1, i);
        assert(s1[i].inbox@ =~= s0[i].inbox@ + ns);
    }
}

/// After `unsubscribe`, a handle receives nothing further: the removed
/// handle has no inbox, and publishing afterwards still leaves it none.
pub proof fn lemma_unsubscribe_stops_delivery(
    s0: Seq<Subscription>,
    h: u64,
    n: Notification,
    s2: Seq<Subscription>,
)
    requires
        publish_step(remove_id(s0, h), n, s2),
    ensures
        inbox_of(remove_id(s0, h), h) is None,
        inbox_of(s2, h) is None,
{
    lemma_remove_id_gone(s0, h);
    lemma_inbox_of_some(remove_id(s0, h), h);
    lemma_inbox_of_some(s2, h);
    if exists|i: int| 0 <= i < s2.len() && (#[trigger] s2[i]).id == h {
        let i = choose|i: int| 0 <= i < s2.len() && (#[trigger] s2[i]).id == h;
        assert(remove_id(s0, h)[i].id == h);
    }
}

/// Unsubscribing a handle a second time is a no-op: the first removal left
/// no subscription with that handle, so the second removes nothing.
pub proof fn lemma_unsubscribe_twice(s0: Seq<Subscription>, h: u64)
    ensures
        remove_id(remove_id(s0, h), h) == remove_id(s0, h),
{
    lemma_remove_id_gone(s0, h);
    lemma_remove_id_absent(remove_id(s0, h), h);
}

} // verus!
