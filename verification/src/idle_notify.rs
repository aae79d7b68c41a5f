//! Telling clients when the user goes idle.
//!
//! A client asks to be told once a span passes without input, and again on the
//! next input. That is how a phone dims after half a minute and goes dark after
//! a whole one without the shell knowing either number.
use vstd::prelude::*;

use crate::time::{elapsed, from_millis, millis, since, Nanos};

verus! {

/// One notification that a client asked for.
#[derive(Clone, Copy, Debug, PartialEq, Eq, Structural)]
pub struct NotificationData {
    pub timeout: Nanos,
    /// The client was told of idleness, and not yet of its end.
    pub idled: bool,
    /// It follows input alone: an inhibitor does not hold it back.
    pub ignore_inhibitor: bool,
}

/// A notification and the number by which its client knows it.
#[derive(Clone, Copy, Debug, PartialEq, Eq, Structural)]
pub struct Notification {
    pub id: u64,
    pub data: NotificationData,
}

/// What a client is told.
#[derive(Clone, Copy, Debug, PartialEq, Eq, Structural)]
pub enum Event {
    Idled(u64),
    Resumed(u64),
}

/// The notifications, and when input last arrived.
#[derive(Debug)]
pub struct IdleNotify {
    pub notifications: Vec<Notification>,
    pub last_activity: Nanos,
}

/// A notification after input, or after an inhibitor that it honours showed up.
pub open spec fn woken(n: Notification) -> Notification {
    Notification { data: NotificationData { idled: false, ..n.data }, ..n }
}

/// What a client is told when its notification is woken.
pub open spec fn waking(n: Notification) -> Option<Event> {
    if n.data.idled {
        Some(Event::Resumed(n.id))
    } else {
        None
    }
}

/// A notification after `quiet` time without input.
pub open spec fn polled(n: Notification, quiet: Nanos, inhibited: bool) -> Notification {
    if inhibited && !n.data.ignore_inhibitor {
        woken(n)
    } else if quiet >= n.data.timeout {
        Notification { data: NotificationData { idled: true, ..n.data }, ..n }
    } else {
        n
    }
}

/// What a client is told after `quiet` time without input.
pub open spec fn polling(n: Notification, quiet: Nanos, inhibited: bool) -> Option<Event> {
    if inhibited && !n.data.ignore_inhibitor {
        waking(n)
    } else if quiet >= n.data.timeout && !n.data.idled {
        Some(Event::Idled(n.id))
    } else {
        None
    }
}

/// The answers that are there, in order.
pub open spec fn told(events: Seq<Option<Event>>) -> Seq<Event>
    decreases events.len(),
{
    if events.len() == 0 {
        Seq::empty()
    } else {
        let rest = told(events.drop_last());
        match events.last() {
            Some(e) => rest.push(e),
            None => rest,
        }
    }
}

pub open spec fn all_woken(ns: Seq<Notification>) -> Seq<Notification> {
    ns.map_values(|n: Notification| woken(n))
}

pub open spec fn all_waking(ns: Seq<Notification>) -> Seq<Option<Event>> {
    ns.map_values(|n: Notification| waking(n))
}

pub open spec fn all_polled(ns: Seq<Notification>, quiet: Nanos, inhibited: bool) -> Seq<Notification> {
    ns.map_values(|n: Notification| polled(n, quiet, inhibited))
}

pub open spec fn all_polling(ns: Seq<Notification>, quiet: Nanos, inhibited: bool) -> Seq<Option<Event>> {
    ns.map_values(|n: Notification| polling(n, quiet, inhibited))
}

/// The notifications other than `id`.
pub open spec fn others(ns: Seq<Notification>, id: u64) -> Seq<Notification>
    decreases ns.len(),
{
    if ns.len() == 0 {
        Seq::empty()
    } else {
        let rest = others(ns.drop_last(), id);
        if ns.last().id == id {
            rest
        } else {
            rest.push(ns.last())
        }
    }
}

impl IdleNotify {
    pub fn new(now: Nanos) -> (r: Self)
        ensures
            r.notifications@ == Seq::<Notification>::empty(),
            r.last_activity == now,
    {
        IdleNotify { notifications: Vec::new(), last_activity: now }
    }

    /// A client asked to be told after `timeout_ms` milliseconds. A span of zero
    /// is reached at the next poll.
    pub fn request(&mut self, id: u64, timeout_ms: u32, ignore_inhibitor: bool)
        ensures
            final(self).last_activity == old(self).last_activity,
            final(self).notifications@ == old(self).notifications@.push(
                (Notification {
                    id,
                    data: NotificationData {
                        timeout: from_millis(timeout_ms as int) as Nanos,
                        idled: false,
                        ignore_inhibitor,
                    },
                }),
            ),
    {
        self.notifications.push(
            Notification {
                id,
                data: NotificationData {
                    timeout: millis(timeout_ms as u64),
                    idled: false,
                    ignore_inhibitor,
                },
            },
        );
    }

    /// A client gave up its notification, or is gone.
    pub fn destroyed(&mut self, id: u64)
        ensures
            final(self).last_activity == old(self).last_activity,
            final(self).notifications@ == others(old(self).notifications@, id),
    {
        let ghost was = self.notifications@;
        let mut left: Vec<Notification> = Vec::new();
        let mut i: usize = 0;
        while i < self.notifications.len()
            invariant
                i <= self.notifications.len(),
                self.notifications@ == was,
                left@ == others(was.take(i as int), id),
            decreases self.notifications.len() - i,
        {
            proof {
                assert(was.take(i + 1).drop_last() =~= was.take(i as int));
            }
            let n: Notification = self.notifications[i];
            if n.id != id {
                left.push(n);
            }
            i = i + 1;
        }
        proof {
            assert(was.take(i as int) =~= was);
        }
        self.notifications = left;
    }

    /// Input arrived: whoever was told of idleness is told of its end.
    pub fn activity(&mut self, now: Nanos) -> (out: Vec<Event>)
        ensures
            final(self).last_activity == now,
            final(self).notifications@ == all_woken(old(self).notifications@),
            out@ == told(all_waking(old(self).notifications@)),
    {
        self.last_activity = now;
        let ghost was = self.notifications@;
        let mut next: Vec<Notification> = Vec::new();
        let mut out: Vec<Event> = Vec::new();
        let mut i: usize = 0;
        proof {
            assert(all_waking(was).take(0) =~= Seq::<Option<Event>>::empty());
        }
        while i < self.notifications.len()
            invariant
                i <= self.notifications.len(),
                self.notifications@ == was,
                next@ =~= all_woken(was).take(i as int),
                out@ == told(all_waking(was).take(i as int)),
            decreases self.notifications.len() - i,
        {
            let mut n: Notification = self.notifications[i];
            proof {
                assert(all_waking(was).take(i + 1).drop_last() =~= all_waking(was).take(i as int));
                assert(all_waking(was).take(i + 1).last() == waking(n));
            }
            if n.data.idled {
                out.push(Event::Resumed(n.id));
            }
            n.data.idled = false;
            next.push(n);
            i = i + 1;
        }
        proof {
            assert(all_woken(was).take(i as int) =~= all_woken(was));
            assert(all_waking(was).take(i as int) =~= all_waking(was));
        }
        self.notifications = next;
        out
    }

    /// Once per turn of the loop: whoever's span has just passed is told.
    /// `inhibited` is whether something visible holds off idle; whoever honours
    /// that is treated as if input had arrived.
    pub fn refresh(&mut self, now: Nanos, inhibited: bool) -> (out: Vec<Event>)
        ensures
            final(self).last_activity == old(self).last_activity,
            final(self).notifications@ == all_polled(
                old(self).notifications@,
                elapsed(old(self).last_activity, now),
                inhibited,
            ),
            out@ == told(
                all_polling(
                    old(self).notifications@,
                    elapsed(old(self).last_activity, now),
                    inhibited,
                ),
            ),
    {
        let quiet: Nanos = since(self.last_activity, now);
        let ghost was = self.notifications@;
        let mut next: Vec<Notification> = Vec::new();
        let mut out: Vec<Event> = Vec::new();
        let mut i: usize = 0;
        let ghost answers = all_polling(was, quiet, inhibited);
        let ghost after = all_polled(was, quiet, inhibited);
        proof {
            assert(answers.take(0) =~= Seq::<Option<Event>>::empty());
        }
        while i < self.notifications.len()
            invariant
                i <= self.notifications.len(),
                self.notifications@ == was,
                answers == all_polling(was, quiet, inhibited),
                after == all_polled(was, quiet, inhibited),
                next@ =~= after.take(i as int),
                out@ == told(answers.take(i as int)),
            decreases self.notifications.len() - i,
        {
            let mut n: Notification = self.notifications[i];
            proof {
                assert(answers.take(i + 1).drop_last() =~= answers.take(i as int));
                assert(answers.take(i + 1).last() == polling(n, quiet, inhibited));
                assert(after[i as int] == polled(n, quiet, inhibited));
            }
            if inhibited && !n.data.ignore_inhibitor {
                if n.data.idled {
                    out.push(Event::Resumed(n.id));
                }
                n.data.idled = false;
            } else if quiet >= n.data.timeout {
                if !n.data.idled {
                    out.push(Event::Idled(n.id));
                }
                n.data.idled = true;
            }
            next.push(n);
            i = i + 1;
        }
        proof {
            assert(after.take(i as int) =~= after);
            assert(answers.take(i as int) =~= answers);
        }
        self.notifications = next;
        out
    }
}

/// A client hears of idleness and of its end in turn: never of the same one
/// twice in a row.
pub proof fn law_idle_and_resume_alternate(n: Notification, quiet: Nanos, inhibited: bool)
    ensures
        match polling(n, quiet, inhibited) {
            Some(Event::Idled(id)) => id == n.id && !n.data.idled && polled(
                n,
                quiet,
                inhibited,
            ).data.idled,
            Some(Event::Resumed(id)) => id == n.id && n.data.idled && !polled(
                n,
                quiet,
                inhibited,
            ).data.idled,
            None => polled(n, quiet, inhibited) == n,
        },
        match waking(n) {
            Some(e) => e == Event::Resumed(n.id) && n.data.idled && !woken(n).data.idled,
            None => woken(n) == n,
        },
{
}

/// While something visible holds off idle, a notification that honours it is
/// never idle after a poll; one that does not honour it behaves as without.
pub proof fn law_inhibitor_holds_off_idle(n: Notification, quiet: Nanos)
    ensures
        !n.data.ignore_inhibitor ==> !polled(n, quiet, true).data.idled,
        n.data.ignore_inhibitor ==> polled(n, quiet, true) == polled(n, quiet, false) && polling(
            n,
            quiet,
            true,
        ) == polling(n, quiet, false),
{
}

/// What is told is what was answered.
proof fn lemma_told(events: Seq<Option<Event>>, e: Event)
    ensures
        told(events).contains(e) <==> events.contains(Some(e)),
    decreases events.len(),
{
    if events.len() > 0 {
        let rest = told(events.drop_last());
        lemma_told(events.drop_last(), e);
        if events.contains(Some(e)) {
            let k = choose|k: int| 0 <= k < events.len() && events[k] == Some(e);
            if k < events.len() - 1 {
                assert(events.drop_last()[k] == Some(e));
                let j = choose|j: int| 0 <= j < rest.len() && rest[j] == e;
                assert(told(events)[j] == e);
            } else {
                assert(told(events)[rest.len() as int] == e);
            }
        }
        if told(events).contains(e) {
            let j = choose|j: int| 0 <= j < told(events).len() && told(events)[j] == e;
            if j < rest.len() {
                assert(rest[j] == e);
                let k = choose|k: int|
                    0 <= k < events.drop_last().len() && events.drop_last()[k] == Some(e);
                assert(events[k] == Some(e));
            } else {
                assert(events[events.len() - 1] == Some(e));
            }
        }
    }
}

/// A client is told that the user is idle once its span has passed without
/// input, unless something visible holds idle off and it honours that; then it
/// counts as woken.
pub proof fn law_client_is_told_after_its_span(
    idle: &mut IdleNotify,
    now: Nanos,
    inhibited: bool,
    out: Vec<Event>,
    k: int,
)
    requires
        call_ensures(IdleNotify::refresh, (idle, now, inhibited), out),
        0 <= k < old(idle).notifications@.len(),
        now >= old(idle).last_activity,
    ensures
        final(idle).notifications@.len() == old(idle).notifications@.len(),
        ({
            let n = old(idle).notifications@[k];
            let m = final(idle).notifications@[k];
            let held = inhibited && !n.data.ignore_inhibitor;
            let passed = now - old(idle).last_activity >= n.data.timeout;
            &&& m.id == n.id && m.data.timeout == n.data.timeout && m.data.ignore_inhibitor
                == n.data.ignore_inhibitor
            &&& m.data.idled <==> !held && (passed || n.data.idled)
            &&& !held && passed && !n.data.idled ==> out@.contains(Event::Idled(n.id))
            &&& held && n.data.idled ==> out@.contains(Event::Resumed(n.id))
        }),
{
    let n = old(idle).notifications@[k];
    let quiet = elapsed(old(idle).last_activity, now);
    let answers = all_polling(old(idle).notifications@, quiet, inhibited);
    assert(answers[k] == polling(n, quiet, inhibited));
    assert(all_polled(old(idle).notifications@, quiet, inhibited)[k] == polled(n, quiet, inhibited));
    lemma_told(answers, Event::Idled(n.id));
    lemma_told(answers, Event::Resumed(n.id));
}

/// Nobody is told of idleness who was told already or whose span has not passed.
pub proof fn law_nobody_is_told_too_early(
    idle: &mut IdleNotify,
    now: Nanos,
    inhibited: bool,
    out: Vec<Event>,
    id: u64,
)
    requires
        call_ensures(IdleNotify::refresh, (idle, now, inhibited), out),
        out@.contains(Event::Idled(id)),
        now >= old(idle).last_activity,
    ensures
        exists|k: int|
            0 <= k < old(idle).notifications@.len() && (#[trigger] old(idle).notifications@[k]).id
                == id && !old(idle).notifications@[k].data.idled && now - old(idle).last_activity
                >= old(idle).notifications@[k].data.timeout && (inhibited ==> old(idle).notifications@[k].data.ignore_inhibitor),
{
    let quiet = elapsed(old(idle).last_activity, now);
    let ns = old(idle).notifications@;
    let answers = all_polling(ns, quiet, inhibited);
    lemma_told(answers, Event::Idled(id));
    let k = choose|k: int| 0 <= k < answers.len() && answers[k] == Some(Event::Idled(id));
    assert(answers[k] == polling(ns[k], quiet, inhibited));
    assert(ns[k].id == id);
}

/// Input ends idleness for everyone: whoever was idle is told, nobody else, and
/// the spans start again.
pub proof fn law_input_ends_idleness(idle: &mut IdleNotify, now: Nanos, out: Vec<Event>, k: int, id: u64)
    requires
        call_ensures(IdleNotify::activity, (idle, now), out),
        0 <= k < old(idle).notifications@.len(),
    ensures
        final(idle).last_activity == now,
        final(idle).notifications@.len() == old(idle).notifications@.len(),
        !final(idle).notifications@[k].data.idled,
        final(idle).notifications@[k].id == old(idle).notifications@[k].id,
        final(idle).notifications@[k].data.timeout == old(idle).notifications@[k].data.timeout,
        old(idle).notifications@[k].data.idled ==> out@.contains(
            Event::Resumed(old(idle).notifications@[k].id),
        ),
        !out@.contains(Event::Idled(id)),
        out@.contains(Event::Resumed(id)) ==> exists|j: int|
            0 <= j < old(idle).notifications@.len() && (#[trigger] old(idle).notifications@[j]).id
                == id && old(idle).notifications@[j].data.idled,
{
    let ns = old(idle).notifications@;
    let answers = all_waking(ns);
    assert(answers[k] == waking(ns[k]));
    assert(all_woken(ns)[k] == woken(ns[k]));
    lemma_told(answers, Event::Resumed(ns[k].id));
    lemma_told(answers, Event::Idled(id));
    lemma_told(answers, Event::Resumed(id));
    if answers.contains(Some(Event::Idled(id))) {
        let j = choose|j: int| 0 <= j < answers.len() && answers[j] == Some(Event::Idled(id));
        assert(answers[j] == waking(ns[j]));
    }
    if answers.contains(Some(Event::Resumed(id))) {
        let j = choose|j: int| 0 <= j < answers.len() && answers[j] == Some(Event::Resumed(id));
        assert(answers[j] == waking(ns[j]));
        assert(ns[j].id == id);
    }
}

/// The notifications other than one are those with another number.
proof fn lemma_others(ns: Seq<Notification>, id: u64, n: Notification)
    ensures
        others(ns, id).contains(n) <==> ns.contains(n) && n.id != id,
    decreases ns.len(),
{
    if ns.len() > 0 {
        let init = ns.drop_last();
        let rest = others(init, id);
        lemma_others(init, id, n);
        if ns.contains(n) && n.id != id {
            let k = choose|k: int| 0 <= k < ns.len() && ns[k] == n;
            if k < init.len() {
                assert(init[k] == n);
                let j = choose|j: int| 0 <= j < rest.len() && rest[j] == n;
                assert(others(ns, id)[j] == n);
            } else {
                assert(others(ns, id)[rest.len() as int] == n);
            }
        }
        if others(ns, id).contains(n) {
            let j = choose|j: int| 0 <= j < others(ns, id).len() && others(ns, id)[j] == n;
            if j < rest.len() {
                assert(rest[j] == n);
                let k = choose|k: int| 0 <= k < init.len() && init[k] == n;
                assert(ns[k] == n);
            } else {
                assert(ns[ns.len() - 1] == n);
            }
        }
    }
}

/// A notification that was given up is gone, and no other is.
pub proof fn law_given_up_notification_is_gone(idle: &mut IdleNotify, id: u64, n: Notification)
    requires
        call_ensures(IdleNotify::destroyed, (idle, id), ()),
    ensures
        final(idle).notifications@.contains(n) <==> old(idle).notifications@.contains(n) && n.id != id,
{
    lemma_others(old(idle).notifications@, id, n);
}

/// A notification waits for the milliseconds that were asked for, and starts
/// out as not idle.
pub proof fn law_request_waits_its_milliseconds(
    idle: &mut IdleNotify,
    id: u64,
    timeout_ms: u32,
    ignore_inhibitor: bool,
)
    requires
        call_ensures(IdleNotify::request, (idle, id, timeout_ms, ignore_inhibitor), ()),
    ensures
        final(idle).notifications@.len() == old(idle).notifications@.len() + 1,
        final(idle).notifications@.last().id == id,
        final(idle).notifications@.last().data.timeout == timeout_ms * 1_000_000,
        final(idle).notifications@.last().data.ignore_inhibitor == ignore_inhibitor,
        !final(idle).notifications@.last().data.idled,
        final(idle).notifications@.drop_last() == old(idle).notifications@,
{
}

/// Only input moves the time from which idleness counts: what is asked for, what
/// ends and what is looked at does not.
pub proof fn law_only_input_counts_as_activity(
    start: Nanos,
    fresh: IdleNotify,
    a: &mut IdleNotify,
    id: u64,
    timeout_ms: u32,
    ignore: bool,
    b: &mut IdleNotify,
    c: &mut IdleNotify,
    now: Nanos,
    inhibited: bool,
    out: Vec<Event>,
    d: &mut IdleNotify,
    woken: Vec<Event>,
)
    requires
        call_ensures(IdleNotify::new, (start,), fresh),
        call_ensures(IdleNotify::request, (a, id, timeout_ms, ignore), ()),
        call_ensures(IdleNotify::destroyed, (b, id), ()),
        call_ensures(IdleNotify::refresh, (c, now, inhibited), out),
        call_ensures(IdleNotify::activity, (d, now), woken),
    ensures
        fresh.last_activity == start && fresh.notifications@.len() == 0,
        final(a).last_activity == old(a).last_activity,
        final(b).last_activity == old(b).last_activity,
        final(c).last_activity == old(c).last_activity,
        final(d).last_activity == now,
{
}

} // verus!
