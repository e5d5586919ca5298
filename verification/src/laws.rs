//! Laws relating sequences of operations, proved from the transition
//! predicates alone: whatever implements those contracts has these
//! properties.

use vstd::prelude::*;

use crate::event::Event;
use crate::event::close_post;
use crate::event::create_post;
use crate::event::open_post;
use crate::event::poll_post;
use crate::event::signal_post;
use crate::session::Session;
use crate::session::valid_name;

verus! {

/// Rendezvous: after `create(name)`, an `open(name)` from a second handle
/// succeeds, both handles refer to the same object, and a signal sent
/// through the creator's handle is consumed through the opener's poll.
pub proof fn law_rendezvous(
    s0: Session,
    s1: Session,
    s2: Session,
    s3: Session,
    s4: Session,
    name: Seq<char>,
    ev1: Option<Event>,
    ev2: Option<Event>,
    r3: Option<()>,
    r4: Option<()>,
)
    requires
        valid_name(name),
        create_post(s0, s1, Some(name), ev1),
        open_post(s1, s2, name, ev2),
        signal_post(s2, s3, ev1->Some_0.id(), r3),
        poll_post(s3, s4, ev2->Some_0.id(), r4),
    ensures
        ev1 is Some,
        ev2 is Some,
        r3 is Some,
        r4 is Some,
        s2.handle_object(ev1->Some_0.id()) == s2.handle_object(ev2->Some_0.id()),
{
    let h1 = ev1->Some_0.id();
    let h2 = ev2->Some_0.id();
    let o = s1.handle_object(h1);
    assert(s1.registered(name));
    assert(s1.name_object(name) == o);
    assert(s2.handle_live(h2) && s2.handle_object(h2) == o);
    assert(s2.handle_live(h1) && s2.handle_object(h1) == o);
    assert(s3.object_signalled(o));
    assert(s3.handle_live(h2) && s3.handle_object(h2) == o);
}

/// `open(name)` fails, and leaves the session untouched, when no prior
/// `create(name)` has registered the name in this session.
pub proof fn law_open_unregistered(s0: Session, s1: Session, name: Seq<char>, ev: Option<Event>)
    requires
        !s0.registered(name),
        open_post(s0, s1, name, ev),
    ensures
        ev is None,
        s1 == s0,
{
}

/// A freshly created event starts non-signalled: a poll through the new
/// handle fails until someone signals the object.
pub proof fn law_fresh_not_signalled(
    s0: Session,
    s1: Session,
    s2: Session,
    name: Seq<char>,
    ev: Option<Event>,
    r: Option<()>,
)
    requires
        valid_name(name),
        !s0.registered(name),
        create_post(s0, s1, Some(name), ev),
        poll_post(s1, s2, ev->Some_0.id(), r),
    ensures
        ev is Some,
        r is None,
        s2 == s1,
{
    let h = ev->Some_0.id();
    assert(s1.handle_object(h) == s0.num_objects());
    assert(!s1.object_signalled(s0.num_objects()));
}

/// `open` does not disturb the signal state: a poll through the opened
/// handle fails when the object was not signalled at the open.
pub proof fn law_open_then_poll_unsignalled(
    s0: Session,
    s1: Session,
    s2: Session,
    name: Seq<char>,
    ev: Option<Event>,
    r: Option<()>,
)
    requires
        s0.registered(name),
        !s0.object_signalled(s0.name_object(name)),
        open_post(s0, s1, name, ev),
        poll_post(s1, s2, ev->Some_0.id(), r),
    ensures
        ev is Some,
        r is None,
        s2 == s1,
{
    let h = ev->Some_0.id();
    assert(s1.handle_object(h) == s0.name_object(name));
    assert(!s1.object_signalled(s0.name_object(name)));
}

/// Exactly-once consumption: after one signal, of two polls through handles
/// to the same object the first succeeds and consumes the signal, and the
/// second observes non-signalled.
pub proof fn law_exactly_once(
    s0: Session,
    s1: Session,
    s2: Session,
    s3: Session,
    h: int,
    ha: int,
    hb: int,
    r1: Option<()>,
    ra: Option<()>,
    rb: Option<()>,
)
    requires
        s0.handle_live(h),
        s0.handle_live(ha) && s0.handle_object(ha) == s0.handle_object(h),
        s0.handle_live(hb) && s0.handle_object(hb) == s0.handle_object(h),
        signal_post(s0, s1, h, r1),
        poll_post(s1, s2, ha, ra),
        poll_post(s2, s3, hb, rb),
    ensures
        r1 is Some,
        ra is Some,
        rb is None,
{
    let o = s0.handle_object(h);
    assert(s1.handle_live(ha) && s1.handle_object(ha) == o);
    assert(s1.object_signalled(o));
    assert(!s2.object_signalled(o));
    assert(s2.handle_live(hb) && s2.handle_object(hb) == o);
}

/// Signals do not queue: two signals back to back are consumed by a single
/// poll, and a second poll fails.
pub proof fn law_signals_do_not_accumulate(
    s0: Session,
    s1: Session,
    s2: Session,
    s3: Session,
    s4: Session,
    h: int,
    ha: int,
    hb: int,
    r1: Option<()>,
    r2: Option<()>,
    ra: Option<()>,
    rb: Option<()>,
)
    requires
        s0.handle_live(h),
        s0.handle_live(ha) && s0.handle_object(ha) == s0.handle_object(h),
        s0.handle_live(hb) && s0.handle_object(hb) == s0.handle_object(h),
        signal_post(s0, s1, h, r1),
        signal_post(s1, s2, h, r2),
        poll_post(s2, s3, ha, ra),
        poll_post(s3, s4, hb, rb),
    ensures
        r1 is Some,
        r2 is Some,
        ra is Some,
        rb is None,
{
    let o = s0.handle_object(h);
    assert(s1.handle_live(h) && s1.handle_object(h) == o);
    assert(s2.object_signalled(o));
    assert(s2.handle_live(ha) && s2.handle_object(ha) == o);
    assert(!s3.object_signalled(o));
    assert(s3.handle_live(hb) && s3.handle_object(hb) == o);
}

/// Creation is idempotent: a second `create` with the same name succeeds
/// and yields a handle to the same underlying object, so a signal through
/// the first handle is consumed through the second.
pub proof fn law_idempotent_create(
    s0: Session,
    s1: Session,
    s2: Session,
    s3: Session,
    s4: Session,
    name: Seq<char>,
    ev1: Option<Event>,
    ev2: Option<Event>,
    r3: Option<()>,
    r4: Option<()>,
)
    requires
        valid_name(name),
        create_post(s0, s1, Some(name), ev1),
        create_post(s1, s2, Some(name), ev2),
        signal_post(s2, s3, ev1->Some_0.id(), r3),
        poll_post(s3, s4, ev2->Some_0.id(), r4),
    ensures
        ev1 is Some,
        ev2 is Some,
        r3 is Some,
        r4 is Some,
        s2.handle_object(ev1->Some_0.id()) == s2.handle_object(ev2->Some_0.id()),
{
    let h1 = ev1->Some_0.id();
    let h2 = ev2->Some_0.id();
    let o = s1.handle_object(h1);
    assert(s1.registered(name));
    assert(s1.name_object(name) == o);
    assert(s2.handle_live(h2) && s2.handle_object(h2) == o);
    assert(s2.handle_live(h1) && s2.handle_object(h1) == o);
    assert(s3.object_signalled(o));
    assert(s3.handle_live(h2) && s3.handle_object(h2) == o);
}

/// Closing releases exactly the one handle: it stops being live, every
/// other handle keeps its liveness and its object, and no signal state
/// changes. (That a handle is released at most once, and never used after
/// release, is enforced by the type: `close` consumes the `Event`.)
pub proof fn law_close_releases_one(s0: Session, s1: Session, h: int)
    requires
        s0.handle_live(h),
        close_post(s0, s1, h),
    ensures
        !s1.handle_live(h),
        s1.num_handles() == s0.num_handles(),
        forall|h2: int| h2 != h ==> #[trigger] s1.handle_live(h2) == s0.handle_live(h2),
        forall|h2: int|
            h2 != h && s0.handle_live(h2) ==> #[trigger] s1.handle_object(h2) == s0.handle_object(
                h2,
            ),
        forall|o: int| #[trigger] s1.object_signalled(o) == s0.object_signalled(o),
{
}

/// Closing one of two handles to the same object leaves the namespace
/// untouched: the shared kernel object survives while a reference is live,
/// so its name can still be opened.
pub proof fn law_close_keeps_shared_object(s0: Session, s1: Session, h: int, h2: int)
    requires
        s0.handle_live(h),
        s0.handle_live(h2),
        h2 != h,
        s0.handle_object(h2) == s0.handle_object(h),
        close_post(s0, s1, h),
    ensures
        forall|n: Seq<char>| #[trigger] s1.registered(n) == s0.registered(n),
        forall|n: Seq<char>|
            s0.registered(n) ==> #[trigger] s1.name_object(n) == s0.name_object(n),
{
    assert(s1.handle_live(h2));
    assert(s1.handle_object(h2) == s0.handle_object(h));
    assert(s1.object_referenced(s0.handle_object(h)));
}

} // verus!
