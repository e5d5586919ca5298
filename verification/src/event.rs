//! The process-local handle type and the four primitive operations:
//! create, open, signal, and a non-blocking poll, plus explicit release.
//!
//! Each operation's effect on the session is pinned by a transition
//! predicate (`create_post`, `open_post`, `signal_post`, `poll_post`,
//! `close_post`); the laws about call sequences are proved from these
//! predicates alone.

use vstd::prelude::*;
use vstd::string::StrSliceExecFns;

use crate::session::NameEntry;
use crate::session::Session;
use crate::session::lemma_equal_names_same_namespace;
use crate::session::lemma_name_at_index;
use crate::session::lemma_register;
use crate::session::lemma_remove_name;
use crate::session::lemma_wf_after_handle_push;
use crate::session::lemma_wf_same_structure;
use crate::session::valid_name;

verus! {

/// A process-local handle to a named or anonymous event object of a session.
///
/// A live `Event` always holds a handle that was issued by `create` or
/// `open` and has not been released: the only ways to obtain one are those
/// constructors, and the only way to release the handle is `close`, which
/// consumes the value. The type is deliberately not `Clone`, so each handle
/// is owned by exactly one `Event` and is released exactly once.
pub struct Event {
    handle: usize,
}

/// The view of an optional name argument.
pub open spec fn name_view(name: Option<&str>) -> Option<Seq<char>> {
    match name {
        Some(n) => Some(n@),
        None => None,
    }
}

/// Every handle issued before `pre` keeps its liveness and its object.
pub open spec fn preserves_handles(pre: Session, post: Session) -> bool {
    forall|h: int|
        0 <= h < pre.num_handles() ==> #[trigger] post.handle_live(h) == pre.handle_live(h) && (
        pre.handle_live(h) ==> post.handle_object(h) == pre.handle_object(h))
}

/// The handles are untouched: none issued, none released, none retargeted.
pub open spec fn same_handles(pre: Session, post: Session) -> bool {
    post.num_handles() == pre.num_handles() && preserves_handles(pre, post)
}

/// The signal states are untouched.
pub open spec fn same_objects(pre: Session, post: Session) -> bool {
    post.num_objects() == pre.num_objects() && forall|o: int|
        #[trigger] post.object_signalled(o) == pre.object_signalled(o)
}

/// The name namespace is untouched.
pub open spec fn same_namespace(pre: Session, post: Session) -> bool {
    (forall|n: Seq<char>| #[trigger] post.registered(n) == pre.registered(n)) && (forall|
        n: Seq<char>,
    |
        pre.registered(n) ==> #[trigger] post.name_object(n) == pre.name_object(n))
}

/// Exactly one handle was issued: the fresh value `h`, referring to object
/// `o`; all earlier handles are untouched.
pub open spec fn fresh_handle(pre: Session, post: Session, h: int, o: int) -> bool {
    &&& h == pre.num_handles()
    &&& post.num_handles() == pre.num_handles() + 1
    &&& post.handle_live(h)
    &&& post.handle_object(h) == o
    &&& preserves_handles(pre, post)
}

/// Exactly one object was created, non-signalled; all earlier objects keep
/// their signal state.
pub open spec fn new_object(pre: Session, post: Session) -> bool {
    &&& post.num_objects() == pre.num_objects() + 1
    &&& !post.object_signalled(pre.num_objects())
    &&& forall|o: int|
        0 <= o < pre.num_objects() ==> #[trigger] post.object_signalled(o)
            == pre.object_signalled(o)
}

/// What `create` does to the session.
///
/// A named create is idempotent: if the name is already registered it opens
/// the existing object (keeping its signal state), otherwise it creates a
/// fresh non-signalled object and registers the name. An anonymous create
/// always creates a fresh non-signalled object. A name holding a NUL
/// character is rejected and the session is untouched.
pub open spec fn create_post(
    pre: Session,
    post: Session,
    name: Option<Seq<char>>,
    ev: Option<Event>,
) -> bool {
    match name {
        Some(n) => {
            if !valid_name(n) {
                ev is None && post == pre
            } else if pre.registered(n) {
                &&& ev is Some
                &&& ev->Some_0.id() == pre.num_handles()
                &&& fresh_handle(pre, post, pre.num_handles(), pre.name_object(n))
                &&& same_objects(pre, post)
                &&& same_namespace(pre, post)
            } else {
                &&& ev is Some
                &&& ev->Some_0.id() == pre.num_handles()
                &&& fresh_handle(pre, post, pre.num_handles(), pre.num_objects())
                &&& new_object(pre, post)
                &&& post.registered(n)
                &&& post.name_object(n) == pre.num_objects()
                &&& forall|m: Seq<char>|
                    m != n ==> #[trigger] post.registered(m) == pre.registered(m)
                &&& forall|m: Seq<char>|
                    m != n && pre.registered(m) ==> #[trigger] post.name_object(m)
                        == pre.name_object(m)
            }
        },
        None => {
            &&& ev is Some
            &&& ev->Some_0.id() == pre.num_handles()
            &&& fresh_handle(pre, post, pre.num_handles(), pre.num_objects())
            &&& new_object(pre, post)
            &&& same_namespace(pre, post)
        },
    }
}

/// What `open` does to the session: a fresh handle to the object registered
/// under the name, or failure, with the session untouched, when the name is
/// not registered.
pub open spec fn open_post(pre: Session, post: Session, n: Seq<char>, ev: Option<Event>) -> bool {
    if pre.registered(n) {
        &&& ev is Some
        &&& ev->Some_0.id() == pre.num_handles()
        &&& fresh_handle(pre, post, pre.num_handles(), pre.name_object(n))
        &&& same_objects(pre, post)
        &&& same_namespace(pre, post)
    } else {
        ev is None && post == pre
    }
}

/// What `signal` does to the session: through a live handle it sets the
/// handle's object signalled — already-signalled stays signalled, there is
/// no accumulation — and touches nothing else; through a released or never
/// issued handle it fails and the session is untouched.
pub open spec fn signal_post(pre: Session, post: Session, h: int, r: Option<()>) -> bool {
    if pre.handle_live(h) {
        &&& r is Some
        &&& same_handles(pre, post)
        &&& same_namespace(pre, post)
        &&& post.num_objects() == pre.num_objects()
        &&& forall|o: int|
            #[trigger] post.object_signalled(o) == (o == pre.handle_object(h)
                || pre.object_signalled(o))
    } else {
        r is None && post == pre
    }
}

/// What the poll `signalled` does to the session: through a live handle to
/// a signalled object it consumes the signal (auto-reset) and succeeds;
/// otherwise it fails and the session is untouched.
pub open spec fn poll_post(pre: Session, post: Session, h: int, r: Option<()>) -> bool {
    if pre.handle_live(h) && pre.object_signalled(pre.handle_object(h)) {
        &&& r is Some
        &&& same_handles(pre, post)
        &&& same_namespace(pre, post)
        &&& post.num_objects() == pre.num_objects()
        &&& forall|o: int|
            #[trigger] post.object_signalled(o) == (o != pre.handle_object(h)
                && pre.object_signalled(o))
    } else {
        r is None && post == pre
    }
}

/// What `close` does to the session: it releases exactly the one handle.
/// If no other live handle refers to the same object, the OS destroys the
/// object and its name registration disappears from the namespace;
/// otherwise the namespace is untouched.
pub open spec fn close_post(pre: Session, post: Session, h: int) -> bool {
    if pre.handle_live(h) {
        &&& post.num_handles() == pre.num_handles()
        &&& !post.handle_live(h)
        &&& forall|h2: int| h2 != h ==> #[trigger] post.handle_live(h2) == pre.handle_live(h2)
        &&& forall|h2: int|
            h2 != h && pre.handle_live(h2) ==> #[trigger] post.handle_object(h2)
                == pre.handle_object(h2)
        &&& same_objects(pre, post)
        &&& if post.object_referenced(pre.handle_object(h)) {
            same_namespace(pre, post)
        } else {
            (forall|n: Seq<char>|
                #[trigger] post.registered(n) == (pre.registered(n) && pre.name_object(n)
                    != pre.handle_object(h))) && (forall|n: Seq<char>|
                post.registered(n) ==> #[trigger] post.name_object(n) == pre.name_object(n))
        }
    } else {
        post == pre
    }
}

/// Character-for-character string equality, proved against the views.
fn str_eq(a: &str, b: &str) -> (r: bool)
    ensures
        r == (a@ == b@),
{
    let alen = a.unicode_len();
    let blen = b.unicode_len();
    if alen != blen {
        return false;
    }
    let mut i: usize = 0;
    while i < alen
        invariant
            alen == a@.len(),
            alen == b@.len(),
            i <= alen,
            forall|j: int| 0 <= j < i ==> a@[j] == b@[j],
        decreases alen - i,
    {
        if a.get_char(i) != b.get_char(i) {
            return false;
        }
        i = i + 1;
    }
    proof {
        assert(a@ =~= b@);
    }
    true
}

/// Whether a name is free of NUL characters.
fn name_ok(n: &str) -> (b: bool)
    ensures
        b == valid_name(n@),
{
    let len = n.unicode_len();
    let mut i: usize = 0;
    while i < len
        invariant
            len == n@.len(),
            i <= len,
            forall|j: int| 0 <= j < i ==> n@[j] != '\0',
        decreases len - i,
    {
        if n.get_char(i) == '\0' {
            return false;
        }
        i = i + 1;
    }
    true
}

/// The index of the entry registering `n`, if any.
fn find_name(s: &Session, n: &str) -> (r: Option<usize>)
    requires
        s.distinct_names(),
    ensures
        match r {
            Some(i) => s.name_at(i as int, n@),
            None => !s.registered(n@),
        },
{
    let len = s.names.len();
    let mut i: usize = 0;
    while i < len
        invariant
            len == s.names@.len(),
            i <= len,
            forall|j: int| 0 <= j < i ==> s.names@[j].name@ != n@,
        decreases len - i,
    {
        if str_eq(s.names[i].name.as_str(), n) {
            return Some(i);
        }
        i = i + 1;
    }
    proof {
        if s.registered(n@) {
            let j = s.name_index(n@);
            assert(s.name_at(j, n@));
        }
    }
    None
}

/// Whether any live handle of the session refers to object `o`.
fn object_in_use(s: &Session, o: usize) -> (b: bool)
    ensures
        b == s.object_referenced(o as int),
{
    let len = s.handles.len();
    let mut j: usize = 0;
    while j < len
        invariant
            len == s.handles@.len(),
            j <= len,
            forall|k: int| 0 <= k < j ==> !(#[trigger] s.handle_live(k) && s.handle_object(k) == o),
        decreases len - j,
    {
        match s.handles[j] {
            Some(o2) => {
                if o2 == o {
                    proof {
                        assert(s.handle_live(j as int) && s.handle_object(j as int) == o);
                    }
                    return true;
                }
            },
            None => {},
        }
        j = j + 1;
    }
    proof {
        if s.object_referenced(o as int) {
            let k = choose|k: int| s.handle_live(k) && s.handle_object(k) == o as int;
            assert(!(s.handle_live(k) && s.handle_object(k) == o));
        }
    }
    false
}

/// The index of the name entry registering object `o`, if there is one.
fn find_object_name(s: &Session, o: usize) -> (r: Option<usize>)
    ensures
        match r {
            Some(i) => i < s.names@.len() && s.names@[i as int].object == o,
            None => forall|i: int| 0 <= i < s.names@.len() ==> s.names@[i].object != o,
        },
{
    let len = s.names.len();
    let mut i: usize = 0;
    while i < len
        invariant
            len == s.names@.len(),
            i <= len,
            forall|k: int| 0 <= k < i ==> s.names@[k].object != o,
        decreases len - i,
    {
        if s.names[i].object == o {
            return Some(i);
        }
        i = i + 1;
    }
    None
}

impl Event {
    /// The handle value this event owns.
    pub closed spec fn id(self) -> int {
        self.handle as int
    }

    /// Creates the event object registered under `name`, or opens it if a
    /// counterpart already created it (creation is idempotent by name, so
    /// two racing processes converge on the same object); with no name it
    /// creates an anonymous object. A fresh object starts non-signalled and
    /// is auto-reset. Fails only on a name holding a NUL character.
    pub fn create(s: &mut Session, name: Option<&str>) -> (ev: Option<Event>)
        requires
            old(s).wf(),
        ensures
            final(s).wf(),
            create_post(*old(s), *final(s), name_view(name), ev),
    {
        match name {
            Some(n) => {
                if !name_ok(n) {
                    return None;
                }
                let found = find_name(s, n);
                match found {
                    Some(i) => {
                        let o = s.names[i].object;
                        proof {
                            lemma_name_at_index(*s, n@, i as int);
                        }
                        let ghost pre = *s;
                        let h = s.handles.len();
                        s.handles.push(Some(o));
                        proof {
                            lemma_equal_names_same_namespace(pre, *s);
                            lemma_wf_after_handle_push(pre, *s, o);
                        }
                        Some(Event { handle: h })
                    },
                    None => {
                        let ghost pre = *s;
                        let o = s.signalled.len();
                        s.signalled.push(false);
                        s.names.push(NameEntry { name: n.to_owned(), object: o });
                        let h = s.handles.len();
                        s.handles.push(Some(o));
                        proof {
                            let e = s.names@.last();
                            lemma_register(pre, *s, e);
                            assert forall|i2: int, j2: int|
                                0 <= i2 < j2 < s.names@.len() implies s.names@[i2].object
                                != s.names@[j2].object by {
                                if j2 < pre.names@.len() {
                                    assert(pre.names@[i2].object != pre.names@[j2].object);
                                }
                            }
                            assert forall|h2: int| s.handle_live(h2) implies s.handle_object(h2)
                                < s.num_objects() by {
                                if h2 < pre.handles@.len() {
                                    assert(pre.handle_live(h2));
                                }
                            }
                            assert forall|i2: int|
                                0 <= i2 < s.names@.len() implies (s.names@[i2].object as int)
                                < s.num_objects() by {
                                if i2 < pre.names@.len() {
                                    assert((pre.names@[i2].object as int) < pre.num_objects());
                                }
                            }
                        }
                        Some(Event { handle: h })
                    },
                }
            },
            None => {
                let ghost pre = *s;
                let o = s.signalled.len();
                s.signalled.push(false);
                let h = s.handles.len();
                s.handles.push(Some(o));
                proof {
                    lemma_equal_names_same_namespace(pre, *s);
                    assert forall|h2: int| s.handle_live(h2) implies s.handle_object(h2)
                        < s.num_objects() by {
                        if h2 < pre.handles@.len() {
                            assert(pre.handle_live(h2));
                        }
                    }
                }
                Some(Event { handle: h })
            },
        }
    }

    /// Opens the event object a counterpart process registered under
    /// `name`, with rights to both signal and poll it. Fails, leaving the
    /// session untouched, when no object is registered under that name:
    /// callers must sequence creation before opening, or retry.
    pub fn open(s: &mut Session, name: &str) -> (ev: Option<Event>)
        requires
            old(s).wf(),
        ensures
            final(s).wf(),
            open_post(*old(s), *final(s), name@, ev),
    {
        let found = find_name(s, name);
        match found {
            Some(i) => {
                let o = s.names[i].object;
                proof {
                    lemma_name_at_index(*s, name@, i as int);
                }
                let ghost pre = *s;
                let h = s.handles.len();
                s.handles.push(Some(o));
                proof {
                    lemma_equal_names_same_namespace(pre, *s);
                    lemma_wf_after_handle_push(pre, *s, o);
                }
                Some(Event { handle: h })
            },
            None => None,
        }
    }

    /// Sets this event's object to the signalled state. Signals do not
    /// accumulate: the object is a two-state flag, not a counter. Fails
    /// only if the handle no longer refers to an object.
    pub fn signal(&self, s: &mut Session) -> (r: Option<()>)
        requires
            old(s).wf(),
        ensures
            final(s).wf(),
            signal_post(*old(s), *final(s), self.id(), r),
    {
        let h = self.handle;
        if h < s.handles.len() {
            match s.handles[h] {
                Some(o) => {
                    let ghost pre = *s;
                    assert(pre.handle_live(h as int));
                    s.signalled[o] = true;
                    proof {
                        lemma_equal_names_same_namespace(pre, *s);
                        lemma_wf_same_structure(pre, *s);
                    }
                    Some(())
                },
                None => None,
            }
        } else {
            None
        }
    }

    /// Non-blocking poll: succeeds exactly when this event's object is
    /// signalled, and then consumes the signal (auto-reset), so at most one
    /// poller observes each signal. A non-signalled object is the normal
    /// "nothing to do yet" outcome, not an error.
    pub fn signalled(&self, s: &mut Session) -> (r: Option<()>)
        requires
            old(s).wf(),
        ensures
            final(s).wf(),
            poll_post(*old(s), *final(s), self.id(), r),
    {
        let h = self.handle;
        if h < s.handles.len() {
            match s.handles[h] {
                Some(o) => {
                    assert(s.handle_live(h as int));
                    if s.signalled[o] {
                        let ghost pre = *s;
                        s.signalled[o] = false;
                        proof {
                            lemma_equal_names_same_namespace(pre, *s);
                            lemma_wf_same_structure(pre, *s);
                        }
                        Some(())
                    } else {
                        None
                    }
                },
                None => None,
            }
        } else {
            None
        }
    }

    /// Returns the internal handle value, for interop with lower-level
    /// waits. Ownership stays with this `Event`; the value stops referring
    /// to the object once this `Event` is closed.
    pub fn handle(&self) -> (h: usize)
        ensures
            h as int == self.id(),
    {
        self.handle
    }

    /// Releases this event's handle. The release happens exactly once:
    /// `close` consumes the `Event`, so the handle can neither be released
    /// again nor used afterwards. When the released handle was the last
    /// live reference to its object, the OS destroys the object and its
    /// name leaves the namespace.
    pub fn close(self, s: &mut Session)
        requires
            old(s).wf(),
        ensures
            final(s).wf(),
            close_post(*old(s), *final(s), self.id()),
    {
        let h = self.handle;
        if h >= s.handles.len() {
            return;
        }
        let entry = s.handles[h];
        match entry {
            Some(o) => {
                let ghost pre = *s;
                s.handles[h] = None;
                proof {
                    assert forall|h2: int| s.handle_live(h2) implies s.handle_object(h2)
                        < s.num_objects() by {
                        assert(pre.handle_live(h2));
                    }
                    lemma_equal_names_same_namespace(pre, *s);
                }
                if object_in_use(s, o) {
                } else {
                    let found = find_object_name(s, o);
                    match found {
                        Some(i) => {
                            let ghost mid = *s;
                            s.names.remove(i);
                            proof {
                                lemma_remove_name(mid, *s, i as int);
                                lemma_equal_names_same_namespace(pre, mid);
                                assert forall|n: Seq<char>|
                                    #[trigger] s.registered(n) == (pre.registered(n)
                                        && pre.name_object(n) != o as int) by {
                                    if pre.registered(n) {
                                        let k = pre.name_index(n);
                                        assert(pre.name_at(k, n));
                                        lemma_name_at_index(pre, n, k);
                                        if n == mid.names@[i as int].name@ {
                                            assert(pre.name_at(i as int, n));
                                            lemma_name_at_index(pre, n, i as int);
                                        } else {
                                            if k != i as int {
                                                if k < i as int {
                                                    assert(pre.names@[k].object
                                                        != pre.names@[i as int].object);
                                                } else {
                                                    assert(pre.names@[i as int].object
                                                        != pre.names@[k].object);
                                                }
                                            }
                                        }
                                    }
                                }
                                assert forall|h2: int|
                                    !(#[trigger] s.handle_live(h2) && s.handle_object(h2)
                                        == o as int) by {
                                    if s.handle_live(h2) {
                                        assert(mid.handle_live(h2));
                                        assert(mid.handle_object(h2) == s.handle_object(h2));
                                    }
                                }
                                assert(!s.object_referenced(o as int));
                                assert forall|i2: int|
                                    0 <= i2 < s.names@.len() implies (s.names@[i2].object as int)
                                    < s.num_objects() by {
                                    mid.names@.remove_ensures(i as int);
                                    let k = if i2 < i as int {
                                        i2
                                    } else {
                                        i2 + 1
                                    };
                                    assert(s.names@[i2] == mid.names@[k]);
                                    assert((pre.names@[k].object as int) < pre.num_objects());
                                }
                                assert forall|h2: int| s.handle_live(h2) implies s.handle_object(h2)
                                    < s.num_objects() by {
                                    assert(mid.handle_live(h2));
                                    assert(pre.handle_live(h2));
                                }
                            }
                        },
                        None => {
                            proof {
                                assert forall|n: Seq<char>|
                                    #[trigger] s.registered(n) == (pre.registered(n)
                                        && pre.name_object(n) != o as int) by {
                                    if pre.registered(n) {
                                        let k = pre.name_index(n);
                                        assert(pre.name_at(k, n));
                                        lemma_name_at_index(pre, n, k);
                                        assert(s.names@[k].object != o);
                                    }
                                }
                                assert(!s.object_referenced(o as int));
                            }
                        },
                    }
                }
            },
            None => {},
        }
    }
}

} // verus!
