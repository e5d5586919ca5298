//! The session state: every event object, name registration and live handle
//! of one OS session, together with the spec-level predicates that the
//! operation contracts and laws are stated over.

use vstd::prelude::*;

verus! {

/// One registration in the session's name namespace: `name` refers to the
/// event object with index `object`.
pub struct NameEntry {
    pub name: String,
    pub object: usize,
}

/// The state of one OS session, as far as named events are concerned.
///
/// * `signalled[o]` is the current signal state of event object `o`.
///   Object indices are never reused.
/// * `handles[h]` is `Some(o)` while process-local handle `h` refers to
///   object `o`, and `None` once the handle has been released. Handle
///   values are never reused.
/// * `names` maps each registered name to its object; a name is registered
///   while at least one handle to its object is live.
pub struct Session {
    pub signalled: Vec<bool>,
    pub handles: Vec<Option<usize>>,
    pub names: Vec<NameEntry>,
}

/// A name is valid when it contains no NUL character: the OS namespace
/// stores names as NUL-terminated strings, so an interior NUL cannot be
/// part of a name.
pub open spec fn valid_name(n: Seq<char>) -> bool {
    forall|i: int| 0 <= i < n.len() ==> n[i] != '\0'
}

impl Session {
    /// How many event objects this session has ever created.
    pub open spec fn num_objects(self) -> int {
        self.signalled@.len() as int
    }

    /// How many handle values this session has ever issued.
    pub open spec fn num_handles(self) -> int {
        self.handles@.len() as int
    }

    /// Handle `h` has been issued and not yet released.
    pub open spec fn handle_live(self, h: int) -> bool {
        0 <= h < self.num_handles() && self.handles@[h] is Some
    }

    /// The object a live handle refers to.
    pub open spec fn handle_object(self, h: int) -> int {
        self.handles@[h]->Some_0 as int
    }

    /// Object `o` exists and is currently signalled.
    pub open spec fn object_signalled(self, o: int) -> bool {
        0 <= o < self.num_objects() && self.signalled@[o]
    }

    /// Name entry `i` exists and registers the name `n`.
    pub open spec fn name_at(self, i: int, n: Seq<char>) -> bool {
        0 <= i < self.names@.len() && self.names@[i].name@ == n
    }

    /// The name `n` is registered in this session.
    pub open spec fn registered(self, n: Seq<char>) -> bool {
        exists|i: int| self.name_at(i, n)
    }

    /// The index of the entry that registers `n` (meaningful only while
    /// `registered(n)` holds; entries have pairwise distinct names).
    pub open spec fn name_index(self, n: Seq<char>) -> int {
        choose|i: int| self.name_at(i, n)
    }

    /// The object registered under the name `n`.
    pub open spec fn name_object(self, n: Seq<char>) -> int {
        self.names@[self.name_index(n)].object as int
    }

    /// Some live handle refers to object `o`.
    pub open spec fn object_referenced(self, o: int) -> bool {
        exists|h: int| self.handle_live(h) && self.handle_object(h) == o
    }

    /// Name entries carry pairwise distinct names.
    pub open spec fn distinct_names(self) -> bool {
        forall|i: int, j: int|
            0 <= i < j < self.names@.len() ==> self.names@[i].name@ != self.names@[j].name@
    }

    /// Name entries carry pairwise distinct objects: an object is registered
    /// under at most one name.
    pub open spec fn distinct_objects(self) -> bool {
        forall|i: int, j: int|
            0 <= i < j < self.names@.len() ==> self.names@[i].object != self.names@[j].object
    }

    /// Well-formedness: handles and name entries refer to existing objects,
    /// and the name entries have pairwise distinct names and pairwise
    /// distinct objects.
    pub open spec fn wf(self) -> bool {
        &&& forall|h: int|
            self.handle_live(h) ==> self.handle_object(h) < self.num_objects()
        &&& forall|i: int|
            0 <= i < self.names@.len() ==> (self.names@[i].object as int) < self.num_objects()
        &&& self.distinct_names()
        &&& self.distinct_objects()
    }

    /// A fresh session: no objects, no handles, no registered names.
    pub fn new() -> (s: Session)
        ensures
            s.wf(),
            s.num_objects() == 0,
            s.num_handles() == 0,
            forall|n: Seq<char>| !s.registered(n),
    {
        Session { signalled: Vec::new(), handles: Vec::new(), names: Vec::new() }
    }
}

/// The entry that registers a name is the one `name_index` picks: name
/// entries have distinct names, so a matching index is unique.
pub proof fn lemma_name_at_index(s: Session, n: Seq<char>, i: int)
    requires
        s.distinct_names(),
        s.name_at(i, n),
    ensures
        s.registered(n),
        s.name_index(n) == i,
        s.name_object(n) == s.names@[i].object as int,
{
    assert(s.registered(n));
    let k = s.name_index(n);
    assert(s.name_at(k, n));
    if k != i {
        if k < i {
            assert(s.names@[k].name@ != s.names@[i].name@);
        } else {
            assert(s.names@[i].name@ != s.names@[k].name@);
        }
    }
}

/// Two session states with the same name entries register the same names,
/// with the same objects.
pub proof fn lemma_equal_names_same_namespace(pre: Session, post: Session)
    requires
        pre.distinct_names(),
        post.names@ == pre.names@,
    ensures
        forall|n: Seq<char>| post.registered(n) == pre.registered(n),
        forall|n: Seq<char>| pre.registered(n) ==> post.name_object(n) == pre.name_object(n),
{
    assert forall|n: Seq<char>| post.registered(n) == pre.registered(n) by {
        if pre.registered(n) {
            let i = pre.name_index(n);
            assert(pre.name_at(i, n));
            assert(post.name_at(i, n));
        }
        if post.registered(n) {
            let i = post.name_index(n);
            assert(post.name_at(i, n));
            assert(pre.name_at(i, n));
        }
    }
    assert forall|n: Seq<char>| pre.registered(n) implies post.name_object(n) == pre.name_object(
        n,
    ) by {
        let i = pre.name_index(n);
        assert(pre.name_at(i, n));
        assert(post.name_at(i, n));
        lemma_name_at_index(pre, n, i);
        assert(post.name_at(post.name_index(n), n));
        let k = post.name_index(n);
        assert(pre.name_at(k, n));
        lemma_name_at_index(pre, n, k);
    }
}

/// Well-formedness carries over to a state with the same handles, the same
/// name entries and the same number of objects.
pub proof fn lemma_wf_same_structure(pre: Session, post: Session)
    requires
        pre.wf(),
        post.handles@ == pre.handles@,
        post.names@ == pre.names@,
        post.num_objects() == pre.num_objects(),
    ensures
        post.wf(),
{
    assert forall|h: int| post.handle_live(h) implies post.handle_object(h)
        < post.num_objects() by {
        assert(pre.handle_live(h));
    }
}

/// Well-formedness carries over to a state that only issued one more handle,
/// to an existing object.
pub proof fn lemma_wf_after_handle_push(pre: Session, post: Session, o: usize)
    requires
        pre.wf(),
        (o as int) < pre.num_objects(),
        post.handles@ == pre.handles@.push(Some(o)),
        post.names@ == pre.names@,
        post.num_objects() == pre.num_objects(),
    ensures
        post.wf(),
{
    assert forall|h: int| post.handle_live(h) implies post.handle_object(h)
        < post.num_objects() by {
        if h < pre.handles@.len() {
            assert(pre.handle_live(h));
        }
    }
}

/// Appending one entry for a name that was not registered before registers
/// exactly that name, with the entry's object, and registers nothing else.
pub proof fn lemma_register(pre: Session, post: Session, e: NameEntry)
    requires
        pre.distinct_names(),
        post.names@ == pre.names@.push(e),
        !pre.registered(e.name@),
    ensures
        post.distinct_names(),
        post.registered(e.name@),
        post.name_object(e.name@) == e.object as int,
        forall|m: Seq<char>| m != e.name@ ==> post.registered(m) == pre.registered(m),
        forall|m: Seq<char>|
            m != e.name@ && pre.registered(m) ==> post.name_object(m) == pre.name_object(m),
{
    let len = pre.names@.len() as int;
    assert forall|i: int, j: int|
        0 <= i < j < post.names@.len() implies post.names@[i].name@ != post.names@[j].name@ by {
        if j < len {
            assert(pre.names@[i].name@ != pre.names@[j].name@);
        } else {
            assert(!pre.name_at(i, e.name@));
        }
    }
    assert(post.name_at(len, e.name@));
    lemma_name_at_index(post, e.name@, len);
    assert forall|m: Seq<char>| m != e.name@ implies post.registered(m) == pre.registered(m) by {
        if pre.registered(m) {
            let i = pre.name_index(m);
            assert(pre.name_at(i, m));
            assert(post.name_at(i, m));
        }
        if post.registered(m) {
            let i = post.name_index(m);
            assert(post.name_at(i, m));
            assert(i != len);
            assert(pre.name_at(i, m));
        }
    }
    assert forall|m: Seq<char>|
        m != e.name@ && pre.registered(m) implies post.name_object(m) == pre.name_object(m) by {
        let i = pre.name_index(m);
        assert(pre.name_at(i, m));
        lemma_name_at_index(pre, m, i);
        assert(post.name_at(i, m));
        lemma_name_at_index(post, m, i);
    }
}

/// Removing one entry unregisters exactly that entry's name: every other
/// name stays registered, with its object unchanged.
pub proof fn lemma_remove_name(pre: Session, post: Session, idx: int)
    requires
        pre.distinct_names(),
        pre.distinct_objects(),
        0 <= idx < pre.names@.len(),
        post.names@ == pre.names@.remove(idx),
    ensures
        post.distinct_names(),
        post.distinct_objects(),
        forall|n: Seq<char>|
            #[trigger] post.registered(n) == (pre.registered(n) && n != pre.names@[idx].name@),
        forall|n: Seq<char>|
            post.registered(n) ==> #[trigger] post.name_object(n) == pre.name_object(n),
{
    pre.names@.remove_ensures(idx);
    let removed = pre.names@[idx].name@;
    assert forall|i: int, j: int|
        0 <= i < j < post.names@.len() implies post.names@[i].name@ != post.names@[j].name@
        && post.names@[i].object != post.names@[j].object by {
        let i2 = if i < idx {
            i
        } else {
            i + 1
        };
        let j2 = if j < idx {
            j
        } else {
            j + 1
        };
        assert(post.names@[i] == pre.names@[i2]);
        assert(post.names@[j] == pre.names@[j2]);
        assert(pre.names@[i2].name@ != pre.names@[j2].name@);
        assert(pre.names@[i2].object != pre.names@[j2].object);
    }
    assert forall|n: Seq<char>|
        #[trigger] post.registered(n) == (pre.registered(n) && n != removed) by {
        if post.registered(n) {
            let i = post.name_index(n);
            assert(post.name_at(i, n));
            let i2 = if i < idx {
                i
            } else {
                i + 1
            };
            assert(post.names@[i] == pre.names@[i2]);
            assert(pre.name_at(i2, n));
            if n == removed {
                if i2 < idx {
                    assert(pre.names@[i2].name@ != pre.names@[idx].name@);
                } else {
                    assert(pre.names@[idx].name@ != pre.names@[i2].name@);
                }
            }
        }
        if pre.registered(n) && n != removed {
            let i2 = pre.name_index(n);
            assert(pre.name_at(i2, n));
            let i = if i2 < idx {
                i2
            } else {
                i2 - 1
            };
            assert(post.names@[i] == pre.names@[i2]);
            assert(post.name_at(i, n));
        }
    }
    assert forall|n: Seq<char>| post.registered(n) implies #[trigger] post.name_object(n)
        == pre.name_object(n) by {
        let i = post.name_index(n);
        assert(post.name_at(i, n));
        lemma_name_at_index(post, n, i);
        let i2 = if i < idx {
            i
        } else {
            i + 1
        };
        assert(post.names@[i] == pre.names@[i2]);
        assert(pre.name_at(i2, n));
        lemma_name_at_index(pre, n, i2);
    }
}

} // verus!
