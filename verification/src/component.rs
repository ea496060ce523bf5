//! Plumbing between the UI shell and the state core: the queue a rendered
//! widget pushes events onto, and the password gate that hides sensitive
//! tabs.

use vstd::prelude::*;

verus! {

/// The events one render pass emitted, in order.
#[derive(Debug, Default)]
pub struct EventStream<E> {
    pub events: Vec<E>,
}

impl<E> EventStream<E> {
    pub fn new() -> (r: Self)
        ensures
            r.events@ == Seq::<E>::empty(),
    {
        EventStream { events: Vec::new() }
    }

    /// Queue one event.
    pub fn add_event(&mut self, e: E)
        ensures
            final(self).events@ == old(self).events@.push(e),
    {
        self.events.push(e);
    }

    /// Take every queued event, in order, leaving the stream empty.
    pub fn drain(&mut self) -> (r: Vec<E>)
        ensures
            r@ == old(self).events@,
            final(self).events@ == Seq::<E>::empty(),
    {
        let mut out: Vec<E> = Vec::new();
        core::mem::swap(&mut out, &mut self.events);
        out
    }
}

/// A component wrapper that stays locked until the fixed password is typed.
#[derive(Debug, Clone)]
pub struct PasswordLock<A> {
    pub component: A,
    pub locked: bool,
    pub password_typed: String,
}

impl<A> PasswordLock<A> {
    pub fn new(a: A) -> (r: Self)
        ensures
            r.component == a,
            r.locked,
            r.password_typed@ == Seq::<char>::empty(),
    {
        PasswordLock { component: a, locked: true, password_typed: String::new() }
    }

    /// Judge the typed password: on a match the lock opens and the typed
    /// text is discarded; otherwise nothing changes.
    pub fn try_unlock(&mut self) -> (r: bool)
        ensures
            r == (old(self).password_typed@ == "theyWillNeverKnow!"@),
            final(self).component == old(self).component,
            r ==> !final(self).locked && final(self).password_typed@ == Seq::<char>::empty(),
            !r ==> *final(self) == *old(self),
    {
        let expected = String::from_str("theyWillNeverKnow!");
        if self.password_typed == expected {
            self.password_typed = String::new();
            self.locked = false;
            true
        } else {
            false
        }
    }

    /// Close the lock again.
    pub fn lock(&mut self)
        ensures
            final(self).locked,
            final(self).component == old(self).component,
            final(self).password_typed == old(self).password_typed,
    {
        self.locked = true;
    }
}

} // verus!
