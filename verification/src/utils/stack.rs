//! A stack that keeps at most its two most recent items.
use vstd::prelude::*;

verus! {

/// A stack of height at most two: `one` is the top, `two` the item below it,
/// and `len` how many items the stack holds.
pub struct TwoStack<T: Clone> {
    pub one: Option<T>,
    pub two: Option<T>,
    pub len: usize,
}

impl<T: Clone> TwoStack<T> {
    /// The stack is well formed: an item below only under a top, and `len`
    /// counts the slots that hold an item.
    pub open spec fn wf(&self) -> bool {
        &&& (self.two is Some ==> self.one is Some)
        &&& self.len == (if self.one is Some { 1int } else { 0int }) + (if self.two is Some {
            1int
        } else {
            0int
        })
    }

    /// `new` is the state that `push` of `item` leaves `old` in: `item` goes on
    /// top, and a former top is copied below it.
    pub open spec fn pushed(old: Self, item: T, new: Self) -> bool {
        &&& new.one == Some(item)
        &&& match old.one {
            Some(top) => {
                &&& new.two is Some
                &&& cloned::<T>(top, new.two->0)
                &&& new.len == 2
            },
            None => {
                &&& new.two == old.two
                &&& new.len == 1
            },
        }
    }

    /// `new` and `r` are the state and result that `pop` leaves `old` with: a
    /// copy of the top comes out, a copy of the item below it (if any)
    /// becomes the top, and the slot below is emptied.
    pub open spec fn popped(old: Self, new: Self, r: Option<T>) -> bool {
        match old.one {
            Some(top) => {
                &&& r is Some
                &&& cloned::<T>(top, r->0)
                &&& new.two is None
                &&& match old.two {
                    Some(below) => {
                        &&& new.one is Some
                        &&& cloned::<T>(below, new.one->0)
                        &&& new.len == 1
                    },
                    None => {
                        &&& new.one is None
                        &&& new.len == 0
                    },
                }
            },
            None => {
                &&& r is None
                &&& new.one is None
                &&& new.two == old.two
                &&& new.len == 0
            },
        }
    }

    /// An empty stack.
    pub fn new() -> (s: TwoStack<T>)
        ensures
            s.one is None,
            s.two is None,
            s.len == 0,
            s.wf(),
    {
        TwoStack { one: None, two: None, len: 0 }
    }

    /// Puts `item` on top; the former top, if any, moves below it and
    /// whatever was below that is dropped.
    pub fn push(&mut self, item: T)
        ensures
            Self::pushed(*old(self), item, *final(self)),
            old(self).wf() ==> final(self).wf(),
    {
        match &self.one {
            Some(t) => {
                self.two = Some(t.clone());
                self.one = Some(item);
                self.len = 2;
            },
            None => {
                self.one = Some(item);
                self.len = 1;
            },
        };
    }

    /// Takes the top item off, if there is one.
    pub fn pop(&mut self) -> (r: Option<T>)
        ensures
            Self::popped(*old(self), *final(self), r),
            old(self).wf() ==> final(self).wf(),
    {
        match &self.one {
            Some(t) => {
                let a = t.clone();
                match &self.two {
                    Some(s) => {
                        let below = s.clone();
                        self.two = None;
                        self.one = Some(below);
                        self.len = 1;
                    },
                    None => {
                        self.one = None;
                        self.len = 0;
                    },
                }
                return Some(a);
            },
            None => {
                self.len = 0;
                return None;
            },
        }
    }
}

/// Popping right after pushing `item` gives back a copy of `item`.
pub proof fn lemma_pop_returns_pushed<T: Clone>(
    s0: TwoStack<T>,
    item: T,
    s1: TwoStack<T>,
    s2: TwoStack<T>,
    r: Option<T>,
)
    requires
        TwoStack::pushed(s0, item, s1),
        TwoStack::popped(s1, s2, r),
    ensures
        r is Some,
        cloned::<T>(item, r->0),
{
}

/// A stack never holds more than two items: from a well-formed state, any
/// push or pop leads to a well-formed state with `len <= 2`.
pub proof fn lemma_height_bounded<T: Clone>(
    s0: TwoStack<T>,
    item: T,
    s1: TwoStack<T>,
    s2: TwoStack<T>,
    r: Option<T>,
)
    requires
        s0.wf(),
        TwoStack::pushed(s0, item, s1),
        TwoStack::popped(s0, s2, r),
    ensures
        s1.wf(),
        s1.len <= 2,
        s2.wf(),
        s2.len <= 2,
{
}

/// Pushing onto a well-formed stack raises its height by one, up to two.
pub proof fn lemma_push_height<T: Clone>(s0: TwoStack<T>, item: T, s1: TwoStack<T>)
    requires
        s0.wf(),
        TwoStack::pushed(s0, item, s1),
    ensures
        s1.len == if s0.len == 2 {
            2
        } else {
            s0.len + 1
        },
{
}

/// Popping a well-formed stack lowers its height by one; an empty stack
/// stays empty and gives nothing.
pub proof fn lemma_pop_height<T: Clone>(s0: TwoStack<T>, s1: TwoStack<T>, r: Option<T>)
    requires
        s0.wf(),
        TwoStack::popped(s0, s1, r),
    ensures
        s0.len == 0 ==> r is None && s1.len == 0,
        s0.len > 0 ==> r is Some && s1.len == s0.len - 1,
{
}

/// Popping a well-formed stack as often as it has items empties it: two
/// pops take a stack of two to an empty one, and a further pop gives nothing.
pub proof fn lemma_pops_empty<T: Clone>(
    s0: TwoStack<T>,
    s1: TwoStack<T>,
    r1: Option<T>,
    s2: TwoStack<T>,
    r2: Option<T>,
    s3: TwoStack<T>,
    r3: Option<T>,
)
    requires
        s0.wf(),
        s0.len == 2,
        TwoStack::popped(s0, s1, r1),
        TwoStack::popped(s1, s2, r2),
        TwoStack::popped(s2, s3, r3),
    ensures
        r1 is Some,
        r2 is Some,
        s2.len == 0,
        s2.one is None,
        s2.two is None,
        r3 is None,
        s3.len == 0,
{
}

} // verus!
