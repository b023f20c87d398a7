//! Input events.
//!
//! Drivers push, the desktop pops. Both queues are fixed-size rings, so a
//! burst of typing while the compositor is busy drops the oldest events
//! rather than growing without bound.

use vstd::prelude::*;

verus! {

#[derive(Clone, Copy, Debug, PartialEq, Eq, Structural)]
pub enum Key {
    Char,
    Enter,
    Backspace,
    Tab,
    Escape,
    Up,
    Down,
    Left,
    Right,
    Home,
    End,
    PageUp,
    PageDown,
    Insert,
    Delete,
    CapsLock,
    /// The modifiers, reported as keys in their own right as well as in
    /// `Modifiers`. Most apps ignore them; a game does not.
    Shift,
    Control,
    Alt,
    F1,
    F2,
    F3,
    F4,
    F5,
    F6,
    F7,
    F8,
    F9,
    F10,
    F11,
    F12,
}

#[derive(Clone, Copy, Debug, Default, PartialEq, Eq, Structural)]
pub struct Modifiers {
    pub shift: bool,
    pub ctrl: bool,
    pub alt: bool,
    pub caps: bool,
}

#[derive(Clone, Copy, Debug, PartialEq, Eq, Structural)]
pub struct KeyEvent {
    pub key: Key,
    pub character: Option<char>,
    pub pressed: bool,
    pub modifiers: Modifiers,
}

#[derive(Clone, Copy, Debug, PartialEq, Eq, Structural)]
pub struct MouseEvent {
    pub dx: i32,
    pub dy: i32,
    pub left: bool,
    pub right: bool,
    pub middle: bool,
    pub left_changed: bool,
    pub right_changed: bool,
    pub middle_changed: bool,
}

pub const QUEUE_CAPACITY: usize = 128;

/// A ring of `QUEUE_CAPACITY` slots holding at most `QUEUE_CAPACITY - 1`
/// events; pushing onto a full ring discards the oldest event.
pub struct Ring<T: Copy> {
    items: Vec<Option<T>>,
    head: usize,
    tail: usize,
    dropped: u64,
}

/// The slot `i` places after `h`, going round the ring.
pub open spec fn slot(h: int, i: int) -> int {
    if h + i < QUEUE_CAPACITY { h + i } else { h + i - QUEUE_CAPACITY }
}

impl<T: Copy> Ring<T> {
    /// Number of queued events.
    pub closed spec fn len_spec(&self) -> nat {
        if self.tail >= self.head {
            (self.tail - self.head) as nat
        } else {
            (self.tail + QUEUE_CAPACITY - self.head) as nat
        }
    }

    /// The queued events, oldest first.
    pub closed spec fn view(&self) -> Seq<T> {
        Seq::new(self.len_spec(), |i: int| self.items@[slot(self.head as int, i)]->0)
    }

    /// Events discarded because the ring was full.
    pub closed spec fn dropped_spec(&self) -> u64 {
        self.dropped
    }

    pub closed spec fn wf(&self) -> bool {
        &&& self.items@.len() == QUEUE_CAPACITY
        &&& self.head < QUEUE_CAPACITY
        &&& self.tail < QUEUE_CAPACITY
        &&& forall|i: int| 0 <= i < self.len_spec() ==> (#[trigger] self.items@[slot(self.head as int, i)]) is Some
    }

    pub proof fn lemma_capacity(&self)
        requires
            self.wf(),
        ensures
            self.view().len() < QUEUE_CAPACITY,
    {
    }

    /// An empty ring.
    pub fn new() -> (r: Ring<T>)
        ensures
            r.wf(),
            r.view() == Seq::<T>::empty(),
            r.dropped_spec() == 0,
    {
        let mut items: Vec<Option<T>> = Vec::new();
        let mut i: usize = 0;
        while i < QUEUE_CAPACITY
            invariant
                i <= QUEUE_CAPACITY,
                items@.len() == i,
            decreases QUEUE_CAPACITY - i,
        {
            items.push(None);
            i += 1;
        }
        let r = Ring { items, head: 0, tail: 0, dropped: 0 };
        proof {
            assert(r.view() =~= Seq::<T>::empty());
        }
        r
    }

    /// Queue `item`; when the ring is full the oldest event goes.
    pub fn push(&mut self, item: T)
        requires
            old(self).wf(),
            old(self).dropped_spec() < u64::MAX,
        ensures
            final(self).wf(),
            old(self).view().len() < QUEUE_CAPACITY - 1 ==> {
                &&& final(self).view() == old(self).view().push(item)
                &&& final(self).dropped_spec() == old(self).dropped_spec()
            },
            old(self).view().len() == QUEUE_CAPACITY - 1 ==> {
                &&& final(self).view() == old(self).view().drop_first().push(item)
                &&& final(self).dropped_spec() == old(self).dropped_spec() + 1
            },
    {
        let ghost v = self.view();
        let ghost h0 = self.head as int;
        let next = (self.tail + 1) % QUEUE_CAPACITY;
        if next == self.head {
            self.head = (self.head + 1) % QUEUE_CAPACITY;
            self.dropped = self.dropped + 1;
        }
        self.items.set(self.tail, Some(item));
        self.tail = next;
        proof {
            let n = v.len();
            if n < QUEUE_CAPACITY - 1 {
                assert(self.len_spec() == n + 1);
                assert forall|i: int| 0 <= i < n + 1 implies #[trigger] self.items@[slot(self.head as int, i)] is Some by {
                    if i < n {
                        assert(slot(self.head as int, i) != old(self).tail);
                    }
                }
                assert forall|i: int| 0 <= i < n + 1 implies #[trigger] self.view()[i] == v.push(item)[i] by {
                    if i < n {
                        assert(slot(self.head as int, i) != old(self).tail);
                    }
                }
                assert(self.view() =~= v.push(item));
            } else {
                assert(self.len_spec() == n);
                assert forall|i: int| 0 <= i < n implies #[trigger] self.items@[slot(self.head as int, i)] is Some by {
                    if i < n - 1 {
                        assert(slot(self.head as int, i) == slot(h0, i + 1));
                        assert(slot(h0, i + 1) != old(self).tail);
                    }
                }
                assert forall|i: int| 0 <= i < n implies #[trigger] self.view()[i] == v.drop_first().push(item)[i] by {
                    if i < n - 1 {
                        assert(slot(self.head as int, i) == slot(h0, i + 1));
                        assert(slot(h0, i + 1) != old(self).tail);
                    }
                }
                assert(self.view() =~= v.drop_first().push(item));
            }
        }
    }

    /// Take the oldest event, if any.
    pub fn pop(&mut self) -> (r: Option<T>)
        requires
            old(self).wf(),
        ensures
            final(self).wf(),
            final(self).dropped_spec() == old(self).dropped_spec(),
            old(self).view().len() == 0 ==> r is None && final(self).view() == old(self).view(),
            old(self).view().len() > 0 ==> r == Some(old(self).view()[0]) && final(self).view() == old(self).view().drop_first(),
    {
        if self.head == self.tail {
            return None;
        }
        let ghost v = self.view();
        let ghost h0 = self.head as int;
        proof {
            assert(self.items@[slot(h0, 0)] is Some);
        }
        let item = self.items[self.head];
        self.items.set(self.head, None);
        self.head = (self.head + 1) % QUEUE_CAPACITY;
        proof {
            let n = v.len();
            assert(self.len_spec() == n - 1);
            assert forall|i: int| 0 <= i < n - 1 implies #[trigger] self.items@[slot(self.head as int, i)] is Some by {
                assert(slot(self.head as int, i) == slot(h0, i + 1));
                assert(old(self).items@[slot(h0, i + 1)] is Some);
            }
            assert forall|i: int| 0 <= i < n - 1 implies #[trigger] self.view()[i] == v.drop_first()[i] by {
                assert(slot(self.head as int, i) == slot(h0, i + 1));
            }
            assert(self.view() =~= v.drop_first());
        }
        item
    }

    /// Events discarded so far.
    pub fn dropped(&self) -> (r: u64)
        ensures
            r == self.dropped_spec(),
    {
        self.dropped
    }
}

/// The two input queues: keys and mouse packets.
pub struct EventQueues {
    pub keys: Ring<KeyEvent>,
    pub mice: Ring<MouseEvent>,
}

impl EventQueues {
    pub open spec fn wf(&self) -> bool {
        self.keys.wf() && self.mice.wf()
    }

    pub fn new() -> (q: EventQueues)
        ensures
            q.wf(),
            q.keys.view().len() == 0,
            q.mice.view().len() == 0,
            q.keys.dropped_spec() == 0,
            q.mice.dropped_spec() == 0,
    {
        EventQueues { keys: Ring::new(), mice: Ring::new() }
    }
}

/// Queue a key event.
pub fn push_key(queues: &mut EventQueues, event: KeyEvent)
    requires
        old(queues).wf(),
        old(queues).keys.dropped_spec() < u64::MAX,
    ensures
        final(queues).wf(),
        final(queues).mice == old(queues).mice,
        old(queues).keys.view().len() < QUEUE_CAPACITY - 1 ==> final(queues).keys.view() == old(queues).keys.view().push(event),
        old(queues).keys.view().len() == QUEUE_CAPACITY - 1 ==> final(queues).keys.view() == old(queues).keys.view().drop_first().push(event)
            && final(queues).keys.dropped_spec() == old(queues).keys.dropped_spec() + 1,
{
    proof {
        old(queues).keys.lemma_capacity();
    }
    queues.keys.push(event);
}

/// The oldest queued key event.
pub fn pop_key(queues: &mut EventQueues) -> (r: Option<KeyEvent>)
    requires
        old(queues).wf(),
    ensures
        final(queues).wf(),
        final(queues).mice == old(queues).mice,
        old(queues).keys.view().len() == 0 ==> r is None,
        old(queues).keys.view().len() > 0 ==> r == Some(old(queues).keys.view()[0])
            && final(queues).keys.view() == old(queues).keys.view().drop_first(),
{
    queues.keys.pop()
}

/// Queue a mouse event.
pub fn push_mouse(queues: &mut EventQueues, event: MouseEvent)
    requires
        old(queues).wf(),
        old(queues).mice.dropped_spec() < u64::MAX,
    ensures
        final(queues).wf(),
        final(queues).keys == old(queues).keys,
        old(queues).mice.view().len() < QUEUE_CAPACITY - 1 ==> final(queues).mice.view() == old(queues).mice.view().push(event),
        old(queues).mice.view().len() == QUEUE_CAPACITY - 1 ==> final(queues).mice.view() == old(queues).mice.view().drop_first().push(event)
            && final(queues).mice.dropped_spec() == old(queues).mice.dropped_spec() + 1,
{
    proof {
        old(queues).mice.lemma_capacity();
    }
    queues.mice.push(event);
}

/// The oldest queued mouse event.
pub fn pop_mouse(queues: &mut EventQueues) -> (r: Option<MouseEvent>)
    requires
        old(queues).wf(),
    ensures
        final(queues).wf(),
        final(queues).keys == old(queues).keys,
        old(queues).mice.view().len() == 0 ==> r is None,
        old(queues).mice.view().len() > 0 ==> r == Some(old(queues).mice.view()[0])
            && final(queues).mice.view() == old(queues).mice.view().drop_first(),
{
    queues.mice.pop()
}

/// Events dropped so far, keys then mouse.
pub fn dropped_events(queues: &EventQueues) -> (r: (u64, u64))
    ensures
        r == (queues.keys.dropped_spec(), queues.mice.dropped_spec()),
{
    (queues.keys.dropped(), queues.mice.dropped())
}

/// Events come out in the order they went in: pushing onto a ring with
/// room and popping everything before it leaves the new event at the front.
pub proof fn law_fifo<T: Copy>(before: Seq<T>, item: T, after_push: Seq<T>)
    requires
        before.len() < QUEUE_CAPACITY - 1,
        after_push == before.push(item),
    ensures
        after_push.len() == before.len() + 1,
        forall|i: int| 0 <= i < before.len() ==> after_push[i] == before[i],
        after_push[before.len() as int] == item,
{
}

} // verus!
