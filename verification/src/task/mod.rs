//! Pre-emptive kernel threads: the scheduler's bookkeeping and decisions.
//!
//! A thread is a stack with a saved register frame on it, and switching is
//! picking a different frame to resume. Building stacks and restoring frames
//! is the caller's part; which thread runs next, and what each thread's
//! state becomes, is decided here. Thread 0 is the idle thread.

use vstd::prelude::*;

verus! {

use crate::text::to_string;

pub const DEFAULT_STACK_SIZE: usize = 64 * 1024;

/// Software interrupt used to give up the rest of a time slice.
pub const YIELD_VECTOR: u8 = 0x80;

#[derive(Clone, Copy, Debug, PartialEq, Eq, Structural)]
pub enum State {
    Ready,
    Running,
    /// Waiting for the tick count to reach the stored deadline.
    Sleeping(u64),
    Finished,
}

pub struct Thread {
    pub id: u64,
    pub name: String,
    pub state: State,
    /// Where this thread's register frame sits on its own stack.
    pub frame: u64,
    pub ticks_used: u64,
    pub switches: u64,
}

/// A thread as plain values: id, name, state, frame, ticks used, switches.
pub type ThreadView = (u64, Seq<char>, State, u64, u64, u64);

pub open spec fn thread_view(t: &Thread) -> ThreadView {
    (t.id, t.name@, t.state, t.frame, t.ticks_used, t.switches)
}

pub open spec fn threads_view(v: Seq<Thread>) -> Seq<ThreadView> {
    v.map_values(|t: Thread| thread_view(&t))
}

/// What `snapshot` reports of one thread.
#[derive(Clone)]
pub struct ThreadInfo {
    pub id: u64,
    pub name: String,
    pub state: State,
    pub ticks_used: u64,
    pub switches: u64,
    pub current: bool,
}

pub struct Scheduler {
    pub threads: Vec<Thread>,
    pub current: usize,
    pub next_id: u64,
    pub switches: u64,
    pub started: bool,
}

// ---------------------------------------------------------------------
// The model.
// ---------------------------------------------------------------------

/// A sleeper whose deadline has come is ready again.
pub open spec fn woken(s: State, now: u64) -> State {
    match s {
        State::Sleeping(deadline) => if now >= deadline { State::Ready } else { s },
        _ => s,
    }
}

pub open spec fn wake_all(v: Seq<ThreadView>, now: u64) -> Seq<ThreadView> {
    v.map_values(|t: ThreadView| (t.0, t.1, woken(t.2, now), t.3, t.4, t.5))
}

/// The first ready thread at `k` or more steps after `cur` round the ring,
/// going no further than all the way round; -1 if there is none.
pub open spec fn scan(v: Seq<ThreadView>, cur: int, k: int) -> int
    decreases v.len() + 1 - k,
{
    if k < 1 || k > v.len() {
        -1
    } else if v[(cur + k) % (v.len() as int)].2 == State::Ready {
        (cur + k) % (v.len() as int)
    } else {
        scan(v, cur, k + 1)
    }
}

/// The thread to run after `cur`: the next ready one round the ring, else
/// `cur` itself if it is still running, else the idle thread.
pub open spec fn picked(v: Seq<ThreadView>, cur: int) -> int {
    let r = scan(v, cur, 1);
    if r >= 0 { r } else if v[cur].2 == State::Running { cur } else { 0 }
}

/// Threads kept by `reap` when the running thread has id `keep`.
pub open spec fn kept(v: Seq<ThreadView>, keep: u64) -> Seq<ThreadView>
    decreases v.len(),
{
    if v.len() == 0 {
        v
    } else {
        let rest = kept(v.drop_last(), keep);
        if v.last().2 != State::Finished || v.last().0 == keep { rest.push(v.last()) } else { rest }
    }
}

/// The index of the thread with id `id`, or 0.
pub open spec fn index_of(v: Seq<ThreadView>, id: u64) -> int {
    if exists|i: int| 0 <= i < v.len() && v[i].0 == id {
        choose|i: int| 0 <= i < v.len() && v[i].0 == id
    } else {
        0
    }
}

/// Ids are distinct.
pub open spec fn distinct_ids(v: Seq<ThreadView>) -> bool {
    forall|i: int, j: int| 0 <= i < v.len() && 0 <= j < v.len() && i != j ==> v[i].0 != v[j].0
}

proof fn lemma_scan(v: Seq<ThreadView>, cur: int, k: int)
    requires
        v.len() > 0,
        0 <= cur < v.len(),
        1 <= k,
    ensures
        scan(v, cur, k) == -1 || (0 <= scan(v, cur, k) < v.len() && v[scan(v, cur, k)].2 == State::Ready),
        scan(v, cur, k) == -1 ==> forall|j: int| k <= j <= v.len() ==> v[#[trigger] ((cur + j) % (v.len() as int))].2 != State::Ready,
    decreases v.len() + 1 - k,
{
    if k <= v.len() {
        lemma_scan(v, cur, k + 1);
    }
}

proof fn lemma_wrap(c: int, o: int, n: int)
    requires
        0 <= c < n,
        1 <= o <= n,
    ensures
        (c + o) % n == if c + o < n { c + o } else { c + o - n },
{
    if c + o < n {
        vstd::arithmetic::div_mod::lemma_small_mod((c + o) as nat, n as nat);
    } else {
        vstd::arithmetic::div_mod::lemma_small_mod((c + o - n) as nat, n as nat);
        vstd::arithmetic::div_mod::lemma_mod_add_multiples_vanish(c + o - n, n);
    }
}

proof fn lemma_kept(v: Seq<ThreadView>, keep: u64)
    ensures
        kept(v, keep).len() <= v.len(),
        forall|i: int| 0 <= i < kept(v, keep).len() ==> v.contains(#[trigger] kept(v, keep)[i]),
        forall|i: int| 0 <= i < v.len() && (v[i].2 != State::Finished || v[i].0 == keep)
            ==> kept(v, keep).contains(#[trigger] v[i]),
        forall|i: int| 0 <= i < kept(v, keep).len() ==>
            (#[trigger] kept(v, keep)[i]).2 != State::Finished || kept(v, keep)[i].0 == keep,
    decreases v.len(),
{
    if v.len() > 0 {
        let rest = kept(v.drop_last(), keep);
        lemma_kept(v.drop_last(), keep);
        assert forall|i: int| 0 <= i < kept(v, keep).len() implies v.contains(#[trigger] kept(v, keep)[i]) by {
            if i < rest.len() {
                let x = rest[i];
                assert(v.drop_last().contains(x));
                let j = choose|j: int| 0 <= j < v.drop_last().len() && v.drop_last()[j] == x;
                assert(v[j] == x);
            } else {
                assert(v[v.len() - 1] == v.last());
            }
        }
        assert forall|i: int| 0 <= i < v.len() && (v[i].2 != State::Finished || v[i].0 == keep)
            implies kept(v, keep).contains(#[trigger] v[i]) by {
            if i < v.len() - 1 {
                assert(v.drop_last()[i] == v[i]);
                assert(rest.contains(v[i]));
                let j = choose|j: int| 0 <= j < rest.len() && rest[j] == v[i];
                assert(kept(v, keep)[j] == v[i]);
            } else {
                assert(kept(v, keep)[rest.len() as int] == v[i]);
            }
        }
    }
}

/// Replace everything about thread `i` but its id and name.
fn update(threads: &mut Vec<Thread>, i: usize, state: State, frame: u64, ticks_used: u64, switches: u64)
    requires
        i < old(threads)@.len(),
    ensures
        final(threads)@.len() == old(threads)@.len(),
        threads_view(final(threads)@) == threads_view(old(threads)@).update(
            i as int,
            (old(threads)@[i as int].id, old(threads)@[i as int].name@, state, frame, ticks_used, switches),
        ),
{
    let mut t = threads.remove(i);
    t.state = state;
    t.frame = frame;
    t.ticks_used = ticks_used;
    t.switches = switches;
    threads.insert(i, t);
    proof {
        assert(threads_view(threads@) =~= threads_view(old(threads)@).update(
            i as int,
            (old(threads)@[i as int].id, old(threads)@[i as int].name@, state, frame, ticks_used, switches),
        ));
    }
}

impl Scheduler {
    pub open spec fn view(&self) -> Seq<ThreadView> {
        threads_view(self.threads@)
    }

    /// The scheduler's invariant: the current index is in range, ids are
    /// distinct and below the next one to hand out, and the only thread
    /// that can be running is the current one.
    pub open spec fn wf(&self) -> bool {
        &&& (self.view().len() > 0 ==> self.current < self.view().len())
        &&& (self.view().len() == 0 ==> self.current == 0)
        &&& distinct_ids(self.view())
        &&& forall|i: int| 0 <= i < self.view().len() ==> (#[trigger] self.view()[i]).0 < self.next_id
        &&& forall|i: int| 0 <= i < self.view().len() && (#[trigger] self.view()[i]).2 == State::Running
            ==> i == self.current
    }

    /// No threads yet.
    pub fn new() -> (s: Scheduler)
        ensures
            s.wf(),
            s.view().len() == 0,
            s.current == 0 && s.next_id == 0 && s.switches == 0 && !s.started,
    {
        let s = Scheduler { threads: Vec::new(), current: 0, next_id: 0, switches: 0, started: false };
        proof {
            assert(s.view() =~= Seq::<ThreadView>::empty());
        }
        s
    }

    /// Register the running context as thread 0, the idle thread. Its frame
    /// is filled in by the first tick.
    pub fn init(&mut self)
        requires
            old(self).wf(),
            old(self).view().len() == 0,
        ensures
            final(self).wf(),
            final(self).view() == seq![(0u64, "kernel"@, State::Running, 0u64, 0u64, 0u64)],
            final(self).current == 0,
            final(self).next_id == 1,
            final(self).switches == old(self).switches,
            final(self).started == old(self).started,
    {
        self.threads.push(Thread {
            id: 0,
            name: to_string("kernel"),
            state: State::Running,
            frame: 0,
            ticks_used: 0,
            switches: 0,
        });
        self.next_id = 1;
        proof {
            assert(self.view() =~= seq![(0u64, "kernel"@, State::Running, 0u64, 0u64, 0u64)]);
        }
    }

    /// Add a ready thread whose saved frame is at `frame`; its id.
    pub fn spawn(&mut self, name: &str, frame: u64) -> (id: u64)
        requires
            old(self).wf(),
            old(self).next_id < u64::MAX,
        ensures
            final(self).wf(),
            id == old(self).next_id,
            final(self).next_id == old(self).next_id + 1,
            final(self).view() == old(self).view().push((id, name@, State::Ready, frame, 0u64, 0u64)),
            final(self).current == old(self).current,
            final(self).switches == old(self).switches,
            final(self).started == old(self).started,
    {
        let id = self.next_id;
        self.next_id = self.next_id + 1;
        self.threads.push(Thread { id, name: to_string(name), state: State::Ready, frame, ticks_used: 0, switches: 0 });
        proof {
            assert(self.view() =~= old(self).view().push((id, name@, State::Ready, frame, 0u64, 0u64)));
            if old(self).view().len() == 0 {
                assert(self.current == 0);
            }
        }
        id
    }

    /// Wake every sleeper whose deadline has come, then pick the next
    /// thread round the ring.
    pub fn pick_next(&mut self, now: u64) -> (next: usize)
        requires
            old(self).wf(),
            old(self).view().len() > 0,
        ensures
            final(self).wf(),
            final(self).view() == wake_all(old(self).view(), now),
            next == picked(final(self).view(), old(self).current as int),
            next < final(self).view().len(),
            final(self).current == old(self).current,
            final(self).next_id == old(self).next_id,
            final(self).switches == old(self).switches,
            final(self).started == old(self).started,
    {
        let count = self.threads.len();
        let mut i: usize = 0;
        while i < count
            invariant
                count == self.threads@.len(),
                count == old(self).threads@.len(),
                i <= count,
                self.current == old(self).current,
                self.next_id == old(self).next_id,
                self.switches == old(self).switches,
                self.started == old(self).started,
                forall|j: int| 0 <= j < i ==> #[trigger] self.view()[j] == wake_all(old(self).view(), now)[j],
                forall|j: int| i <= j < count ==> #[trigger] self.view()[j] == old(self).view()[j],
            decreases count - i,
        {
            let t = &self.threads[i];
            let (state, frame, ticks_used, switches) = (t.state, t.frame, t.ticks_used, t.switches);
            proof {
                assert(self.view()[i as int] == old(self).view()[i as int]);
                assert(self.view()[i as int] == thread_view(&self.threads@[i as int]));
            }
            if let State::Sleeping(deadline) = state {
                if now >= deadline {
                    let ghost before = self.view();
                    update(&mut self.threads, i, State::Ready, frame, ticks_used, switches);
                    proof {
                        assert forall|j: int| 0 <= j < count && j != i implies #[trigger] self.view()[j] == before[j] by {}
                    }
                }
            }
            proof {
                assert(self.view()[i as int] == wake_all(old(self).view(), now)[i as int]);
            }
            i += 1;
        }
        proof {
            assert(self.view() =~= wake_all(old(self).view(), now));
            let v = self.view();
            assert forall|j: int| 0 <= j < v.len() && (#[trigger] v[j]).2 == State::Running implies j == self.current by {
                assert(v[j] == wake_all(old(self).view(), now)[j]);
                assert(old(self).view()[j].2 == State::Running);
            }
            assert forall|a: int, b: int| 0 <= a < v.len() && 0 <= b < v.len() && a != b implies v[a].0 != v[b].0 by {
                assert(v[a].0 == old(self).view()[a].0);
                assert(v[b].0 == old(self).view()[b].0);
            }
            assert forall|j: int| 0 <= j < v.len() implies (#[trigger] v[j]).0 < self.next_id by {
                assert(v[j].0 == old(self).view()[j].0);
            }
        }
        let ghost v = self.view();
        let cur = self.current;
        let mut k: usize = 0;
        while k < count
            invariant
                v == self.view(),
                v == wake_all(old(self).view(), now),
                self.wf(),
                self.current == old(self).current,
                self.next_id == old(self).next_id,
                self.switches == old(self).switches,
                self.started == old(self).started,
                count == v.len(),
                count > 0,
                cur == self.current,
                cur < count,
                k <= count,
                scan(v, cur as int, 1) == scan(v, cur as int, k + 1),
            decreases count - k,
        {
            let offset = k + 1;
            let index = if offset < count - cur { cur + offset } else { offset - (count - cur) };
            proof {
                lemma_wrap(cur as int, offset as int, count as int);
                assert(v[index as int].2 == self.threads@[index as int].state);
            }
            if self.threads[index].state == State::Ready {
                proof {
                    assert(scan(v, cur as int, offset as int) == index);
                }
                return index;
            }
            k += 1;
        }
        proof {
            assert(v[cur as int].2 == self.threads@[cur as int].state);
        }
        if self.threads[cur].state == State::Running {
            cur
        } else {
            0
        }
    }

    /// A timer tick (or a yield) interrupted the current thread, whose
    /// frame is at `frame`: charge it the tick, pick the next thread, and
    /// give the frame to resume.
    pub fn tick(&mut self, now: u64, frame: u64) -> (resume: u64)
        requires
            old(self).wf(),
            old(self).switches < u64::MAX,
            forall|i: int| 0 <= i < old(self).view().len() ==> (#[trigger] old(self).view()[i]).4 < u64::MAX
                && old(self).view()[i].5 < u64::MAX,
        ensures
            final(self).wf(),
            final(self).next_id == old(self).next_id,
            old(self).view().len() == 0 ==> {
                &&& resume == frame
                &&& final(self).view() == old(self).view()
                &&& final(self).current == old(self).current
                &&& final(self).switches == old(self).switches
                &&& final(self).started == old(self).started
            },
            old(self).view().len() > 0 ==> {
                let w = wake_all(charged(old(self).view(), old(self).current as int, frame), now);
                let (v, cur, switched, resumed) = switched_to(w, old(self).current as int, frame);
                &&& final(self).started
                &&& final(self).view() == v
                &&& final(self).current == cur
                &&& final(self).switches == old(self).switches + (if switched { 1int } else { 0int })
                &&& resume == resumed
            },
    {
        if self.threads.len() == 0 {
            return frame;
        }
        let current = self.current;
        let t = &self.threads[current];
        let (state, ticks_used, switches) = (t.state, t.ticks_used, t.switches);
        proof {
            assert(old(self).view()[current as int] == thread_view(&self.threads@[current as int]));
        }
        update(&mut self.threads, current, state, frame, ticks_used + 1, switches);
        self.started = true;
        proof {
            let o = old(self).view();
            let c = charged(o, current as int, frame);
            assert(self.view() =~= c);
            lemma_charged_wf(o, current as int, frame, self.next_id);
        }
        let next = self.pick_next(now);
        if next == current {
            return frame;
        }
        let ghost w = self.view();
        let t = &self.threads[current];
        let (state, cframe, cticks, cswitches) = (t.state, t.frame, t.ticks_used, t.switches);
        proof {
            assert(w[current as int] == thread_view(&self.threads@[current as int]));
        }
        if state == State::Running {
            update(&mut self.threads, current, State::Ready, cframe, cticks, cswitches);
        }
        let ghost w1 = self.view();
        let t = &self.threads[next];
        let (nframe, nticks, nswitches) = (t.frame, t.ticks_used, t.switches);
        proof {
            assert(w1[next as int] == thread_view(&self.threads@[next as int]));
            assert(w1[next as int].5 == old(self).view()[next as int].5);
        }
        update(&mut self.threads, next, State::Running, nframe, nticks, nswitches + 1);
        self.current = next;
        self.switches = self.switches + 1;
        proof {
            let v = self.view();
            assert(v =~= switched_to(w, current as int, frame).0);
            assert forall|i: int| 0 <= i < v.len() && (#[trigger] v[i]).2 == State::Running implies i == self.current by {
                if i != next as int {
                    assert(v[i] == w1[i]);
                    if i != current as int {
                        assert(w1[i] == w[i]);
                    }
                }
            }
            assert forall|a: int, b: int| 0 <= a < v.len() && 0 <= b < v.len() && a != b implies v[a].0 != v[b].0 by {
                assert(v[a].0 == w[a].0);
                assert(v[b].0 == w[b].0);
            }
            assert forall|j: int| 0 <= j < v.len() implies (#[trigger] v[j]).0 < self.next_id by {
                assert(v[j].0 == w[j].0);
            }
        }
        nframe
    }

    /// Put the current thread to sleep until the tick count reaches
    /// `deadline`.
    pub fn sleep_current(&mut self, deadline: u64)
        requires
            old(self).wf(),
            old(self).view().len() > 0,
        ensures
            final(self).wf(),
            final(self).view() == old(self).view().update(old(self).current as int,
                with_state(old(self).view()[old(self).current as int], State::Sleeping(deadline))),
            final(self).current == old(self).current,
            final(self).next_id == old(self).next_id,
            final(self).switches == old(self).switches,
            final(self).started == old(self).started,
    {
        self.set_current_state(State::Sleeping(deadline));
    }

    /// The current thread's function returned: it is finished.
    pub fn finish_current(&mut self)
        requires
            old(self).wf(),
            old(self).view().len() > 0,
        ensures
            final(self).wf(),
            final(self).view() == old(self).view().update(old(self).current as int,
                with_state(old(self).view()[old(self).current as int], State::Finished)),
            final(self).current == old(self).current,
            final(self).next_id == old(self).next_id,
            final(self).switches == old(self).switches,
            final(self).started == old(self).started,
    {
        self.set_current_state(State::Finished);
    }

    fn set_current_state(&mut self, state: State)
        requires
            old(self).wf(),
            old(self).view().len() > 0,
        ensures
            final(self).wf(),
            final(self).view() == old(self).view().update(old(self).current as int,
                with_state(old(self).view()[old(self).current as int], state)),
            final(self).current == old(self).current,
            final(self).next_id == old(self).next_id,
            final(self).switches == old(self).switches,
            final(self).started == old(self).started,
    {
        let current = self.current;
        let t = &self.threads[current];
        let (frame, ticks_used, switches) = (t.frame, t.ticks_used, t.switches);
        proof {
            assert(old(self).view()[current as int] == thread_view(&self.threads@[current as int]));
        }
        update(&mut self.threads, current, state, frame, ticks_used, switches);
        proof {
            let v = self.view();
            let o = old(self).view();
            assert(v =~= o.update(current as int, with_state(o[current as int], state)));
            assert forall|a: int, b: int| 0 <= a < v.len() && 0 <= b < v.len() && a != b implies v[a].0 != v[b].0 by {
                assert(v[a].0 == o[a].0);
                assert(v[b].0 == o[b].0);
            }
            assert forall|j: int| 0 <= j < v.len() implies (#[trigger] v[j]).0 < self.next_id by {
                assert(v[j].0 == o[j].0);
            }
            assert forall|i: int| 0 <= i < v.len() && (#[trigger] v[i]).2 == State::Running implies i == self.current by {
                if i != current as int {
                    assert(v[i] == o[i]);
                }
            }
        }
    }

    /// Mark thread `id` finished, unless it is the idle thread: it stops
    /// being scheduled, and `reap` drops it. Whether there was such a thread.
    pub fn kill(&mut self, id: u64) -> (found: bool)
        requires
            old(self).wf(),
        ensures
            final(self).wf(),
            found == (id != 0 && exists|i: int| 0 <= i < old(self).view().len() && old(self).view()[i].0 == id),
            found ==> final(self).view() == old(self).view().update(index_of(old(self).view(), id),
                with_state(old(self).view()[index_of(old(self).view(), id)], State::Finished)),
            !found ==> final(self).view() == old(self).view(),
            final(self).current == old(self).current,
            final(self).next_id == old(self).next_id,
            final(self).switches == old(self).switches,
            final(self).started == old(self).started,
    {
        let ghost o = self.view();
        let n = self.threads.len();
        let mut i: usize = 0;
        while i < n
            invariant
                n == o.len(),
                self.view() == o,
                self.wf(),
                self.current == old(self).current,
                self.next_id == old(self).next_id,
                self.switches == old(self).switches,
                self.started == old(self).started,
                o == old(self).view(),
                i <= n,
                forall|j: int| 0 <= j < i ==> !((#[trigger] o[j]).0 == id && o[j].0 != 0),
            decreases n - i,
        {
            let t = &self.threads[i];
            proof {
                assert(o[i as int] == thread_view(&self.threads@[i as int]));
            }
            if t.id == id && t.id != 0 {
                let (frame, ticks_used, switches) = (t.frame, t.ticks_used, t.switches);
                update(&mut self.threads, i, State::Finished, frame, ticks_used, switches);
                proof {
                    lemma_index_of(o, i as int);
                    let v = self.view();
                    assert(v =~= o.update(i as int, with_state(o[i as int], State::Finished)));
                    assert forall|a: int, b: int| 0 <= a < v.len() && 0 <= b < v.len() && a != b implies v[a].0 != v[b].0 by {
                        assert(v[a].0 == o[a].0);
                        assert(v[b].0 == o[b].0);
                    }
                    assert forall|j: int| 0 <= j < v.len() implies (#[trigger] v[j]).0 < self.next_id by {
                        assert(v[j].0 == o[j].0);
                    }
                    assert forall|k: int| 0 <= k < v.len() && (#[trigger] v[k]).2 == State::Running implies k == self.current by {
                        if k != i as int {
                            assert(v[k] == o[k]);
                        }
                    }
                }
                return true;
            }
            i += 1;
        }
        proof {
            if id != 0 && exists|k: int| 0 <= k < o.len() && o[k].0 == id {
                let k = choose|k: int| 0 <= k < o.len() && o[k].0 == id;
                assert(!(o[k].0 == id && o[k].0 != 0));
            }
        }
        false
    }

    /// The running thread's id, or 0 when there are no threads.
    pub fn current_id(&self) -> (id: u64)
        requires
            self.wf(),
        ensures
            id == if self.view().len() > 0 { self.view()[self.current as int].0 } else { 0 },
    {
        if self.current < self.threads.len() {
            proof {
                assert(self.view()[self.current as int] == thread_view(&self.threads@[self.current as int]));
            }
            self.threads[self.current].id
        } else {
            0
        }
    }

    /// Context switches since boot.
    pub fn total_switches(&self) -> (n: u64)
        ensures
            n == self.switches,
    {
        self.switches
    }

    /// Every thread as the task list shows it.
    pub fn snapshot(&self) -> (infos: Vec<ThreadInfo>)
        ensures
            infos@.len() == self.view().len(),
            forall|i: int| 0 <= i < infos@.len() ==> info_view(#[trigger] infos@[i]) == (
                self.view()[i].0, self.view()[i].1, self.view()[i].2, self.view()[i].4, self.view()[i].5,
                i == self.current),
    {
        let mut infos: Vec<ThreadInfo> = Vec::new();
        let n = self.threads.len();
        let mut i: usize = 0;
        while i < n
            invariant
                n == self.view().len(),
                i <= n,
                infos@.len() == i,
                forall|j: int| 0 <= j < i ==> info_view(#[trigger] infos@[j]) == (
                    self.view()[j].0, self.view()[j].1, self.view()[j].2, self.view()[j].4, self.view()[j].5,
                    j == self.current),
            decreases n - i,
        {
            let t = &self.threads[i];
            proof {
                assert(self.view()[i as int] == thread_view(&self.threads@[i as int]));
            }
            infos.push(ThreadInfo {
                id: t.id,
                name: to_string(t.name.as_str()),
                state: t.state,
                ticks_used: t.ticks_used,
                switches: t.switches,
                current: i == self.current,
            });
            i += 1;
        }
        infos
    }

    /// Drop the finished threads, all but the running one, whose stack is
    /// still in use; the running thread keeps running. How many went.
    pub fn reap(&mut self) -> (removed: usize)
        requires
            old(self).wf(),
            old(self).view().len() > 0,
        ensures
            final(self).wf(),
            final(self).view() == kept(old(self).view(), old(self).view()[old(self).current as int].0),
            removed == old(self).view().len() - final(self).view().len(),
            final(self).view().len() > 0,
            final(self).view()[final(self).current as int].0 == old(self).view()[old(self).current as int].0,
            removed == 0 ==> final(self).current == old(self).current,
            final(self).next_id == old(self).next_id,
            final(self).switches == old(self).switches,
            final(self).started == old(self).started,
    {
        let ghost o = self.view();
        let current = self.current;
        proof {
            assert(o[current as int] == thread_view(&self.threads@[current as int]));
        }
        let keep = self.threads[current].id;
        let before = self.threads.len();
        let mut rest: Vec<Thread> = Vec::new();
        std::mem::swap(&mut rest, &mut self.threads);
        let mut i: usize = 0;
        proof {
            assert(o.take(0) =~= Seq::<ThreadView>::empty());
            assert(threads_view(rest@) =~= o.skip(0));
        }
        while rest.len() > 0
            invariant
                i <= before,
                before == o.len(),
                o == old(self).view(),
                self.current == current,
                current == old(self).current,
                self.next_id == old(self).next_id,
                self.switches == old(self).switches,
                self.started == old(self).started,
                threads_view(rest@) == o.skip(i as int),
                threads_view(self.threads@) == kept(o.take(i as int), keep),
            decreases rest@.len(),
        {
            let ghost rv = threads_view(rest@);
            let t = rest.remove(0);
            proof {
                assert(threads_view(rest@) =~= rv.subrange(1, rv.len() as int));
                assert(o.skip(i as int).len() > 0);
                assert(thread_view(&t) == o[i as int]) by {
                    assert(o.skip(i as int)[0] == o[i as int]);
                }
                assert(o.take(i + 1).drop_last() =~= o.take(i as int));
                assert(o.take(i + 1).last() == o[i as int]);
                assert(threads_view(rest@) =~= o.skip(i + 1));
            }
            if t.state != State::Finished || t.id == keep {
                let ghost kv = threads_view(self.threads@);
                self.threads.push(t);
                proof {
                    assert(threads_view(self.threads@) =~= kv.push(o[i as int]));
                }
            }
            i += 1;
        }
        proof {
            assert(o.skip(i as int).len() == 0);
            assert(o.take(i as int) =~= o);
            lemma_kept(o, keep);
            lemma_kept_distinct(o, keep);
        }
        let after = self.threads.len();
        if before != after {
            proof {
                assert(o.contains(o[current as int]));
                let m = choose|m: int| 0 <= m < self.view().len() && self.view()[m] == o[current as int];
                assert(self.view()[m].0 == keep);
            }
            let position = position_of(&self.threads, keep);
            self.current = position;
        }
        proof {
            let v = self.view();
            lemma_kept_len(o, keep);
            if before == after {
                lemma_kept_whole(o, keep);
                assert(v == o);
            }
            assert(v.contains(o[current as int]));
            let m = choose|m: int| 0 <= m < v.len() && v[m] == o[current as int];
            assert(v[self.current as int].0 == keep) by {
                if before != after {
                } else {
                    assert(v[current as int] == o[current as int]);
                }
            }
            assert forall|a: int| 0 <= a < v.len() && (#[trigger] v[a]).2 == State::Running implies a == self.current by {
                assert(o.contains(v[a]));
                let b = choose|b: int| 0 <= b < o.len() && o[b] == v[a];
                assert(o[b].2 == State::Running);
                assert(b == current as int);
                assert(v[a].0 == keep);
                assert(v[self.current as int].0 == keep);
            }
            assert forall|a: int| 0 <= a < v.len() implies (#[trigger] v[a]).0 < self.next_id by {
                assert(o.contains(v[a]));
                let b = choose|b: int| 0 <= b < o.len() && o[b] == v[a];
                assert(o[b].0 < self.next_id);
            }
        }
        before - after
    }
}

/// Where the thread with id `id` is.
fn position_of(threads: &Vec<Thread>, id: u64) -> (p: usize)
    requires
        distinct_ids(threads_view(threads@)),
        exists|m: int| 0 <= m < threads@.len() && threads_view(threads@)[m].0 == id,
    ensures
        p < threads@.len(),
        threads_view(threads@)[p as int].0 == id,
        p == index_of(threads_view(threads@), id),
{
    let ghost k = threads_view(threads@);
    let n = threads.len();
    let mut j: usize = 0;
    while j < n
        invariant
            n == k.len(),
            k == threads_view(threads@),
            distinct_ids(k),
            j <= n,
            forall|m: int| 0 <= m < j ==> (#[trigger] k[m]).0 != id,
        decreases n - j,
    {
        proof {
            assert(k[j as int] == thread_view(&threads@[j as int]));
        }
        if threads[j].id == id {
            proof {
                lemma_index_of(k, j as int);
            }
            return j;
        }
        j += 1;
    }
    proof {
        let m = choose|m: int| 0 <= m < threads@.len() && threads_view(threads@)[m].0 == id;
        assert(k[m].0 != id);
    }
    0
}

/// A thread with its state replaced.
pub open spec fn with_state(t: ThreadView, s: State) -> ThreadView {
    (t.0, t.1, s, t.3, t.4, t.5)
}

/// The threads after the current one, `cur`, is charged a tick and its
/// frame recorded.
pub open spec fn charged(v: Seq<ThreadView>, cur: int, frame: u64) -> Seq<ThreadView> {
    v.update(cur, (v[cur].0, v[cur].1, v[cur].2, frame, (v[cur].4 + 1) as u64, v[cur].5))
}

/// After waking (`w`): the threads, the new current index, whether it
/// changed, and the frame to resume, when `cur` was interrupted at `frame`.
pub open spec fn switched_to(w: Seq<ThreadView>, cur: int, frame: u64) -> (Seq<ThreadView>, int, bool, u64) {
    let next = picked(w, cur);
    if next == cur {
        (w, cur, false, frame)
    } else {
        let w1 = if w[cur].2 == State::Running { w.update(cur, with_state(w[cur], State::Ready)) } else { w };
        let t = w1[next];
        (w1.update(next, (t.0, t.1, State::Running, t.3, t.4, (t.5 + 1) as u64)), next, true, t.3)
    }
}

/// What `snapshot` reports, as plain values.
pub open spec fn info_view(i: ThreadInfo) -> (u64, Seq<char>, State, u64, u64, bool) {
    (i.id, i.name@, i.state, i.ticks_used, i.switches, i.current)
}

proof fn lemma_charged_wf(o: Seq<ThreadView>, cur: int, frame: u64, next_id: u64)
    requires
        0 <= cur < o.len(),
        distinct_ids(o),
        forall|i: int| 0 <= i < o.len() ==> (#[trigger] o[i]).0 < next_id,
    ensures
        distinct_ids(charged(o, cur, frame)),
        forall|i: int| 0 <= i < o.len() ==> (#[trigger] charged(o, cur, frame)[i]).0 < next_id,
{
    let c = charged(o, cur, frame);
    assert forall|a: int, b: int| 0 <= a < c.len() && 0 <= b < c.len() && a != b implies c[a].0 != c[b].0 by {
        assert(c[a].0 == o[a].0);
        assert(c[b].0 == o[b].0);
    }
    assert forall|i: int| 0 <= i < o.len() implies (#[trigger] c[i]).0 < next_id by {
        assert(c[i].0 == o[i].0);
    }
}

proof fn lemma_index_of(v: Seq<ThreadView>, i: int)
    requires
        distinct_ids(v),
        0 <= i < v.len(),
    ensures
        index_of(v, v[i].0) == i,
{
    let j = choose|j: int| 0 <= j < v.len() && v[j].0 == v[i].0;
    assert(v[j].0 == v[i].0);
}

proof fn lemma_kept_distinct(v: Seq<ThreadView>, keep: u64)
    requires
        distinct_ids(v),
    ensures
        distinct_ids(kept(v, keep)),
        forall|i: int| 0 <= i < kept(v, keep).len() ==> exists|j: int| 0 <= j < v.len() && #[trigger] kept(v, keep)[i] == v[j],
    decreases v.len(),
{
    if v.len() > 0 {
        let d = v.drop_last();
        assert(distinct_ids(d)) by {
            assert forall|a: int, b: int| 0 <= a < d.len() && 0 <= b < d.len() && a != b implies d[a].0 != d[b].0 by {
                assert(d[a] == v[a]);
                assert(d[b] == v[b]);
            }
        }
        lemma_kept_distinct(d, keep);
        let r = kept(d, keep);
        assert forall|i: int| 0 <= i < kept(v, keep).len() implies exists|j: int| 0 <= j < v.len() && #[trigger] kept(v, keep)[i] == v[j] by {
            if i < r.len() {
                let j = choose|j: int| 0 <= j < d.len() && r[i] == d[j];
                assert(kept(v, keep)[i] == v[j]);
            } else {
                assert(kept(v, keep)[i] == v[v.len() - 1]);
            }
        }
        let k = kept(v, keep);
        assert forall|a: int, b: int| 0 <= a < k.len() && 0 <= b < k.len() && a != b implies k[a].0 != k[b].0 by {
            if a < r.len() && b < r.len() {
                assert(k[a] == r[a]);
                assert(k[b] == r[b]);
            } else {
                let (x, y) = if a < r.len() { (a, b) } else { (b, a) };
                if x < r.len() {
                    let j = choose|j: int| 0 <= j < d.len() && r[x] == d[j];
                    assert(k[x] == v[j]);
                    assert(k[y] == v[v.len() - 1]);
                    assert(j != v.len() - 1);
                }
            }
        }
    }
}

proof fn lemma_kept_len(v: Seq<ThreadView>, keep: u64)
    requires
        exists|i: int| 0 <= i < v.len() && v[i].0 == keep,
    ensures
        kept(v, keep).len() > 0,
    decreases v.len(),
{
    lemma_kept(v, keep);
    let i = choose|i: int| 0 <= i < v.len() && v[i].0 == keep;
    assert(kept(v, keep).contains(v[i]));
}

proof fn lemma_kept_whole(v: Seq<ThreadView>, keep: u64)
    requires
        kept(v, keep).len() == v.len(),
    ensures
        kept(v, keep) == v,
    decreases v.len(),
{
    if v.len() > 0 {
        lemma_kept(v.drop_last(), keep);
        let r = kept(v.drop_last(), keep);
        if !(v.last().2 != State::Finished || v.last().0 == keep) {
            assert(r.len() <= v.len() - 1);
        } else {
            lemma_kept_whole(v.drop_last(), keep);
            assert(v =~= v.drop_last().push(v.last()));
        }
    }
}

/// Only the current thread can be running: no two threads ever run at
/// once.
pub proof fn law_single_runner(s: &Scheduler, i: int, j: int)
    requires
        s.wf(),
        0 <= i < s.view().len(),
        0 <= j < s.view().len(),
        s.view()[i].2 == State::Running,
        s.view()[j].2 == State::Running,
    ensures
        i == j,
        i == s.current,
{
}

/// No ready thread is passed over: when any thread is ready, the one
/// picked to run next is a ready thread.
pub proof fn law_ready_thread_runs(v: Seq<ThreadView>, cur: int, i: int)
    requires
        0 <= cur < v.len(),
        0 <= i < v.len(),
        v[i].2 == State::Ready,
    ensures
        0 <= picked(v, cur) < v.len(),
        v[picked(v, cur)].2 == State::Ready,
{
    lemma_scan(v, cur, 1);
    let n = v.len() as int;
    let j = if i > cur { i - cur } else { i - cur + n };
    assert(1 <= j <= n);
    lemma_wrap(cur, j, n);
    assert((cur + j) % n == i);
    if scan(v, cur, 1) == -1 {
        assert(v[(cur + j) % n].2 != State::Ready);
    }
}

} // verus!
