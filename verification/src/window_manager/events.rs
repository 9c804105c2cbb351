use vstd::prelude::*;

verus! {

/// A pointer event delivered to a window.
#[derive(Debug, Copy, Clone, PartialEq, Eq)]
pub struct MouseEvent {
    pub wid: u32,
    pub x: usize,
    pub y: usize,
    pub buttons: [bool; 3],
    pub scroll: i8,
}

/// A key press; `repeat` counts how many presses were merged into this event.
#[derive(Debug, Copy, Clone, PartialEq, Eq)]
pub struct KeyboardEvent {
    pub wid: u32,
    pub key: u32,
    pub repeat: u16,
}

#[derive(Debug, Copy, Clone, PartialEq, Eq)]
pub struct ResizeEvent {
    pub wid: u32,
    pub width: usize,
    pub height: usize,
}

#[derive(Debug, Copy, Clone, PartialEq, Eq)]
pub struct RedrawEvent {
    pub wid: u32,
    pub to_fb: bool,
    pub to_db: bool,
}

#[derive(Debug, Copy, Clone, PartialEq, Eq)]
pub enum Event {
    Mouse(MouseEvent),
    Keyboard(KeyboardEvent),
    Resize(ResizeEvent),
    Redraw(RedrawEvent),
    /// An empty slot.
    NoEvent,
}

/// The window an event is addressed to; `Event::NoEvent` belongs to window 0.
pub open spec fn event_wid(e: Event) -> u32 {
    match e {
        Event::Mouse(m) => m.wid,
        Event::Keyboard(k) => k.wid,
        Event::Resize(r) => r.wid,
        Event::Redraw(r) => r.wid,
        Event::NoEvent => 0,
    }
}

impl Event {
    pub fn get_window_id(&self) -> (id: u32)
        ensures
            id == event_wid(*self),
    {
        match self {
            Event::Mouse(event) => event.wid,
            Event::Keyboard(event) => event.wid,
            Event::Resize(event) => event.wid,
            Event::Redraw(event) => event.wid,
            Event::NoEvent => 0,
        }
    }
}

/// Capacity of the global event ring.
pub const QUEUE_SIZE: usize = 256;

/// Walks `s` from the front and takes each event addressed to `wid` while fewer than `max`
/// have been taken; returns the taken events and the kept ones, both in queue order.
pub open spec fn split_events(s: Seq<Event>, wid: u32, max: nat) -> (Seq<Event>, Seq<Event>)
    decreases s.len(),
{
    if s.len() == 0 {
        (Seq::empty(), Seq::empty())
    } else {
        let (taken, kept) = split_events(s.drop_last(), wid, max);
        let e = s.last();
        if event_wid(e) == wid && taken.len() < max {
            (taken.push(e), kept)
        } else {
            (taken, kept.push(e))
        }
    }
}

/// Taking events for a window: every taken event is addressed to it, no more than `max` are
/// taken, nothing is lost, none of the kept events is addressed to it unless `max` were taken,
/// and every kept event for another window stays.
pub proof fn lemma_split_events(s: Seq<Event>, wid: u32, max: nat)
    ensures
        ({
            let (taken, kept) = split_events(s, wid, max);
            &&& taken.len() <= max
            &&& taken.len() + kept.len() == s.len()
            &&& forall|i: int| 0 <= i < taken.len() ==> event_wid(#[trigger] taken[i]) == wid
            &&& taken.len() < max ==> forall|i: int|
                0 <= i < kept.len() ==> event_wid(#[trigger] kept[i]) != wid
            &&& s.filter(|e: Event| event_wid(e) != wid) == kept.filter(
                |e: Event| event_wid(e) != wid,
            )
        }),
    decreases s.len(),
{
    if s.len() > 0 {
        lemma_split_events(s.drop_last(), wid, max);
        let (taken, kept) = split_events(s.drop_last(), wid, max);
        let e = s.last();
        let f = |e: Event| event_wid(e) != wid;
        assert(s =~= s.drop_last().push(e));
        s.drop_last().lemma_filter_push(e, f);
        kept.lemma_filter_push(e, f);
    } else {
        assert(s.filter(|e: Event| event_wid(e) != wid) =~= Seq::<Event>::empty());
    }
}

/// A key press with a zero repeat count counts as one press.
pub open spec fn normalize_event(e: Event) -> Event {
    match e {
        Event::Keyboard(k) => if k.repeat == 0 {
            Event::Keyboard(KeyboardEvent { repeat: 1, ..k })
        } else {
            e
        },
        _ => e,
    }
}

pub open spec fn sat_add_u16(a: u16, b: u16) -> u16 {
    if a + b > u16::MAX {
        u16::MAX
    } else {
        (a + b) as u16
    }
}

/// The queue after `add_event(e)`: a key press that repeats the newest queued key press for
/// the same window is merged into it; otherwise the event is appended unless the queue is full.
pub open spec fn queue_after_add(s: Seq<Event>, e: Event) -> Seq<Event> {
    let e1 = normalize_event(e);
    if e1 is Keyboard && s.len() > 0 && s.last() is Keyboard && s.last()->Keyboard_0.wid
        == e1->Keyboard_0.wid && s.last()->Keyboard_0.key == e1->Keyboard_0.key {
        let last = s.last()->Keyboard_0;
        s.update(
            s.len() - 1,
            Event::Keyboard(
                KeyboardEvent { repeat: sat_add_u16(last.repeat, e1->Keyboard_0.repeat), ..last },
            ),
        )
    } else if s.len() >= QUEUE_SIZE {
        s
    } else {
        s.push(e1)
    }
}

/// Distinct offsets below the ring size from one start land in distinct slots.
pub proof fn lemma_ring_slots_distinct(t: int, a: int, b: int, n: int)
    requires
        0 <= a < n,
        0 <= b < n,
        a != b,
        n > 0,
        0 <= t,
    ensures
        (t + a) % n != (t + b) % n,
{
    assert((t + a) % n != (t + b) % n) by (nonlinear_arith)
        requires
            0 <= a < n,
            0 <= b < n,
            a != b,
            n > 0,
            0 <= t,
    ;
}

/// A fixed ring of events: `tail` is the oldest, `head` the next free slot.
pub struct EventQueue {
    pub queue: [Event; QUEUE_SIZE],
    pub head: usize,
    pub tail: usize,
    pub count: usize,
}

impl EventQueue {
    pub open spec fn wf(&self) -> bool {
        &&& self.count <= QUEUE_SIZE
        &&& self.tail < QUEUE_SIZE
        &&& self.head == (self.tail + self.count) % (QUEUE_SIZE as int)
    }

    /// The queued events, oldest first.
    pub open spec fn view(&self) -> Seq<Event> {
        Seq::new(self.count as nat, |k: int| self.queue@[(self.tail + k) % (QUEUE_SIZE as int)])
    }

    /// An empty queue.
    pub fn new() -> (q: EventQueue)
        ensures
            q.wf(),
            q@ == Seq::<Event>::empty(),
            q.head == 0 && q.tail == 0 && q.count == 0,
    {
        EventQueue { queue: [Event::NoEvent; QUEUE_SIZE], head: 0, tail: 0, count: 0 }
    }

    /// Nothing to prepare: the ring is a fixed array.
    pub fn init(&mut self)
        ensures
            *final(self) == *old(self),
    {
    }

    #[verifier::spinoff_prover]
    #[verifier::rlimit(30)]
    pub fn add_event(&mut self, event: Event)
        requires
            old(self).wf(),
        ensures
            final(self).wf(),
            final(self)@ == queue_after_add(old(self)@, event),
            final(self).tail == old(self).tail,
            final(self).head == (old(self).tail + final(self)@.len()) % (QUEUE_SIZE as int),
    {
        let ghost s = self@;
        let mut ev = event;
        if let Event::Keyboard(kb) = event {
            let mut kb = kb;
            if kb.repeat == 0 {
                kb.repeat = 1;
            }
            ev = Event::Keyboard(kb);
            assert(ev == normalize_event(event));
            if self.count > 0 {
                let last_idx = if self.head == 0 { QUEUE_SIZE - 1 } else { self.head - 1 };
                assert(last_idx == (self.tail + (self.count - 1)) % (QUEUE_SIZE as int));
                if let Event::Keyboard(last_kb) = self.queue[last_idx] {
                    if last_kb.wid == kb.wid && last_kb.key == kb.key {
                        let mut merged = last_kb;
                        merged.repeat = last_kb.repeat.saturating_add(kb.repeat);
                        self.queue[last_idx] = Event::Keyboard(merged);
                        proof {
                            assert(self@ =~= queue_after_add(s, event));
                        }
                        return;
                    }
                }
            }
        }
        if self.count >= QUEUE_SIZE {
            return;
        }
        self.queue[self.head] = ev;
        self.head = (self.head + 1) % QUEUE_SIZE;
        self.count += 1;
        proof {
            assert(self@ =~= queue_after_add(s, event));
        }
    }

    /// Removes and returns, oldest first, up to `max_events` events addressed to `window_id`;
    /// every other event stays queued in its order.
    #[verifier::rlimit(80)]
    #[verifier::spinoff_prover]
    pub fn get_and_remove_events(&mut self, window_id: u32, max_events: usize) -> (result: Vec<
        Event,
    >)
        requires
            old(self).wf(),
        ensures
            final(self).wf(),
            result@ == split_events(old(self)@, window_id, max_events as nat).0,
            final(self)@ == split_events(old(self)@, window_id, max_events as nat).1,
            final(self).tail == old(self).tail,
            final(self).head == (old(self).tail + final(self)@.len()) % (QUEUE_SIZE as int),
    {
        let mut result: Vec<Event> = Vec::with_capacity(max_events);
        if self.count == 0 {
            proof {
                assert(self@ =~= Seq::<Event>::empty());
            }
            return result;
        }
        let ghost s = self@;
        let mut new_count: usize = 0;
        let mut read_ptr = self.tail;
        let mut write_ptr = self.tail;
        let n = self.count;
        let mut k: usize = 0;
        while k < n
            invariant
                n == self.count,
                n <= QUEUE_SIZE,
                self.tail == old(self).tail,
                self.tail < QUEUE_SIZE,
                s == old(self)@,
                s.len() == n,
                0 <= k <= n,
                new_count <= k,
                read_ptr == (self.tail + k) % (QUEUE_SIZE as int),
                write_ptr == (self.tail + new_count) % (QUEUE_SIZE as int),
                result@ == split_events(s.take(k as int), window_id, max_events as nat).0,
                new_count == split_events(s.take(k as int), window_id, max_events as nat).1.len(),
                forall|j: int|
                    0 <= j < new_count ==> #[trigger] self.queue@[(self.tail + j) % (
                    QUEUE_SIZE as int)] == split_events(
                        s.take(k as int),
                        window_id,
                        max_events as nat,
                    ).1[j],
                forall|j: int|
                    k <= j < n ==> #[trigger] self.queue@[(self.tail + j) % (QUEUE_SIZE as int)]
                        == s[j],
            decreases n - k,
        {
            let evt = self.queue[read_ptr];
            let ghost sp = split_events(s.take(k as int), window_id, max_events as nat);
            proof {
                assert(s.take(k + 1).drop_last() =~= s.take(k as int));
                assert(s.take(k + 1).last() == s[k as int]);
                assert(evt == s[k as int]);
            }
            let mut taken = false;
            if evt.get_window_id() == window_id && result.len() < max_events {
                result.push(evt);
                taken = true;
            }
            if !taken {
                let ghost q0 = self.queue@;
                self.queue[write_ptr] = evt;
                proof {
                    assert forall|j: int| 0 <= j < new_count implies #[trigger] self.queue@[(
                    self.tail + j) % (QUEUE_SIZE as int)] == q0[(self.tail + j) % (
                    QUEUE_SIZE as int)] by {
                        lemma_ring_slots_distinct(self.tail as int, j, new_count as int, QUEUE_SIZE as int);
                    }
                    assert forall|j: int| k < j < n implies #[trigger] self.queue@[(self.tail + j)
                        % (QUEUE_SIZE as int)] == q0[(self.tail + j) % (QUEUE_SIZE as int)] by {
                        lemma_ring_slots_distinct(self.tail as int, j, new_count as int, QUEUE_SIZE as int);
                    }
                }
                write_ptr = (write_ptr + 1) % QUEUE_SIZE;
                new_count += 1;
            }
            read_ptr = (read_ptr + 1) % QUEUE_SIZE;
            k += 1;
        }
        proof {
            assert(s.take(n as int) =~= s);
        }
        self.head = write_ptr;
        self.count = new_count;
        proof {
            assert(self@ =~= split_events(s, window_id, max_events as nat).1);
        }
        result
    }

    /// Empties the queue.
    pub fn reset_queue(&mut self)
        ensures
            final(self).wf(),
            final(self)@ == Seq::<Event>::empty(),
            final(self).head == 0 && final(self).tail == 0 && final(self).count == 0,
    {
        self.head = 0;
        self.tail = 0;
        self.count = 0;
        proof {
            assert(self@ =~= Seq::<Event>::empty());
        }
    }
}

} // verus!
