use vstd::prelude::*;

verus! {

/// The pending events of an [`Events`] queue: those sent in the previous
/// frame and those sent in the current one.
pub struct EventBuffers<T> {
    pub previous: Seq<T>,
    pub current: Seq<T>,
}

/// The buffers after an event is sent: it joins the current frame's events.
pub open spec fn sent<T>(b: EventBuffers<T>, event: T) -> EventBuffers<T> {
    EventBuffers { previous: b.previous, current: b.current.push(event) }
}

/// The buffers after a frame ends: the current events become the previous
/// ones and the old previous ones are dropped.
pub open spec fn updated<T>(b: EventBuffers<T>) -> EventBuffers<T> {
    EventBuffers { previous: b.current, current: Seq::empty() }
}

/// The pending events in the order they are read: previous frame first.
pub open spec fn pending<T>(b: EventBuffers<T>) -> Seq<T> {
    b.previous + b.current
}

/// Internal storage for events of type T.
///
/// Uses double buffering to ensure events last for 2 frames.
pub struct Events<T: 'static + Send + Sync> {
    buffer_a: Vec<T>,
    buffer_b: Vec<T>,
    current_buffer: usize,
}

impl<T: 'static + Send + Sync> View for Events<T> {
    type V = EventBuffers<T>;

    closed spec fn view(&self) -> EventBuffers<T> {
        if self.current_buffer == 0 {
            EventBuffers { previous: self.buffer_b@, current: self.buffer_a@ }
        } else {
            EventBuffers { previous: self.buffer_a@, current: self.buffer_b@ }
        }
    }
}

impl<T: 'static + Send + Sync> Events<T> {
    /// The queue's invariant: the current buffer is one of the two.
    pub closed spec fn wf(&self) -> bool {
        self.current_buffer < 2
    }

    /// Creates a new event queue.
    pub fn new() -> (r: Self)
        ensures
            r.wf(),
            r@.previous == Seq::<T>::empty(),
            r@.current == Seq::<T>::empty(),
    {
        Events { buffer_a: Vec::with_capacity(128), buffer_b: Vec::with_capacity(128), current_buffer: 0 }
    }

    /// Swaps the buffers and clears the old write buffer.
    /// Should be called once per frame.
    pub fn update(&mut self)
        requires
            old(self).wf(),
        ensures
            final(self).wf(),
            final(self)@ == updated(old(self)@),
            final(self)@.previous == old(self)@.current,
            final(self)@.current == Seq::<T>::empty(),
    {
        let next_buffer = (self.current_buffer + 1) % 2;
        if next_buffer == 0 {
            self.buffer_a.clear();
        } else {
            self.buffer_b.clear();
        }
        self.current_buffer = next_buffer;
        assert(self@.current =~= Seq::<T>::empty());
    }

    /// Sends an event into the current buffer.
    pub fn send(&mut self, event: T)
        requires
            old(self).wf(),
        ensures
            final(self).wf(),
            final(self)@ == sent(old(self)@, event),
            final(self)@.previous == old(self)@.previous,
            final(self)@.current == old(self)@.current.push(event),
    {
        if self.current_buffer == 0 {
            self.buffer_a.push(event);
        } else {
            self.buffer_b.push(event);
        }
    }

    /// Returns all pending events (both buffers), previous frame first.
    pub fn iter(&self) -> (r: Vec<&T>)
        requires
            self.wf(),
        ensures
            r@.map_values(|e: &T| *e) == pending(self@),
    {
        let (first, second) = if self.current_buffer == 0 {
            (&self.buffer_b, &self.buffer_a)
        } else {
            (&self.buffer_a, &self.buffer_b)
        };
        let mut r: Vec<&T> = Vec::new();
        let mut i: usize = 0;
        while i < first.len()
            invariant
                i <= first@.len(),
                r@.map_values(|e: &T| *e) == first@.subrange(0, i as int),
            decreases first@.len() - i,
        {
            let ghost before = r@.map_values(|e: &T| *e);
            r.push(&first[i]);
            assert(r@.map_values(|e: &T| *e) =~= before.push(first@[i as int]));
            assert(first@.subrange(0, i + 1) =~= first@.subrange(0, i as int).push(first@[i as int]));
            i = i + 1;
        }
        let mut j: usize = 0;
        while j < second.len()
            invariant
                i == first@.len(),
                j <= second@.len(),
                r@.map_values(|e: &T| *e) == first@ + second@.subrange(0, j as int),
            decreases second@.len() - j,
        {
            let ghost before = r@.map_values(|e: &T| *e);
            r.push(&second[j]);
            assert(r@.map_values(|e: &T| *e) =~= before.push(second@[j as int]));
            assert(first@ + second@.subrange(0, j + 1) =~= (first@ + second@.subrange(0, j as int)).push(second@[j as int]));
            j = j + 1;
        }
        assert(first@.subrange(0, i as int) =~= first@);
        assert(second@.subrange(0, j as int) =~= second@);
        r
    }
}

/// Reader for events of type T.
///
/// Keeps track of its own read position, allowing multiple readers to consume
/// the same events independently.
pub struct EventReader<'a, T: 'static + Send + Sync> {
    events: &'a Events<T>,
    _last_read_id: usize,
}

impl<'a, T: 'static + Send + Sync> EventReader<'a, T> {
    /// The queue this reader reads.
    pub closed spec fn source(&self) -> Events<T> {
        *self.events
    }

    /// Creates a new event reader.
    pub fn new(events: &'a Events<T>) -> (r: Self)
        ensures
            r.source() == *events,
    {
        EventReader { events, _last_read_id: 0 }
    }

    /// Returns all pending events of the queue, previous frame first.
    pub fn iter(&mut self) -> (r: Vec<&T>)
        requires
            old(self).source().wf(),
        ensures
            final(self).source() == old(self).source(),
            r@.map_values(|e: &T| *e) == pending(old(self).source()@),
    {
        self.events.iter()
    }
}

/// An event sent in one frame is still read in the next, and is gone after
/// the frame after that.
pub proof fn law_events_last_two_frames<T>(b: EventBuffers<T>, event: T)
    ensures
        pending(sent(b, event)).contains(event),
        pending(updated(sent(b, event))).contains(event),
        pending(updated(updated(sent(b, event)))) == Seq::<T>::empty(),
{
    let s = sent(b, event);
    assert(pending(s)[pending(s).len() - 1] == event);
    let u = updated(s);
    assert(pending(u)[pending(u).len() - 1] == event);
    assert(pending(updated(u)) =~= Seq::<T>::empty());
}

/// Events are read in the order they were sent: after a frame ends, what was
/// pending from the current frame is read, followed by what is sent next.
pub proof fn law_events_read_in_order<T>(b: EventBuffers<T>, e1: T, e2: T)
    ensures
        pending(sent(sent(b, e1), e2)) == pending(b).push(e1).push(e2),
        pending(sent(updated(b), e1)) == b.current.push(e1),
{
    assert(pending(sent(sent(b, e1), e2)) =~= pending(b).push(e1).push(e2));
    assert(pending(sent(updated(b), e1)) =~= b.current.push(e1));
}

/// The buffers after the events `es` are sent, in order.
pub open spec fn sent_all<T>(b: EventBuffers<T>, es: Seq<T>) -> EventBuffers<T>
    decreases es.len(),
{
    if es.len() == 0 {
        b
    } else {
        sent(sent_all(b, es.drop_last()), es.last())
    }
}

/// Sending an event leaves the previous frame's events alone and appends
/// the event to the current frame's, however many were sent before.
pub proof fn law_send_appends<T>(b: EventBuffers<T>, event: T)
    ensures
        sent(b, event).previous == b.previous,
        sent(b, event).current == b.current.push(event),
        pending(sent(b, event)) == pending(b).push(event),
{
    assert(pending(sent(b, event)) =~= pending(b).push(event));
}

/// Ending a frame makes exactly the events of that frame the previous ones,
/// and starts an empty frame.
pub proof fn law_update_shifts<T>(b: EventBuffers<T>)
    ensures
        updated(b).previous == b.current,
        updated(b).current == Seq::<T>::empty(),
        pending(updated(b)) == b.current,
{
    assert(pending(updated(b)) =~= b.current);
}

/// Every event sent in a frame is still pending after one update, whatever
/// else was sent in that frame, in the order sent; events already pending
/// stay pending until then.
pub proof fn law_frame_events_survive_update<T>(b: EventBuffers<T>, es: Seq<T>)
    ensures
        sent_all(b, es).previous == b.previous,
        sent_all(b, es).current == b.current + es,
        pending(sent_all(b, es)) == pending(b) + es,
        updated(sent_all(b, es)).previous == b.current + es,
        pending(updated(sent_all(b, es))) == b.current + es,
        forall|i: int| 0 <= i < es.len() ==> pending(updated(sent_all(b, es))).contains(#[trigger] es[i]),
    decreases es.len(),
{
    if es.len() == 0 {
        assert(b.current + es =~= b.current);
        assert(pending(b) + es =~= pending(b));
    } else {
        let pre = es.drop_last();
        law_frame_events_survive_update(b, pre);
        law_send_appends(sent_all(b, pre), es.last());
        assert(b.current + es =~= (b.current + pre).push(es.last()));
        assert(pending(b) + es =~= (pending(b) + pre).push(es.last()));
    }
    law_update_shifts(sent_all(b, es));
    assert forall|i: int| 0 <= i < es.len() implies pending(updated(sent_all(b, es))).contains(#[trigger] es[i]) by {
        assert((b.current + es)[b.current.len() + i] == es[i]);
    }
}

} // verus!
