//! Application events and the queue the presentation layer drains.

use vstd::prelude::*;

verus! {

/// What the store and the network layer report upward.
#[derive(Debug)]
pub enum AppEvent {
    Error(String),
    Sent(String),
    Received(String),
}

impl Clone for AppEvent {
    fn clone(&self) -> (res: Self)
        ensures
            res == *self,
    {
        match self {
            AppEvent::Error(t) => AppEvent::Error(t.clone()),
            AppEvent::Sent(t) => AppEvent::Sent(t.clone()),
            AppEvent::Received(t) => AppEvent::Received(t.clone()),
        }
    }
}

pub trait ModelObserver {
    fn on_event(&mut self, event: AppEvent);
}

/// A FIFO of events plus the flag with which the queue asks the
/// presentation layer for a redraw.
pub struct EventHandler {
    pub events: Vec<AppEvent>,
    pub repaint_requested: bool,
}

impl EventHandler {
    pub fn new() -> (r: EventHandler)
        ensures
            r.events@.len() == 0,
            !r.repaint_requested,
    {
        EventHandler { events: Vec::new(), repaint_requested: false }
    }

    /// Enqueue an event; a received message additionally requests a
    /// redraw.
    pub fn push_event(&mut self, event: AppEvent)
        ensures
            final(self).events@ == old(self).events@.push(event),
            final(self).repaint_requested == (old(self).repaint_requested
                || event is Received),
    {
        if let AppEvent::Received(_) = &event {
            self.repaint_requested = true;
        }
        self.events.push(event);
    }

    /// Dequeue the oldest event.
    pub fn pop_event(&mut self) -> (r: Option<AppEvent>)
        ensures
            old(self).events@.len() == 0 ==> r is None && final(self).events == old(self).events,
            old(self).events@.len() > 0 ==> r == Some(old(self).events@[0]) && final(self).events@
                == old(self).events@.drop_first(),
            final(self).repaint_requested == old(self).repaint_requested,
    {
        if self.events.len() == 0 {
            None
        } else {
            let ev = self.events.remove(0);
            proof {
                assert(old(self).events@.remove(0) =~= old(self).events@.drop_first());
            }
            Some(ev)
        }
    }
}

impl ModelObserver for EventHandler {
    /// The observer interface enqueues like `push_event`: the event
    /// goes to the back, and a received message requests a redraw.
    fn on_event(&mut self, event: AppEvent)
        ensures
            final(self).events@ == old(self).events@.push(event),
            final(self).repaint_requested == (old(self).repaint_requested || event is Received),
    {
        self.push_event(event);
    }
}

} // verus!
