//! In-process event bus: one producer, one subscriber, in-order,
//! at-most-once delivery.
//!
//! The bus decouples frame arrival from frame processing: the connection
//! side publishes each received text frame, and the reconciler takes frames
//! one at a time, in publication order.

use vstd::prelude::*;

verus! {

/// A first-in-first-out queue of pending text frames.
pub struct EventBus {
    pending: Vec<String>,
}

impl EventBus {
    /// The frames published and not yet taken, oldest first.
    pub closed spec fn view(&self) -> Seq<Seq<char>> {
        self.pending.deep_view()
    }

    /// Creates an empty bus.
    pub fn new() -> (r: EventBus)
        ensures
            r@ == Seq::<Seq<char>>::empty(),
    {
        EventBus { pending: Vec::new() }
    }

    /// Publishes one frame behind all frames already pending.
    pub fn publish(&mut self, frame: String)
        ensures
            final(self)@ == old(self)@.push(frame@),
    {
        let ghost prior = self.pending.deep_view();
        self.pending.push(frame);
        assert(self.pending.deep_view() =~= prior.push(frame@));
    }

    /// Takes the oldest pending frame, if any: delivery is in publication
    /// order and each frame is delivered at most once.
    pub fn take(&mut self) -> (r: Option<String>)
        ensures
            match r {
                Some(frame) => old(self)@.len() > 0 && frame@ == old(self)@[0] && final(self)@
                    == old(self)@.drop_first(),
                None => old(self)@.len() == 0 && final(self)@ == old(self)@,
            },
    {
        if self.pending.len() == 0 {
            None
        } else {
            let ghost prior = self.pending.deep_view();
            let frame = self.pending.remove(0);
            assert(self.pending.deep_view() =~= prior.drop_first());
            Some(frame)
        }
    }
}

} // verus!
