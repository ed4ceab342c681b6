//! The receiving end of a thread's event queue.
//!
//! A thread publishes its events in batches. What it holds back until its
//! batch is full can still be fetched from here.
use std::collections::VecDeque;
use vstd::prelude::*;

verus! {

#[derive(Debug)]
pub struct Receiver<T> {
    ready: VecDeque<T>,
    held: VecDeque<T>,
}

/// The contents of a queue: what the thread published, and what it holds back.
#[verifier::ext_equal]
pub struct QueueView<T> {
    pub ready: Seq<T>,
    pub held: Seq<T>,
}

impl<T> View for Receiver<T> {
    type V = QueueView<T>;

    closed spec fn view(&self) -> QueueView<T> {
        QueueView { ready: self.ready@, held: self.held@ }
    }
}

impl<T> QueueView<T> {
    /// The thread added a message to its batch.
    pub open spec fn holding(self, msg: T) -> QueueView<T> {
        QueueView { held: self.held.push(msg), ..self }
    }

    /// The next published message was taken out.
    pub open spec fn without_next(self) -> QueueView<T> {
        QueueView { ready: self.ready.skip(1), ..self }
    }

    pub open spec fn fetched(self) -> QueueView<T> {
        QueueView { ready: self.ready + self.held, held: Seq::empty() }
    }
}

impl<T> Receiver<T> {
    pub fn new() -> (r: Receiver<T>)
        ensures
            r@ == (QueueView::<T> { ready: Seq::empty(), held: Seq::empty() }),
    {
        Receiver { ready: VecDeque::new(), held: VecDeque::new() }
    }

    /// The thread adds an event to its batch.
    pub fn hold(&mut self, msg: T)
        ensures
            final(self)@ == old(self)@.holding(msg),
    {
        self.held.push_back(msg);
    }

    /// Takes over what the thread has not published yet.
    pub fn try_fetch_from_sender(&mut self)
        ensures
            final(self)@ == old(self)@.fetched(),
    {
        self.ready.append(&mut self.held);
    }

    /// The next published event.
    pub fn recv(&mut self) -> (r: Option<T>)
        ensures
            old(self)@.ready.len() == 0 ==> r is None && final(self)@ == old(self)@,
            old(self)@.ready.len() > 0 ==> r == Some(old(self)@.ready[0]) && final(self)@
                == old(self)@.without_next(),
    {
        self.ready.pop_front()
    }
}

} // verus!
