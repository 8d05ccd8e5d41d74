//! The single-slot hand-off between the capture callback and the renderer.

use vstd::prelude::*;

verus! {

/// What the capture callback tells the audio stream after a push.
#[derive(Clone, Copy, PartialEq, Eq, Structural, Debug)]
pub enum StreamSignal {
    /// Keep capturing.
    Continue,
    /// Stop capturing.
    Complete,
}

/// What the renderer finds when it asks for a frame.
#[derive(Debug)]
pub enum Received {
    /// The frame that was waiting.
    Frame(Vec<i16>),
    /// No frame yet; capture is still running.
    Empty,
    /// No frame, and capture has stopped: none will come.
    Disconnected,
}

/// A hand-off that holds at most one frame. A frame that arrives while the
/// slot is taken is dropped, and capture ends.
pub struct AudioCaptureChannel {
    slot: Option<Vec<i16>>,
    open: bool,
}

impl AudioCaptureChannel {
    /// The samples of the waiting frame, if one waits.
    pub closed spec fn pending(&self) -> Option<Seq<i16>> {
        match self.slot {
            Some(frame) => Some(frame@),
            None => None,
        }
    }

    /// Whether capture is still running.
    pub closed spec fn is_open(&self) -> bool {
        self.open
    }

    /// An empty hand-off with capture running.
    pub fn new() -> (channel: Self)
        ensures
            channel.pending() is None,
            channel.is_open(),
    {
        AudioCaptureChannel { slot: None, open: true }
    }

    /// Offers a frame without waiting. It is taken if capture is running and
    /// the slot is free. Otherwise the frame is dropped, the slot keeps what it
    /// held, and capture is over from then on.
    pub fn push(&mut self, frame: Vec<i16>) -> (signal: StreamSignal)
        ensures
            old(self).is_open() && old(self).pending() is None ==> {
                &&& signal == StreamSignal::Continue
                &&& final(self).is_open()
                &&& final(self).pending() == Some(frame@)
            },
            !(old(self).is_open() && old(self).pending() is None) ==> {
                &&& signal == StreamSignal::Complete
                &&& !final(self).is_open()
                &&& final(self).pending() == old(self).pending()
            },
    {
        if self.open && self.slot.is_none() {
            self.slot = Some(frame);
            StreamSignal::Continue
        } else {
            self.open = false;
            StreamSignal::Complete
        }
    }

    /// Ends capture from the producer's side. A frame that waits stays.
    pub fn disconnect(&mut self)
        ensures
            !final(self).is_open(),
            final(self).pending() == old(self).pending(),
    {
        self.open = false;
    }

    /// Takes the waiting frame, if one waits, and frees the slot. With no frame
    /// waiting it says whether one may still come.
    pub fn try_recv(&mut self) -> (received: Received)
        ensures
            final(self).pending() is None,
            final(self).is_open() == old(self).is_open(),
            match old(self).pending() {
                Some(samples) => received matches Received::Frame(frame) && frame@ == samples,
                None => if old(self).is_open() {
                    received is Empty
                } else {
                    received is Disconnected
                },
            },
    {
        let taken = self.slot.take();
        match taken {
            Some(frame) => Received::Frame(frame),
            None => if self.open {
                Received::Empty
            } else {
                Received::Disconnected
            },
        }
    }
}

} // verus!
