//! Decision logic of the link owner task.
//!
//! One task owns the serial device exclusively and repeatedly waits for the
//! first of three events: a shutdown request, a dequeued outgoing frame, or
//! bytes read from the device. What the task decides at each wake-up is pure
//! and lives here; the waiting, the device I/O and the channels stay with
//! the caller, which performs the returned action and hands back the next
//! event.

use crate::codec::ChecksumMismatch;
use crate::codec::Decoder;
use crate::codec::DecoderModel;
use crate::codec::run_diags;
use crate::codec::run_outputs;
use crate::codec::run_state;
use vstd::prelude::*;

verus! {

/// What the owner task's three-way wait woke up with.
#[derive(Debug)]
pub enum LinkEvent {
    /// The shutdown token was received.
    Shutdown,
    /// A frame was dequeued from the outgoing queue.
    Outgoing(Vec<u8>),
    /// A read delivered raw bytes from the device.
    Received(Vec<u8>),
    /// A read timed out — routine whenever the link is idle, never an error.
    ReadTimedOut,
    /// A read or write failed with a hard I/O error other than a timeout.
    IoFailed,
}

/// What the owner task must do before waiting again.
#[derive(Debug)]
pub enum LinkAction {
    /// Deassert the readiness control line and leave the loop for good.
    Stop,
    /// Write these bytes to the device in full.
    Write(Vec<u8>),
    /// Hand each completed payload to the feedback codec and publish the
    /// result on the fan-out channel; log each checksum diagnostic.
    Publish(Vec<Vec<u8>>, Vec<ChecksumMismatch>),
    /// Nothing to do; wait for the next event.
    Continue,
}

/// The owner task's state between wake-ups: whether it is still running,
/// and the decoder that persists across arbitrarily chunked reads.
#[derive(Debug)]
pub struct LinkEngine {
    running: bool,
    decoder: Decoder,
}

impl LinkEngine {
    /// Whether the engine has seen a shutdown request yet.
    pub closed spec fn running(&self) -> bool {
        self.running
    }

    /// The model state of the frame decoder the engine drives.
    pub closed spec fn decoder_model(&self) -> DecoderModel {
        self.decoder.model()
    }

    /// The decoder stays within the transition function's bounds.
    pub closed spec fn inv(&self) -> bool {
        self.decoder.inv()
    }

    /// A fresh engine: running, decoder waiting for the first header byte.
    pub fn new() -> (engine: LinkEngine)
        ensures
            engine.inv(),
            engine.running(),
            engine.decoder_model() == DecoderModel::Idle,
    {
        LinkEngine { running: true, decoder: Decoder::new() }
    }

    /// Decide what the current wake-up demands.
    ///
    /// A shutdown request stops the task, once and for all. A dequeued frame
    /// is written out unchanged, in the order the queue delivered it. Read
    /// bytes run through the decoder, and whatever frames they complete are
    /// published with whatever diagnostics they raised. Timeouts and hard
    /// I/O errors change nothing: the loop is best-effort and keeps going.
    pub fn on_event(&mut self, event: LinkEvent) -> (action: LinkAction)
        requires
            old(self).inv(),
        ensures
            final(self).inv(),
            final(self).running() == (old(self).running() && !(event is Shutdown)),
            event is Shutdown ==> ({
                &&& action is Stop
                &&& final(self).decoder_model() == old(self).decoder_model()
            }),
            event matches LinkEvent::Outgoing(frame) ==> ({
                &&& action matches LinkAction::Write(w)
                &&& w@ == frame@
                &&& final(self).decoder_model() == old(self).decoder_model()
            }),
            event matches LinkEvent::Received(bytes) ==> ({
                &&& action matches LinkAction::Publish(payloads, diags)
                &&& payloads.deep_view() == run_outputs(old(self).decoder_model(), bytes@)
                &&& diags.deep_view() == run_diags(old(self).decoder_model(), bytes@)
                &&& final(self).decoder_model() == run_state(old(self).decoder_model(), bytes@)
            }),
            (event is ReadTimedOut || event is IoFailed) ==> ({
                &&& action is Continue
                &&& final(self).decoder_model() == old(self).decoder_model()
            }),
    {
        match event {
            LinkEvent::Shutdown => {
                self.running = false;
                LinkAction::Stop
            },
            LinkEvent::Outgoing(frame) => LinkAction::Write(frame),
            LinkEvent::Received(bytes) => {
                let (payloads, diags) = self.decoder.feed(bytes.as_slice());
                LinkAction::Publish(payloads, diags)
            },
            LinkEvent::ReadTimedOut => LinkAction::Continue,
            LinkEvent::IoFailed => LinkAction::Continue,
        }
    }
}

} // verus!
