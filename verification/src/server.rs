//! The connection handler's decisions and the listener's lifecycle.
//!
//! A handler reads one frame, decodes it and routes the message: text goes to
//! the log sink, file and image payloads go to their stores. All of that is
//! decided here; the I/O driver only carries the decisions out. The
//! coordinator tracks the accept loop's phase and the handlers still in
//! flight, so that a shutdown stops accepting first and ends only once every
//! handler has finished.
use crate::wire::{decode, spec_decode, Message, MessageView, WireError};
use vstd::prelude::*;

verus! {

/// What the server does with one decoded message.
#[derive(Debug, PartialEq, Eq)]
pub enum Dispatch {
    /// Print and log the text; nothing touches the filesystem.
    LogText(String),
    /// Hand the payload to the file store under this name.
    StoreFile(String, Vec<u8>),
    /// Hand the payload to the image store under this name.
    StoreImage(String, Vec<u8>),
}

/// The mathematical shape of a [`Dispatch`].
pub enum DispatchView {
    LogText(Seq<char>),
    StoreFile(Seq<char>, Seq<u8>),
    StoreImage(Seq<char>, Seq<u8>),
}

impl View for Dispatch {
    type V = DispatchView;

    open spec fn view(&self) -> DispatchView {
        match self {
            Dispatch::LogText(text) => DispatchView::LogText(text@),
            Dispatch::StoreFile(name, data) => DispatchView::StoreFile(name@, data@),
            Dispatch::StoreImage(name, data) => DispatchView::StoreImage(name@, data@),
        }
    }
}

/// Where each message variant is routed.
pub open spec fn spec_route(m: MessageView) -> DispatchView {
    match m {
        MessageView::File(name, data) => DispatchView::StoreFile(name, data),
        MessageView::Image(name, data) => DispatchView::StoreImage(name, data),
        MessageView::Text(text) => DispatchView::LogText(text),
    }
}

/// Routes one decoded message: text to the log sink only, file payloads to
/// the file store, image payloads to the image store.
pub fn process_message(message: Message) -> (d: Dispatch)
    ensures
        d@ == spec_route(message@),
{
    match message {
        Message::File(name, data) => Dispatch::StoreFile(name, data),
        Message::Image(name, data) => Dispatch::StoreImage(name, data),
        Message::Text(text) => Dispatch::LogText(text),
    }
}

/// What one frame payload leads to: the routed message, or a decode failure
/// and nothing persisted.
pub open spec fn spec_handle_payload(b: Seq<u8>) -> Option<DispatchView> {
    match spec_decode(b) {
        Some(m) => Some(spec_route(m)),
        None => None,
    }
}

/// Decodes one frame payload and routes the message. Fails exactly on the
/// payloads that decode rejects, and then dispatches nothing.
pub fn handle_payload(payload: &[u8]) -> (r: Result<Dispatch, WireError>)
    ensures
        r matches Ok(d) ==> spec_handle_payload(payload@) == Some(d@),
        r is Err <==> spec_handle_payload(payload@) is None,
        r matches Err(e) ==> e == WireError::DecodeFailed,
{
    let message = decode(payload)?;
    Ok(process_message(message))
}

/// The accept loop's phase.
#[derive(Debug, PartialEq, Eq, Clone, Copy)]
pub enum ListenerPhase {
    /// Accepting connections and spawning a handler for each.
    Accepting,
    /// Shutdown was requested: no new connections, handlers still running.
    Draining,
    /// No new connections and no handler left in flight.
    Stopped,
}

/// Tracks the accept loop's phase and the handlers still in flight.
pub struct Coordinator {
    pub phase: ListenerPhase,
    pub in_flight: u64,
}

/// A stopped coordinator has nothing in flight; a draining one still does.
pub open spec fn coordinator_wf(c: Coordinator) -> bool {
    &&& (c.phase == ListenerPhase::Stopped ==> c.in_flight == 0)
    &&& (c.phase == ListenerPhase::Draining ==> c.in_flight > 0)
}

/// The coordinator after a connection is accepted and its handler spawned.
pub open spec fn spec_after_accept(c: Coordinator) -> Coordinator {
    Coordinator { phase: c.phase, in_flight: (c.in_flight + 1) as u64 }
}

/// The coordinator after the shutdown signal: it stops accepting, and is done
/// outright when no handler is left to wait for.
pub open spec fn spec_after_shutdown(c: Coordinator) -> Coordinator {
    if c.in_flight == 0 {
        Coordinator { phase: ListenerPhase::Stopped, in_flight: 0 }
    } else {
        Coordinator { phase: ListenerPhase::Draining, in_flight: c.in_flight }
    }
}

/// The coordinator after one handler finishes, however its connection went:
/// the count drops, and a draining listener stops once it reaches zero.
pub open spec fn spec_after_handler_done(c: Coordinator) -> Coordinator {
    let left = (c.in_flight - 1) as u64;
    if c.phase == ListenerPhase::Draining && left == 0 {
        Coordinator { phase: ListenerPhase::Stopped, in_flight: 0 }
    } else {
        Coordinator { phase: c.phase, in_flight: left }
    }
}

impl Coordinator {
    /// A fresh listener: accepting, nothing in flight.
    pub fn new() -> (r: Self)
        ensures
            r.phase == ListenerPhase::Accepting,
            r.in_flight == 0,
            coordinator_wf(r),
    {
        Coordinator { phase: ListenerPhase::Accepting, in_flight: 0 }
    }

    /// Records an accepted connection whose handler was spawned.
    pub fn on_accept(&mut self)
        requires
            old(self).phase == ListenerPhase::Accepting,
            coordinator_wf(*old(self)),
            old(self).in_flight < u64::MAX,
        ensures
            *final(self) == spec_after_accept(*old(self)),
            final(self).phase == ListenerPhase::Accepting,
            coordinator_wf(*final(self)),
    {
        self.in_flight = self.in_flight + 1;
    }

    /// Records the shutdown signal: stop accepting, drain what is running.
    pub fn on_shutdown(&mut self)
        requires
            old(self).phase == ListenerPhase::Accepting,
            coordinator_wf(*old(self)),
        ensures
            *final(self) == spec_after_shutdown(*old(self)),
            coordinator_wf(*final(self)),
    {
        if self.in_flight == 0 {
            self.phase = ListenerPhase::Stopped;
        } else {
            self.phase = ListenerPhase::Draining;
        }
    }

    /// Records that one handler finished, whether it persisted a payload,
    /// logged a text, or gave up on a bad frame.
    pub fn on_handler_done(&mut self)
        requires
            old(self).in_flight > 0,
            coordinator_wf(*old(self)),
        ensures
            *final(self) == spec_after_handler_done(*old(self)),
            coordinator_wf(*final(self)),
            old(self).phase == ListenerPhase::Accepting ==> final(self).phase
                == ListenerPhase::Accepting,
    {
        self.in_flight = self.in_flight - 1;
        if matches!(self.phase, ListenerPhase::Draining) && self.in_flight == 0 {
            self.phase = ListenerPhase::Stopped;
        }
    }
}

/// File integrity: a frame that encodes a named payload is decoded and routed
/// to the right store with the name and the bytes exactly as they were sent —
/// nothing is dropped, added or reordered on the way to the write.
pub proof fn lemma_payload_reaches_store_intact(name: Seq<char>, data: Seq<u8>)
    requires
        crate::wire::wf_message(MessageView::File(name, data)),
        crate::wire::wf_message(MessageView::Image(name, data)),
    ensures
        spec_handle_payload(crate::wire::spec_encode(MessageView::File(name, data))) == Some(
            DispatchView::StoreFile(name, data),
        ),
        spec_handle_payload(crate::wire::spec_encode(MessageView::Image(name, data))) == Some(
            DispatchView::StoreImage(name, data),
        ),
{
    crate::wire::lemma_encode_decode_round_trip(MessageView::File(name, data));
    crate::wire::lemma_encode_decode_round_trip(MessageView::Image(name, data));
}

/// A frame that encodes a text message is routed to the log sink and nowhere
/// else: the handler never touches a store for it.
pub proof fn lemma_text_reaches_log_only(text: Seq<char>)
    requires
        crate::wire::wf_message(MessageView::Text(text)),
    ensures
        spec_handle_payload(crate::wire::spec_encode(MessageView::Text(text))) == Some(
            DispatchView::LogText(text),
        ),
{
    crate::wire::lemma_encode_decode_round_trip(MessageView::Text(text));
}

/// Resilience: one malformed frame neither stops the listener nor taints the
/// next connection. The bad payload dispatches nothing, the handler's end
/// leaves the listener accepting, and a later well-formed payload is still
/// decoded and routed exactly.
pub proof fn lemma_malformed_frame_is_isolated(c: Coordinator, bad: Seq<u8>, m: MessageView)
    requires
        coordinator_wf(c),
        c.phase == ListenerPhase::Accepting,
        c.in_flight < u64::MAX,
        spec_decode(bad) is None,
        crate::wire::wf_message(m),
    ensures
        spec_handle_payload(bad) is None,
        spec_after_handler_done(spec_after_accept(c)).phase == ListenerPhase::Accepting,
        spec_handle_payload(crate::wire::spec_encode(m)) == Some(spec_route(m)),
{
    crate::wire::lemma_encode_decode_round_trip(m);
}

} // verus!
