//! The orchestrator's state machine. Each incoming event takes two
//! independent paths: it is pushed into the batch buffer for the durable
//! sink, and it is formatted for the auxiliary sinks. An auxiliary
//! failure is only counted — the contracts show it touches neither the
//! buffered events nor the machine's ability to accept more.
use vstd::prelude::*;

use crate::buffer::BatchBuffer;
use crate::chat::ChatMessage;
use crate::chat::ChatMessageView;
use crate::chat_message_format::spec_format;
use crate::chat_message_format::ChatMessageFormat;

verus! {

/// The lifetime of the pipeline.
#[derive(Debug, Clone, Copy, PartialEq, Eq, Structural)]
pub enum HandlerState {
    /// Credentials, source and sinks are being set up.
    Starting,
    /// Events flow: buffered for the durable sink, fanned out to the
    /// auxiliary sinks.
    Running,
    /// No new events are admitted; the last window is flushed.
    Draining,
    /// Terminal.
    Stopped,
}

/// The event pump: owns the batch buffer and the per-sink styles.
pub struct MessageHandler {
    state: HandlerState,
    buffer: BatchBuffer,
    console_style: ChatMessageFormat,
    file_style: ChatMessageFormat,
    aux_failures: u64,
}

impl MessageHandler {
    pub closed spec fn state_spec(&self) -> HandlerState {
        self.state
    }

    /// The batch buffer as it stands.
    pub closed spec fn buffer_spec(&self) -> BatchBuffer {
        self.buffer
    }

    /// How many auxiliary sink failures were noted.
    pub closed spec fn aux_failures_spec(&self) -> u64 {
        self.aux_failures
    }

    pub closed spec fn console_style_spec(&self) -> ChatMessageFormat {
        self.console_style
    }

    pub closed spec fn file_style_spec(&self) -> ChatMessageFormat {
        self.file_style
    }

    pub open spec fn wf(&self) -> bool {
        self.buffer_spec().wf()
    }

    /// A handler whose first flush window starts now; the plain style
    /// feeds the console, the structured style feeds the file.
    pub fn new(interval_ms: u64, now_ms: u64) -> (r: Self)
        requires
            1 <= interval_ms,
            now_ms + interval_ms <= u64::MAX,
        ensures
            r.wf(),
            r.state_spec() is Starting,
            r.buffer_spec().pending() == Seq::<ChatMessageView>::empty(),
            r.buffer_spec().pushed() == Seq::<ChatMessageView>::empty(),
            r.buffer_spec().emitted() == Seq::<Seq<ChatMessageView>>::empty(),
            r.buffer_spec().interval_spec() == interval_ms,
            r.buffer_spec().next_flush_spec() == now_ms + interval_ms,
            r.console_style_spec() is Simple,
            r.file_style_spec() is Json,
            r.aux_failures_spec() == 0,
    {
        MessageHandler {
            state: HandlerState::Starting,
            buffer: BatchBuffer::new(interval_ms, now_ms),
            console_style: ChatMessageFormat::Simple,
            file_style: ChatMessageFormat::Json,
            aux_failures: 0,
        }
    }

    /// Setup is done: begin accepting events.
    pub fn start(&mut self)
        requires
            old(self).state_spec() is Starting,
    ensures
            final(self).state_spec() is Running,
            final(self).buffer_spec() == old(self).buffer_spec(),
            final(self).aux_failures_spec() == old(self).aux_failures_spec(),
            final(self).console_style_spec() == old(self).console_style_spec(),
            final(self).file_style_spec() == old(self).file_style_spec(),
    {
        self.state = HandlerState::Running;
    }

    /// One event arrives: admit it to the batch path and hand back the
    /// two formatted lines for the auxiliary sinks. The two paths are
    /// independent — what the auxiliary sinks later do with the lines
    /// cannot reach the buffer.
    pub fn handle_event(&mut self, m: ChatMessage) -> (r: (String, String))
        requires
            old(self).wf(),
            old(self).state_spec() is Running,
        ensures
            final(self).wf(),
            final(self).state_spec() is Running,
            final(self).buffer_spec().pushed() == old(self).buffer_spec().pushed().push(m@),
            final(self).buffer_spec().pending() == old(self).buffer_spec().pending().push(m@),
            final(self).buffer_spec().emitted() == old(self).buffer_spec().emitted(),
            final(self).buffer_spec().flush_times() == old(self).buffer_spec().flush_times(),
            final(self).buffer_spec().interval_spec() == old(self).buffer_spec().interval_spec(),
            final(self).buffer_spec().next_flush_spec() == old(
                self,
            ).buffer_spec().next_flush_spec(),
            final(self).aux_failures_spec() == old(self).aux_failures_spec(),
            r.0@ == spec_format(m@, old(self).console_style_spec()),
            r.1@ == spec_format(m@, old(self).file_style_spec()),
            final(self).console_style_spec() == old(self).console_style_spec(),
            final(self).file_style_spec() == old(self).file_style_spec(),
    {
        let console_line = self.console_style.format(&m);
        let file_line = self.file_style.format(&m);
        self.buffer.push(m);
        (console_line, file_line)
    }

    /// An auxiliary sink reported a failure: count it and go on. The
    /// buffer, the state and the styles stand exactly as they were, so
    /// later events reach the durable sink as if nothing had happened.
    pub fn note_aux_failure(&mut self)
        ensures
            final(self).state_spec() == old(self).state_spec(),
            final(self).buffer_spec() == old(self).buffer_spec(),
            final(self).console_style_spec() == old(self).console_style_spec(),
            final(self).file_style_spec() == old(self).file_style_spec(),
            final(self).aux_failures_spec() == if old(self).aux_failures_spec() == u64::MAX {
                u64::MAX
            } else {
                (old(self).aux_failures_spec() + 1) as u64
            },
    {
        if self.aux_failures < u64::MAX {
            self.aux_failures = self.aux_failures + 1;
        }
    }

    /// The periodic timer fired: flush the window if its moment has come.
    pub fn on_tick(&mut self, now_ms: u64) -> (r: Option<Vec<ChatMessage>>)
        requires
            old(self).wf(),
            old(self).state_spec() is Running,
            old(self).buffer_spec().clock_bound(now_ms),
            now_ms + old(self).buffer_spec().interval_spec() <= u64::MAX,
        ensures
            final(self).wf(),
            final(self).state_spec() is Running,
            final(self).aux_failures_spec() == old(self).aux_failures_spec(),
            final(self).buffer_spec().pushed() == old(self).buffer_spec().pushed(),
            final(self).buffer_spec().interval_spec() == old(self).buffer_spec().interval_spec(),
            if now_ms >= old(self).buffer_spec().next_flush_spec() {
                &&& r matches Some(b) && crate::buffer::msg_views(b@) == old(
                    self,
                ).buffer_spec().pending()
                &&& final(self).buffer_spec().pending() == Seq::<ChatMessageView>::empty()
                &&& final(self).buffer_spec().emitted() == old(
                    self,
                ).buffer_spec().emitted().push(old(self).buffer_spec().pending())
            } else {
                &&& r is None
                &&& final(self).buffer_spec().pending() == old(self).buffer_spec().pending()
                &&& final(self).buffer_spec().emitted() == old(self).buffer_spec().emitted()
            },
    {
        self.buffer.on_tick(now_ms)
    }

    /// Stop admitting events.
    pub fn begin_drain(&mut self)
        requires
            old(self).state_spec() is Running,
        ensures
            final(self).state_spec() is Draining,
            final(self).buffer_spec() == old(self).buffer_spec(),
            final(self).aux_failures_spec() == old(self).aux_failures_spec(),
    {
        self.state = HandlerState::Draining;
    }

    /// Flush whatever the last window holds; afterwards every pushed
    /// event has been emitted in exactly one batch.
    pub fn drain_flush(&mut self, now_ms: u64) -> (r: Vec<ChatMessage>)
        requires
            old(self).wf(),
            old(self).state_spec() is Draining,
            old(self).buffer_spec().clock_bound(now_ms),
        ensures
            final(self).wf(),
            final(self).state_spec() is Draining,
            crate::buffer::msg_views(r@) == old(self).buffer_spec().pending(),
            final(self).buffer_spec().pending() == Seq::<ChatMessageView>::empty(),
            final(self).buffer_spec().emitted() == old(self).buffer_spec().emitted().push(
                old(self).buffer_spec().pending(),
            ),
            final(self).buffer_spec().pushed() == old(self).buffer_spec().pushed(),
            final(self).buffer_spec().emitted().flatten() == final(self).buffer_spec().pushed(),
    {
        self.buffer.drain(now_ms)
    }

    /// Terminal: nothing more happens.
    pub fn finish(&mut self)
        requires
            old(self).state_spec() is Draining,
        ensures
            final(self).state_spec() is Stopped,
            final(self).buffer_spec() == old(self).buffer_spec(),
    {
        self.state = HandlerState::Stopped;
    }
}

} // verus!
