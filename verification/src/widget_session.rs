//! The Enttec widget's session with the USB host, over either transport.
//!
//! While a host has the port open, each round first looks for a new input
//! mode, then waits for a packet from the host or for the poll timer. Bytes
//! from the host go to the Enttec parser, whose complete messages are handled
//! in the current mode, with any reply written back. When the timer fires the
//! change forwarder is asked for a "Received DMX" message to send; with none,
//! the FT232R imitation sends the status-only packet that real silicon sends
//! every latency period, while the CDC port sends nothing. Any failed read or
//! write means the host has gone, and the session waits for it to come back.
//!
//! The caller does the endpoint work, the parsing and the handling, and
//! reports each outcome as an event; [`WidgetSession::on_event`] decides what
//! comes next.

use vstd::prelude::*;

verus! {

/// How often the CDC port polls the change forwarder, in milliseconds.
pub const CDC_POLL_MS: u64 = 30;

/// Which USB function carries the widget.
#[derive(Clone, Copy, Debug, PartialEq, Eq, Structural)]
pub enum Transport {
    /// The FT232R imitation's bulk endpoints.
    Ftdi,
    /// The composite device's first CDC-ACM port.
    Cdc,
}

/// What the caller reports back.
#[derive(Clone, Copy, Debug, PartialEq, Eq)]
pub enum SessionEvent<M> {
    /// The host has opened the port.
    HostConnected,
    /// A new input mode was announced, with its Art-Net buffer base.
    ModeChanged(M, usize),
    /// No new input mode was announced.
    ModeUnchanged,
    /// A packet of this many bytes arrived from the host.
    Received(usize),
    /// Reading from the host failed.
    ReadFailed,
    /// The poll timer fired before a packet arrived.
    TimedOut,
    /// The bytes were parsed and handled; `false` if writing a reply failed.
    Handled(bool),
    /// The change forwarder's answer: a message of this length to send, or
    /// nothing new.
    Forwarded(Option<usize>),
    /// The write just asked for finished; `false` if it failed.
    Sent(bool),
}

/// What the caller does next.
#[derive(Clone, Copy, Debug, PartialEq, Eq)]
pub enum SessionAction<M> {
    /// Wait until the host opens the port.
    WaitForHost,
    /// Look for a new input mode.
    CheckMode,
    /// Point the change forwarder at this Art-Net base if one is given, then
    /// wait for a packet from the host, at most `timeout_ms`.
    Listen { rebase: Option<usize>, timeout_ms: u64 },
    /// Feed the first `len` bytes of the packet to the parser and handle each
    /// complete message in `mode`, writing back any reply.
    Handle { len: usize, mode: M },
    /// Ask the change forwarder for a message, in `mode`.
    PollForwarder(M),
    /// Write the forwarder's message of this length to the host.
    Send(usize),
    /// Write the status-only packet.
    SendHeartbeat,
}

/// The session's state.
pub struct WidgetSession<M> {
    /// The function carrying the widget.
    pub transport: Transport,
    /// A host has the port open.
    pub connected: bool,
    /// The input mode messages are handled in.
    pub mode: M,
    /// The Art-Net buffer base the change forwarder reads.
    pub artnet_base: usize,
}

/// How long a round waits for the host before polling the forwarder: the
/// FT232R's latency timer, or the CDC port's fixed period.
pub open spec fn poll_period(transport: Transport, latency_ms: u8) -> u64 {
    match transport {
        Transport::Ftdi => latency_ms as u64,
        Transport::Cdc => CDC_POLL_MS,
    }
}

/// `s` with the host gone.
pub open spec fn dropped<M>(s: WidgetSession<M>) -> WidgetSession<M> {
    WidgetSession { connected: false, ..s }
}

/// One step of the session: event `e` takes state `s` to a new state and the
/// next action; `latency_ms` is the FT232R latency timer's current setting.
pub open spec fn session_step<M>(s: WidgetSession<M>, e: SessionEvent<M>, latency_ms: u8) -> (
    WidgetSession<M>,
    SessionAction<M>,
) {
    if !s.connected {
        match e {
            SessionEvent::HostConnected => (WidgetSession { connected: true, ..s }, SessionAction::CheckMode),
            _ => (s, SessionAction::WaitForHost),
        }
    } else {
        match e {
            SessionEvent::HostConnected => (s, SessionAction::CheckMode),
            SessionEvent::ModeChanged(m, base) => (
                WidgetSession { mode: m, artnet_base: base, ..s },
                SessionAction::Listen { rebase: Some(base), timeout_ms: poll_period(s.transport, latency_ms) },
            ),
            SessionEvent::ModeUnchanged => (
                s,
                SessionAction::Listen { rebase: None, timeout_ms: poll_period(s.transport, latency_ms) },
            ),
            SessionEvent::Received(n) => (s, SessionAction::Handle { len: n, mode: s.mode }),
            SessionEvent::ReadFailed => (dropped(s), SessionAction::WaitForHost),
            SessionEvent::TimedOut => (s, SessionAction::PollForwarder(s.mode)),
            SessionEvent::Handled(ok) => if ok {
                (s, SessionAction::CheckMode)
            } else {
                (dropped(s), SessionAction::WaitForHost)
            },
            SessionEvent::Forwarded(out) => match out {
                Some(len) => (s, SessionAction::Send(len)),
                None => match s.transport {
                    Transport::Ftdi => (s, SessionAction::SendHeartbeat),
                    Transport::Cdc => (s, SessionAction::CheckMode),
                },
            },
            SessionEvent::Sent(ok) => if ok {
                (s, SessionAction::CheckMode)
            } else {
                (dropped(s), SessionAction::WaitForHost)
            },
        }
    }
}

impl<M: Copy> WidgetSession<M> {
    /// A session on `transport` with no host yet, handling messages in `mode`
    /// with the forwarder at `artnet_base`; its first action is to wait for
    /// the host.
    pub fn new(transport: Transport, mode: M, artnet_base: usize) -> (r: (WidgetSession<M>, SessionAction<M>))
        ensures
            r.0 == (WidgetSession { transport, connected: false, mode, artnet_base }),
            r.1 == SessionAction::<M>::WaitForHost,
    {
        (WidgetSession { transport, connected: false, mode, artnet_base }, SessionAction::WaitForHost)
    }

    /// Takes what just happened and says what to do next.
    pub fn on_event(&mut self, event: SessionEvent<M>, latency_ms: u8) -> (action: SessionAction<M>)
        ensures
            (*final(self), action) == session_step(*old(self), event, latency_ms),
    {
        if !self.connected {
            return match event {
                SessionEvent::HostConnected => {
                    self.connected = true;
                    SessionAction::CheckMode
                },
                _ => SessionAction::WaitForHost,
            };
        }
        let period: u64 = match self.transport {
            Transport::Ftdi => latency_ms as u64,
            Transport::Cdc => CDC_POLL_MS,
        };
        match event {
            SessionEvent::HostConnected => SessionAction::CheckMode,
            SessionEvent::ModeChanged(m, base) => {
                self.mode = m;
                self.artnet_base = base;
                SessionAction::Listen { rebase: Some(base), timeout_ms: period }
            },
            SessionEvent::ModeUnchanged => SessionAction::Listen { rebase: None, timeout_ms: period },
            SessionEvent::Received(n) => SessionAction::Handle { len: n, mode: self.mode },
            SessionEvent::ReadFailed => {
                self.connected = false;
                SessionAction::WaitForHost
            },
            SessionEvent::TimedOut => SessionAction::PollForwarder(self.mode),
            SessionEvent::Handled(ok) => {
                if ok {
                    SessionAction::CheckMode
                } else {
                    self.connected = false;
                    SessionAction::WaitForHost
                }
            },
            SessionEvent::Forwarded(out) => match out {
                Some(len) => SessionAction::Send(len),
                None => match self.transport {
                    Transport::Ftdi => SessionAction::SendHeartbeat,
                    Transport::Cdc => SessionAction::CheckMode,
                },
            },
            SessionEvent::Sent(ok) => {
                if ok {
                    SessionAction::CheckMode
                } else {
                    self.connected = false;
                    SessionAction::WaitForHost
                }
            },
        }
    }
}

/// The session's standing promises, for every state and event: a failed read
/// or write always drops the host, and nothing else does; the transport never
/// changes; the mode and Art-Net base change only when a new mode is
/// announced to a connected session, and then to exactly what was announced,
/// with the forwarder pointed at the new base; messages are handled and the
/// forwarder polled in the current mode; and only the FT232R imitation sends
/// the status-only packet, exactly when the forwarder has nothing to send.
pub proof fn lemma_session_laws<M>(s: WidgetSession<M>, e: SessionEvent<M>, latency_ms: u8)
    ensures
        ({
            let (s2, a) = session_step(s, e, latency_ms);
            &&& s2.transport == s.transport
            &&& (s.connected && (e == SessionEvent::<M>::ReadFailed || e == SessionEvent::<M>::Handled(false)
                || e == SessionEvent::<M>::Sent(false))) ==> !s2.connected && a == SessionAction::<M>::WaitForHost
            &&& (s.connected && !s2.connected) ==> (e == SessionEvent::<M>::ReadFailed || e
                == SessionEvent::<M>::Handled(false) || e == SessionEvent::<M>::Sent(false))
            &&& (s2.mode != s.mode || s2.artnet_base != s.artnet_base) ==> s.connected && e
                == SessionEvent::ModeChanged(s2.mode, s2.artnet_base)
            &&& s.connected ==> (e matches SessionEvent::ModeChanged(m, b) ==> (s2.mode == m && s2.artnet_base == b
                && (a matches SessionAction::Listen { rebase, .. } && rebase == Some(b))))
            &&& a matches SessionAction::Handle { mode, .. } ==> mode == s.mode
            &&& a matches SessionAction::PollForwarder(mode) ==> mode == s.mode
            &&& (a == SessionAction::<M>::SendHeartbeat <==> (s.connected && s.transport == Transport::Ftdi && e
                == SessionEvent::<M>::Forwarded(None)))
        }),
{
}

/// What each event leads to, over every state: before the host connects,
/// only its connecting does anything, and the round then starts with a mode
/// check; a connected round waits for the host for the FT232R's latency
/// period or the CDC port's 30 ms; bytes from the host are handled in the
/// current mode; the timer polls the forwarder; a message from the forwarder
/// is written to the host on either transport; and a round that went well
/// starts the next one. Only a mode announcement or a lost host changes the
/// state.
pub proof fn lemma_session_responses<M>(s: WidgetSession<M>, e: SessionEvent<M>, latency_ms: u8)
    ensures
        ({
            let (s2, a) = session_step(s, e, latency_ms);
            let period: u64 = if s.transport == Transport::Ftdi { latency_ms as u64 } else { 30 };
            &&& !s.connected ==> (if e == SessionEvent::<M>::HostConnected {
                s2 == WidgetSession { connected: true, ..s } && a == SessionAction::<M>::CheckMode
            } else {
                s2 == s && a == SessionAction::<M>::WaitForHost
            })
            &&& s.connected ==> match e {
                SessionEvent::HostConnected => s2 == s && a == SessionAction::<M>::CheckMode,
                SessionEvent::ModeChanged(m, b) => s2 == WidgetSession { mode: m, artnet_base: b, ..s } && a
                    == SessionAction::<M>::Listen { rebase: Some(b), timeout_ms: period },
                SessionEvent::ModeUnchanged => s2 == s && a == SessionAction::<M>::Listen {
                    rebase: None,
                    timeout_ms: period,
                },
                SessionEvent::Received(n) => s2 == s && a == SessionAction::Handle { len: n, mode: s.mode },
                SessionEvent::TimedOut => s2 == s && a == SessionAction::PollForwarder(s.mode),
                SessionEvent::Forwarded(Some(len)) => s2 == s && a == SessionAction::<M>::Send(len),
                SessionEvent::Handled(true) => s2 == s && a == SessionAction::<M>::CheckMode,
                SessionEvent::Sent(true) => s2 == s && a == SessionAction::<M>::CheckMode,
                SessionEvent::Forwarded(None) => s2 == s && a == (if s.transport == Transport::Ftdi {
                    SessionAction::<M>::SendHeartbeat
                } else {
                    SessionAction::<M>::CheckMode
                }),
                _ => s2 == WidgetSession { connected: false, ..s } && a == SessionAction::<M>::WaitForHost,
            }
        }),
{
}

} // verus!
