use vstd::prelude::*;
use vstd::utf8::encode_utf8;

use crate::packet::{CameraCmdFrameHeader, CameraCmdPacket, FRAME_HEADER_LEN};
use crate::sample::BambuSample;
use crate::settings::{LocalSettings, SettingsView};

verus! {

/// A failure of the secure transport, as the code that drives it reports it.
#[derive(Clone, Copy, Debug, PartialEq, Eq, Structural)]
pub enum TransportError {
    /// The address could not be resolved or the connection was refused.
    Connect,
    /// The TLS handshake failed.
    Handshake,
    /// Reading or writing failed after the session was set up.
    Io,
}

/// Why a session operation did not complete.
#[derive(Clone, Copy, Debug, PartialEq, Eq, Structural)]
pub enum LocalTunnelError {
    /// No transport has been opened.
    NotOpened,
    /// A transport is already open.
    AlreadyOpened,
    /// A stream has already been started.
    AlreadyStarted,
    /// No stream has been started.
    NotStarted,
    /// No sample is ready yet: call again.
    WouldBlock,
    /// The transport failed; the session is no longer usable.
    Transport(TransportError),
}

impl LocalTunnelError {
    /// Whether this is the transient "call again" condition rather than a
    /// true failure.
    pub fn is_retryable(&self) -> (r: bool)
        ensures
            r == (*self is WouldBlock),
    {
        match self {
            LocalTunnelError::WouldBlock => true,
            _ => false,
        }
    }

    /// A short human-readable description.
    pub fn message(&self) -> String {
        let s: &str = match self {
            LocalTunnelError::NotOpened => "stream not opened",
            LocalTunnelError::AlreadyOpened => "stream already opened",
            LocalTunnelError::AlreadyStarted => "stream already started",
            LocalTunnelError::NotStarted => "stream not started",
            LocalTunnelError::WouldBlock => "no sample ready yet",
            LocalTunnelError::Transport(TransportError::Connect) => "connection failed",
            LocalTunnelError::Transport(TransportError::Handshake) => "handshake failed",
            LocalTunnelError::Transport(TransportError::Io) => "transport failure",
        };
        s.to_owned()
    }
}

/// Where the reception of the stream stands.
#[derive(Debug)]
pub enum LocalTunnelState {
    /// Open, no stream started.
    Initial,
    /// Waiting for the next frame header.
    ProcessStream,
    /// Filling the payload of the frame that `header` announced.
    ReceivingSample { header: CameraCmdFrameHeader, data: Vec<u8>, remaining_bytes: usize },
}

/// The reception state, as values.
pub enum Phase {
    Initial,
    ProcessStream,
    Receiving { header: CameraCmdFrameHeader, data: Seq<u8>, remaining: nat },
}

impl View for LocalTunnelState {
    type V = Phase;

    open spec fn view(&self) -> Phase {
        match self {
            LocalTunnelState::Initial => Phase::Initial,
            LocalTunnelState::ProcessStream => Phase::ProcessStream,
            LocalTunnelState::ReceivingSample { header, data, remaining_bytes } => Phase::Receiving {
                header: *header,
                data: data@,
                remaining: *remaining_bytes as nat,
            },
        }
    }
}

/// A session, as values: its settings, whether a transport is open, the request type of
/// the running stream, the reception state, whether the caller's sample slot
/// has been taken over, and the received bytes not yet consumed.
pub struct TunnelView {
    pub settings: SettingsView,
    pub opened: bool,
    pub req_type: Option<i32>,
    pub phase: Option<Phase>,
    pub own_sample_buffer: bool,
    pub inbox: Seq<u8>,
}

/// Whether a stream has been started and not closed.
pub open spec fn is_started(phase: Option<Phase>) -> bool {
    match phase {
        Some(Phase::ProcessStream) => true,
        Some(Phase::Receiving { .. }) => true,
        _ => false,
    }
}

/// Whether the next sample read consumes one tick of the transport.
pub open spec fn wants_tick(phase: Option<Phase>) -> bool {
    match phase {
        Some(Phase::ProcessStream) => true,
        Some(Phase::Receiving { remaining, .. }) => remaining > 0,
        _ => false,
    }
}

/// The bytes that a tick brought; none where it failed.
pub open spec fn arrived(received: Result<Seq<u8>, TransportError>) -> Seq<u8> {
    match received {
        Ok(bytes) => bytes,
        Err(_) => Seq::empty(),
    }
}

/// What one sample read does, given what one transport tick brought (a tick
/// is only taken where `wants_tick` holds; bytes handed in otherwise are
/// kept, unread, for the next header, and a failure is not looked at). The
/// result is the new session and either the payload handed
/// to the caller, with its header, or the reason why none was.
pub open spec fn read_transition(v: TunnelView, received: Result<Seq<u8>, TransportError>) -> (
    TunnelView,
    Result<(CameraCmdFrameHeader, Seq<u8>), LocalTunnelError>,
) {
    if !v.opened {
        (v, Err(LocalTunnelError::NotOpened))
    } else {
        let v1 = TunnelView { own_sample_buffer: true, ..v };
        match v.phase {
            Some(Phase::ProcessStream) => match received {
                Err(t) => (v1, Err(LocalTunnelError::Transport(t))),
                Ok(bytes) => {
                    let inbox = v.inbox + bytes;
                    if inbox.len() < FRAME_HEADER_LEN {
                        (TunnelView { inbox, ..v1 }, Err(LocalTunnelError::WouldBlock))
                    } else {
                        let h = CameraCmdFrameHeader::decoded(inbox.take(FRAME_HEADER_LEN as int));
                        let rest = inbox.skip(FRAME_HEADER_LEN as int);
                        (
                            TunnelView {
                                inbox: rest,
                                phase: Some(
                                    Phase::Receiving {
                                        header: h,
                                        data: Seq::empty(),
                                        remaining: h.frame_len as nat,
                                    },
                                ),
                                ..v1
                            },
                            Err(LocalTunnelError::WouldBlock),
                        )
                    }
                },
            },
            Some(Phase::Receiving { header, data, remaining }) => if remaining == 0 {
                (
                    TunnelView {
                        phase: Some(Phase::ProcessStream),
                        inbox: v.inbox + arrived(received),
                        ..v1
                    },
                    Ok((header, data)),
                )
            } else {
                match received {
                    Err(t) => (v1, Err(LocalTunnelError::Transport(t))),
                    Ok(bytes) => {
                        let inbox = v.inbox + bytes;
                        let k = if remaining < inbox.len() {
                            remaining as int
                        } else {
                            inbox.len() as int
                        };
                        (
                            TunnelView {
                                inbox: inbox.skip(k),
                                phase: Some(
                                    Phase::Receiving {
                                        header,
                                        data: data + inbox.take(k),
                                        remaining: (remaining - k) as nat,
                                    },
                                ),
                                ..v1
                            },
                            Err(LocalTunnelError::WouldBlock),
                        )
                    },
                }
            },
            _ => (
                TunnelView { inbox: v.inbox + arrived(received), ..v1 },
                Err(LocalTunnelError::NotStarted),
            ),
        }
    }
}

/// One device session: the settings, and the state of the stream that the
/// caller drives. The transport itself is driven by the caller, which hands
/// each outcome to the matching method.
#[derive(Debug)]
pub struct LocalTunnel {
    pub settings: LocalSettings,
    pub opened: bool,
    pub req_type_opt: Option<i32>,
    pub state_opt: Option<LocalTunnelState>,
    pub own_sample_buffer: bool,
    pub inbox: Vec<u8>,
}

pub open spec fn opt_phase(s: Option<LocalTunnelState>) -> Option<Phase> {
    match s {
        Some(st) => Some(st@),
        None => None,
    }
}

/// The well-formed sessions: a state exactly when a transport is open, a
/// request type while a stream runs, and a payload that never outgrows the
/// length its header declared and that is only received once the caller's
/// sample slot has been taken over.
pub open spec fn view_wf(v: TunnelView) -> bool {
    &&& v.opened == (v.phase is Some)
    &&& is_started(v.phase) ==> v.req_type is Some
    &&& match v.phase {
        Some(Phase::Receiving { header, data, remaining }) => {
            &&& data.len() + remaining == header.frame_len
            &&& v.own_sample_buffer
        },
        _ => true,
    }
}

impl View for LocalTunnel {
    type V = TunnelView;

    open spec fn view(&self) -> TunnelView {
        TunnelView {
            settings: self.settings@,
            opened: self.opened,
            req_type: self.req_type_opt,
            phase: opt_phase(self.state_opt),
            own_sample_buffer: self.own_sample_buffer,
            inbox: self.inbox@,
        }
    }
}

/// Appends `src[from..to]` to `dst`.
fn append_range(dst: &mut Vec<u8>, src: &Vec<u8>, from: usize, to: usize)
    requires
        from <= to <= src@.len(),
    ensures
        final(dst)@ == old(dst)@ + src@.subrange(from as int, to as int),
{
    let mut i = from;
    while i < to
        invariant
            from <= i <= to <= src@.len(),
            dst@ == old(dst)@ + src@.subrange(from as int, i as int),
        decreases to - i,
    {
        dst.push(src[i]);
        i = i + 1;
        assert(dst@ =~= old(dst)@ + src@.subrange(from as int, i as int));
    }
}

/// Removes the first `k` bytes.
fn drop_front(v: &mut Vec<u8>, k: usize)
    requires
        k <= old(v)@.len(),
    ensures
        final(v)@ == old(v)@.skip(k as int),
{
    let mut rest: Vec<u8> = Vec::new();
    append_range(&mut rest, v, k, v.len());
    assert(rest@ =~= old(v)@.skip(k as int));
    *v = rest;
}

pub open spec fn received_view(received: Result<Vec<u8>, TransportError>) -> Result<
    Seq<u8>,
    TransportError,
> {
    match received {
        Ok(b) => Ok(b@),
        Err(t) => Err(t),
    }
}

impl LocalTunnel {
    pub open spec fn wf(&self) -> bool {
        view_wf(self@)
    }

    /// A session for the given settings, with nothing opened.
    pub fn new(settings: LocalSettings) -> (r: LocalTunnel)
        ensures
            r.wf(),
            r@.settings == settings@,
            r@.opened == false,
            r@.req_type is None,
            r@.phase is None,
            r@.own_sample_buffer == false,
            r@.inbox.len() == 0,
    {
        LocalTunnel {
            settings,
            opened: false,
            req_type_opt: None,
            state_opt: None,
            own_sample_buffer: false,
            inbox: Vec::new(),
        }
    }

    fn ensure_connected(&self) -> (r: Result<(), LocalTunnelError>)
        ensures
            r == if self@.opened {
                Ok::<(), LocalTunnelError>(())
            } else {
                Err(LocalTunnelError::NotOpened)
            },
    {
        if !self.opened {
            return Err(LocalTunnelError::NotOpened);
        }
        Ok(())
    }

    /// Whether a transport may be opened now: not when one already is.
    pub fn check_open(&self) -> (r: Result<(), LocalTunnelError>)
        ensures
            r == if self@.opened || self@.phase is Some {
                Err(LocalTunnelError::AlreadyOpened)
            } else {
                Ok::<(), LocalTunnelError>(())
            },
    {
        if self.opened || self.state_opt.is_some() {
            return Err(LocalTunnelError::AlreadyOpened);
        }
        Ok(())
    }

    /// Records the outcome of connecting and of the TLS handshake. On success
    /// the session is open with no stream started; otherwise nothing changes.
    pub fn open(&mut self, handshake: Result<(), TransportError>) -> (r: Result<(), LocalTunnelError>)
        requires
            old(self).wf(),
        ensures
            final(self).wf(),
            final(self)@.settings == old(self)@.settings,
            old(self)@.opened ==> r == Err::<(), LocalTunnelError>(LocalTunnelError::AlreadyOpened)
                && final(self)@ == old(self)@,
            !old(self)@.opened ==> match handshake {
                Err(t) => r == Err::<(), LocalTunnelError>(LocalTunnelError::Transport(t))
                    && final(self)@ == old(self)@,
                Ok(_) => r is Ok && final(self)@ == (TunnelView {
                    opened: true,
                    phase: Some(Phase::Initial),
                    ..old(self)@
                }),
            },
    {
        self.check_open()?;
        match handshake {
            Err(t) => Err(LocalTunnelError::Transport(t)),
            Ok(_) => {
                self.opened = true;
                self.state_opt = Some(LocalTunnelState::Initial);
                Ok(())
            },
        }
    }

    /// The control packet that starts a stream of the given request type,
    /// or why no stream may be started now. Nothing is sent from here.
    pub fn start_packet(&self, req_type: i32) -> (r: Result<CameraCmdPacket, LocalTunnelError>)
        requires
            self.wf(),
        ensures
            !self@.opened ==> r == Err::<CameraCmdPacket, LocalTunnelError>(
                LocalTunnelError::NotOpened,
            ),
            self@.opened && is_started(self@.phase) ==> r == Err::<
                CameraCmdPacket,
                LocalTunnelError,
            >(LocalTunnelError::AlreadyStarted),
            self@.opened && !is_started(self@.phase) ==> r is Ok && r->Ok_0.is_command(
                req_type,
                encode_utf8(self@.settings.username),
                encode_utf8(self@.settings.password),
                true,
            ),
    {
        self.ensure_connected()?;
        match &self.state_opt {
            Some(LocalTunnelState::Initial) | None => {},
            _ => {
                return Err(LocalTunnelError::AlreadyStarted);
            },
        }
        Ok(
            CameraCmdPacket::new(
                req_type,
                self.settings.username.as_str(),
                self.settings.password.as_str(),
                true,
            ),
        )
    }

    /// Records the outcome of sending the start packet for `req_type`. On
    /// success the stream runs and the next frame header is awaited.
    pub fn start(&mut self, req_type: i32, sent: Result<(), TransportError>) -> (r: Result<
        (),
        LocalTunnelError,
    >)
        requires
            old(self).wf(),
        ensures
            final(self).wf(),
            final(self)@.settings == old(self)@.settings,
            !old(self)@.opened ==> r == Err::<(), LocalTunnelError>(LocalTunnelError::NotOpened)
                && final(self)@ == old(self)@,
            old(self)@.opened && is_started(old(self)@.phase) ==> r == Err::<(), LocalTunnelError>(
                LocalTunnelError::AlreadyStarted,
            ) && final(self)@ == old(self)@,
            old(self)@.opened && !is_started(old(self)@.phase) ==> match sent {
                Err(t) => r == Err::<(), LocalTunnelError>(LocalTunnelError::Transport(t))
                    && final(self)@ == old(self)@,
                Ok(_) => r is Ok && final(self)@ == (TunnelView {
                    req_type: Some(req_type),
                    phase: Some(Phase::ProcessStream),
                    ..old(self)@
                }),
            },
    {
        self.ensure_connected()?;
        match &self.state_opt {
            Some(LocalTunnelState::Initial) | None => {},
            _ => {
                return Err(LocalTunnelError::AlreadyStarted);
            },
        }
        match sent {
            Err(t) => Err(LocalTunnelError::Transport(t)),
            Ok(_) => {
                self.state_opt = Some(LocalTunnelState::ProcessStream);
                self.req_type_opt = Some(req_type);
                Ok(())
            },
        }
    }

    /// The control packet that stops the running stream, or why there is
    /// none to stop. Nothing is sent from here.
    pub fn close_packet(&self) -> (r: Result<CameraCmdPacket, LocalTunnelError>)
        requires
            self.wf(),
        ensures
            !self@.opened ==> r == Err::<CameraCmdPacket, LocalTunnelError>(
                LocalTunnelError::NotOpened,
            ),
            self@.opened && !is_started(self@.phase) ==> r == Err::<
                CameraCmdPacket,
                LocalTunnelError,
            >(LocalTunnelError::NotStarted),
            self@.opened && is_started(self@.phase) ==> r is Ok && r->Ok_0.is_command(
                self@.req_type->0,
                encode_utf8(self@.settings.username),
                encode_utf8(self@.settings.password),
                false,
            ),
    {
        self.ensure_connected()?;
        match &self.state_opt {
            Some(LocalTunnelState::Initial) | None => {
                return Err(LocalTunnelError::NotStarted);
            },
            _ => {},
        }
        let req_type = match self.req_type_opt {
            Some(t) => t,
            None => {
                return Err(LocalTunnelError::NotStarted);
            },
        };
        Ok(
            CameraCmdPacket::new(
                req_type,
                self.settings.username.as_str(),
                self.settings.password.as_str(),
                false,
            ),
        )
    }

    /// Records the outcome of sending the stop packet. On success the session
    /// is back to open with no stream, and a partly received frame is dropped.
    pub fn close(&mut self, sent: Result<(), TransportError>) -> (r: Result<(), LocalTunnelError>)
        requires
            old(self).wf(),
        ensures
            final(self).wf(),
            final(self)@.settings == old(self)@.settings,
            !old(self)@.opened ==> r == Err::<(), LocalTunnelError>(LocalTunnelError::NotOpened)
                && final(self)@ == old(self)@,
            old(self)@.opened && !is_started(old(self)@.phase) ==> r == Err::<
                (),
                LocalTunnelError,
            >(LocalTunnelError::NotStarted) && final(self)@ == old(self)@,
            old(self)@.opened && is_started(old(self)@.phase) ==> match sent {
                Err(t) => r == Err::<(), LocalTunnelError>(LocalTunnelError::Transport(t))
                    && final(self)@ == old(self)@,
                Ok(_) => r is Ok && final(self)@ == (TunnelView {
                    phase: Some(Phase::Initial),
                    ..old(self)@
                }),
            },
    {
        self.ensure_connected()?;
        match &self.state_opt {
            Some(LocalTunnelState::Initial) | None => {
                return Err(LocalTunnelError::NotStarted);
            },
            _ => {},
        }
        match sent {
            Err(t) => Err(LocalTunnelError::Transport(t)),
            Ok(_) => {
                self.state_opt = Some(LocalTunnelState::Initial);
                Ok(())
            },
        }
    }

    /// Keeps bytes that came without a tick being asked for.
    fn keep_untimely(&mut self, received: Result<Vec<u8>, TransportError>)
        ensures
            final(self)@ == (TunnelView {
                inbox: old(self)@.inbox + arrived(received_view(received)),
                ..old(self)@
            }),
    {
        match received {
            Ok(bytes) => {
                append_range(&mut self.inbox, &bytes, 0, bytes.len());
                assert(bytes@.subrange(0, bytes@.len() as int) =~= bytes@);
            },
            Err(_) => {
                assert(self.inbox@ =~= self.inbox@ + Seq::<u8>::empty());
            },
        }
    }

    /// Advances the reception by one step; meant to be called in a loop.
    ///
    /// `received` is what one tick of the transport brought, taken only
    /// where `needs_tick` held before the call (pass `Ok` of nothing
    /// otherwise; bytes passed then are kept for later). The buffer that `sample` held is released first; on the
    /// very first call `sample` is cleared instead. A header arriving, or part
    /// of a payload, gives `WouldBlock`; a complete payload is handed over in
    /// `sample` on the call after its last byte came, with `Ok`.
    pub fn read_sample(
        &mut self,
        sample: &mut BambuSample,
        received: Result<Vec<u8>, TransportError>,
    ) -> (r: Result<(), LocalTunnelError>)
        requires
            old(self).wf(),
        ensures
            final(self).wf(),
            final(self)@ == read_transition(old(self)@, received_view(received)).0,
            match read_transition(old(self)@, received_view(received)).1 {
                Ok(_) => r is Ok,
                Err(e) => r == Err::<(), LocalTunnelError>(e),
            },
            !old(self)@.opened ==> *final(sample) == *old(sample),
            old(self)@.opened ==> match read_transition(old(self)@, received_view(received)).1 {
                Ok((h, d)) => {
                    &&& final(sample).wf()
                    &&& final(sample).buffer@ == d
                    &&& d.len() == h.frame_len
                    &&& final(sample).itrack == h.itrack
                    &&& final(sample).flags == h.flags
                    &&& final(sample).decode_time == 0
                },
                Err(_) => {
                    let own = old(self)@.own_sample_buffer;
                    &&& final(sample).size == 0
                    &&& final(sample).itrack == if own {
                        old(sample).itrack
                    } else {
                        0
                    }
                    &&& final(sample).flags == if own {
                        old(sample).flags
                    } else {
                        0
                    }
                    &&& final(sample).decode_time == if own {
                        old(sample).decode_time
                    } else {
                        0
                    }
                    &&& if own && old(sample).size == 0 {
                        final(sample).buffer@ == old(sample).buffer@
                    } else {
                        final(sample).buffer@.len() == 0
                    }
                },
            },
            !old(self)@.own_sample_buffer ==> r is Err,
    {
        self.ensure_connected()?;
        if !self.own_sample_buffer {
            *sample = BambuSample::empty();
            self.own_sample_buffer = true;
        }
        sample.destroy_buffer();
        let state = self.state_opt.take();
        match state {
            None => {
                self.state_opt = None;
                self.keep_untimely(received);
                Err(LocalTunnelError::NotStarted)
            },
            Some(LocalTunnelState::Initial) => {
                self.state_opt = Some(LocalTunnelState::Initial);
                self.keep_untimely(received);
                Err(LocalTunnelError::NotStarted)
            },
            Some(LocalTunnelState::ProcessStream) => {
                self.state_opt = Some(LocalTunnelState::ProcessStream);
                let bytes = match received {
                    Err(t) => {
                        return Err(LocalTunnelError::Transport(t));
                    },
                    Ok(b) => b,
                };
                append_range(&mut self.inbox, &bytes, 0, bytes.len());
                assert(bytes@.subrange(0, bytes@.len() as int) =~= bytes@);
                if self.inbox.len() < FRAME_HEADER_LEN {
                    return Err(LocalTunnelError::WouldBlock);
                }
                let raw: [u8; 16] = [
                    self.inbox[0],
                    self.inbox[1],
                    self.inbox[2],
                    self.inbox[3],
                    self.inbox[4],
                    self.inbox[5],
                    self.inbox[6],
                    self.inbox[7],
                    self.inbox[8],
                    self.inbox[9],
                    self.inbox[10],
                    self.inbox[11],
                    self.inbox[12],
                    self.inbox[13],
                    self.inbox[14],
                    self.inbox[15],
                ];
                assert(raw@ =~= self.inbox@.take(16));
                let header = CameraCmdFrameHeader::from_bytes(raw);
                drop_front(&mut self.inbox, FRAME_HEADER_LEN);
                let data: Vec<u8> = Vec::with_capacity(header.frame_len as usize);
                self.state_opt = Some(
                    LocalTunnelState::ReceivingSample {
                        header,
                        data,
                        remaining_bytes: header.frame_len as usize,
                    },
                );
                Err(LocalTunnelError::WouldBlock)
            },
            Some(LocalTunnelState::ReceivingSample { header, mut data, remaining_bytes }) => {
                if remaining_bytes == 0 {
                    sample.set_buffer(header, data);
                    self.state_opt = Some(LocalTunnelState::ProcessStream);
                    self.keep_untimely(received);
                    return Ok(());
                }
                let bytes = match received {
                    Err(t) => {
                        self.state_opt = Some(
                            LocalTunnelState::ReceivingSample { header, data, remaining_bytes },
                        );
                        return Err(LocalTunnelError::Transport(t));
                    },
                    Ok(b) => b,
                };
                append_range(&mut self.inbox, &bytes, 0, bytes.len());
                assert(bytes@.subrange(0, bytes@.len() as int) =~= bytes@);
                let k = if remaining_bytes < self.inbox.len() {
                    remaining_bytes
                } else {
                    self.inbox.len()
                };
                append_range(&mut data, &self.inbox, 0, k);
                assert(self.inbox@.subrange(0, k as int) =~= self.inbox@.take(k as int));
                drop_front(&mut self.inbox, k);
                self.state_opt = Some(
                    LocalTunnelState::ReceivingSample {
                        header,
                        data,
                        remaining_bytes: remaining_bytes - k,
                    },
                );
                Err(LocalTunnelError::WouldBlock)
            },
        }
    }

    /// Whether the next sample read needs one tick of the transport first.
    pub fn needs_tick(&self) -> (r: bool)
        ensures
            r == wants_tick(self@.phase),
    {
        match &self.state_opt {
            Some(LocalTunnelState::ProcessStream) => true,
            Some(LocalTunnelState::ReceivingSample { remaining_bytes, .. }) => *remaining_bytes > 0,
            _ => false,
        }
    }
}

/// Before a stream is started, a sample read fails with a sequencing error
/// (not opened, or not started) and changes nothing but taking over the
/// caller's sample slot and keeping any bytes handed in.
pub proof fn lemma_read_before_start(v: TunnelView, received: Result<Seq<u8>, TransportError>)
    requires
        view_wf(v),
        !is_started(v.phase),
    ensures
        read_transition(v, received).1 == Err::<(CameraCmdFrameHeader, Seq<u8>), LocalTunnelError>(
            if v.opened {
                LocalTunnelError::NotStarted
            } else {
                LocalTunnelError::NotOpened
            },
        ),
        read_transition(v, received).0 == (TunnelView {
            own_sample_buffer: v.opened || v.own_sample_buffer,
            inbox: if v.opened {
                v.inbox + arrived(received)
            } else {
                v.inbox
            },
            ..v
        }),
{
}

/// Every session a sample read leaves behind is well formed.
pub proof fn lemma_read_keeps_wf(v: TunnelView, received: Result<Seq<u8>, TransportError>)
    requires
        view_wf(v),
    ensures
        view_wf(read_transition(v, received).0),
        read_transition(v, received).1 matches Ok((h, d)) ==> d.len() == h.frame_len,
{
}

/// A frame whose header and whole non-empty payload of length L arrive in
/// one tick: the first read takes the header, the second the payload, both
/// asking to be called again, and the third hands over exactly the L bytes.
pub proof fn lemma_frame_delivered(v: TunnelView, raw: Seq<u8>, body: Seq<u8>)
    requires
        view_wf(v),
        v.phase == Some(Phase::ProcessStream),
        v.inbox.len() == 0,
        raw.len() == FRAME_HEADER_LEN,
        CameraCmdFrameHeader::decoded(raw).frame_len == body.len(),
        0 < body.len(),
    ensures
        ({
            let (v1, o1) = read_transition(v, Ok(raw + body));
            let (v2, o2) = read_transition(v1, Ok(Seq::empty()));
            let (v3, o3) = read_transition(v2, Ok(Seq::empty()));
            &&& o1 == Err::<(CameraCmdFrameHeader, Seq<u8>), LocalTunnelError>(
                LocalTunnelError::WouldBlock,
            )
            &&& o2 == Err::<(CameraCmdFrameHeader, Seq<u8>), LocalTunnelError>(
                LocalTunnelError::WouldBlock,
            )
            &&& o3 == Ok::<(CameraCmdFrameHeader, Seq<u8>), LocalTunnelError>(
                (CameraCmdFrameHeader::decoded(raw), body),
            )
            &&& v3.phase == Some(Phase::ProcessStream)
            &&& v3.inbox.len() == 0
        }),
{
    let all = v.inbox + (raw + body);
    assert(all.take(16) =~= raw);
    assert(all.skip(16) =~= body);
    let v1 = read_transition(v, Ok(raw + body)).0;
    assert(v1.inbox + Seq::<u8>::empty() =~= body);
    assert(Seq::<u8>::empty() + body.take(body.len() as int) =~= body);
    let v2 = read_transition(v1, Ok(Seq::empty())).0;
    assert(v2.inbox =~= Seq::<u8>::empty());
}

/// A frame that declares an empty payload is handed over, empty, on the read
/// right after the one that took its header.
pub proof fn lemma_empty_frame_delivered(v: TunnelView, raw: Seq<u8>)
    requires
        view_wf(v),
        v.phase == Some(Phase::ProcessStream),
        v.inbox.len() == 0,
        raw.len() == FRAME_HEADER_LEN,
        CameraCmdFrameHeader::decoded(raw).frame_len == 0,
    ensures
        ({
            let (v1, o1) = read_transition(v, Ok(raw));
            let (v2, o2) = read_transition(v1, Ok(Seq::empty()));
            &&& o1 == Err::<(CameraCmdFrameHeader, Seq<u8>), LocalTunnelError>(
                LocalTunnelError::WouldBlock,
            )
            &&& o2 == Ok::<(CameraCmdFrameHeader, Seq<u8>), LocalTunnelError>(
                (CameraCmdFrameHeader::decoded(raw), Seq::empty()),
            )
            &&& v2.phase == Some(Phase::ProcessStream)
        }),
{
    let all = v.inbox + raw;
    assert(all.take(16) =~= raw);
}

/// While a payload fills, no received byte is lost or reordered: the payload
/// so far followed by the bytes not yet consumed grows by exactly what the
/// tick brought, and the payload never passes its declared length.
pub proof fn lemma_receiving_keeps_bytes(
    v: TunnelView,
    header: CameraCmdFrameHeader,
    data: Seq<u8>,
    remaining: nat,
    bytes: Seq<u8>,
)
    requires
        view_wf(v),
        v.phase == Some(Phase::Receiving { header, data, remaining }),
        remaining > 0,
    ensures
        ({
            let (v1, o1) = read_transition(v, Ok(bytes));
            &&& o1 == Err::<(CameraCmdFrameHeader, Seq<u8>), LocalTunnelError>(
                LocalTunnelError::WouldBlock,
            )
            &&& v1.phase matches Some(Phase::Receiving { header: h1, data: d1, remaining: r1 })
            &&& h1 == header
            &&& d1 + v1.inbox == data + v.inbox + bytes
            &&& d1.len() + r1 == header.frame_len
        }),
{
    let inbox = v.inbox + bytes;
    let k = if remaining < inbox.len() {
        remaining as int
    } else {
        inbox.len() as int
    };
    assert(data + inbox.take(k) + inbox.skip(k) =~= data + v.inbox + bytes);
}

/// Where a session stands on a stream made of one frame, `raw` (its header)
/// then `body`, of which the bytes `got` have arrived so far: waiting for the
/// header (stage 0), filling the payload (stage 1), or done with the frame
/// (stage 2).
pub open spec fn on_stream(v: TunnelView, raw: Seq<u8>, body: Seq<u8>, got: Seq<u8>, stage: int) -> bool {
    let all = raw + body;
    &&& view_wf(v)
    &&& v.opened
    &&& got.len() <= all.len()
    &&& got == all.take(got.len() as int)
    &&& (stage == 0 ==> v.phase == Some(Phase::ProcessStream) && v.inbox == got && got.len()
        < FRAME_HEADER_LEN)
    &&& (stage == 1 ==> got.len() >= FRAME_HEADER_LEN && match v.phase {
        Some(Phase::Receiving { header, data, remaining }) => header
            == CameraCmdFrameHeader::decoded(raw) && data + v.inbox == got.skip(
            FRAME_HEADER_LEN as int,
        ),
        _ => false,
    })
    &&& (stage == 2 ==> v.phase == Some(Phase::ProcessStream) && v.inbox.len() == 0 && got == all)
    &&& 0 <= stage <= 2
}

/// The stage after one read that brought `b`.
pub open spec fn next_stage(v: TunnelView, got: Seq<u8>, b: Seq<u8>, stage: int) -> int {
    if stage == 0 {
        if got.len() + b.len() < FRAME_HEADER_LEN {
            0
        } else {
            1
        }
    } else if stage == 1 {
        match v.phase {
            Some(Phase::Receiving { remaining, .. }) => if remaining == 0 {
                2
            } else {
                1
            },
            _ => 1,
        }
    } else {
        2
    }
}

/// However the stream of one frame (a header declaring L bytes, then those
/// L bytes) is split over ticks, every read keeps the session on the stream
/// and never moves it back; a read hands over a sample exactly when it takes
/// the session from filling the payload to done, and the sample is then the
/// whole payload with its header. Every other read asks to be called again.
/// Since done is never left, exactly one sample comes out of the frame.
#[verifier::rlimit(60)]
pub proof fn lemma_stream_step(
    v: TunnelView,
    raw: Seq<u8>,
    body: Seq<u8>,
    got: Seq<u8>,
    stage: int,
    b: Seq<u8>,
)
    requires
        raw.len() == FRAME_HEADER_LEN,
        CameraCmdFrameHeader::decoded(raw).frame_len == body.len(),
        on_stream(v, raw, body, got, stage),
        got.len() + b.len() <= raw.len() + body.len(),
        got + b == (raw + body).take(got.len() + b.len() as int),
    ensures
        ({
            let (v1, o) = read_transition(v, Ok(b));
            let st1 = next_stage(v, got, b, stage);
            &&& on_stream(v1, raw, body, got + b, st1)
            &&& stage <= st1
            &&& (o is Ok) == (stage == 1 && st1 == 2)
            &&& o is Ok ==> o == Ok::<(CameraCmdFrameHeader, Seq<u8>), LocalTunnelError>(
                (CameraCmdFrameHeader::decoded(raw), body),
            )
            &&& o is Err ==> o == Err::<(CameraCmdFrameHeader, Seq<u8>), LocalTunnelError>(
                LocalTunnelError::WouldBlock,
            )
        }),
{
    let all = raw + body;
    let g2 = got + b;
    let h = CameraCmdFrameHeader::decoded(raw);
    let n = FRAME_HEADER_LEN as int;
    if stage == 0 {
        if g2.len() >= n {
            assert(g2.take(n) =~= all.take(n));
            assert(all.take(n) =~= raw);
            assert(g2.skip(n) =~= Seq::<u8>::empty() + g2.skip(n));
        }
    } else if stage == 1 {
        match v.phase {
            Some(Phase::Receiving { header, data, remaining }) => {
                assert(g2.skip(n) =~= got.skip(n) + b);
                if remaining == 0 {
                    assert(all.skip(n) =~= body);
                    assert(got.skip(n).len() <= body.len());
                    assert(data.len() == body.len());
                    assert(v.inbox.len() == 0);
                    assert(b.len() == 0);
                    assert(got =~= all);
                    assert(data =~= got.skip(n));
                    assert(v.inbox + b =~= Seq::<u8>::empty());
                } else {
                    let inbox = v.inbox + b;
                    let k = if remaining < inbox.len() {
                        remaining as int
                    } else {
                        inbox.len() as int
                    };
                    assert(data + inbox.take(k) + inbox.skip(k) =~= g2.skip(n));
                }
            },
            _ => {},
        }
    } else {
        assert(b.len() == 0);
        assert(g2 =~= got);
        assert(v.inbox + b =~= Seq::<u8>::empty());
    }
}

/// A session waiting for a header with nothing buffered stands at the start
/// of any one-frame stream.
pub proof fn lemma_stream_start(v: TunnelView, raw: Seq<u8>, body: Seq<u8>)
    requires
        view_wf(v),
        v.phase == Some(Phase::ProcessStream),
        v.inbox.len() == 0,
    ensures
        on_stream(v, raw, body, Seq::empty(), 0),
{
    assert((raw + body).take(0) =~= Seq::<u8>::empty());
    assert(v.inbox =~= Seq::<u8>::empty());
}

/// Once every byte of the frame has arrived, at most three more reads
/// (ticks that bring nothing) finish it.
#[verifier::rlimit(60)]
pub proof fn lemma_stream_finishes(v: TunnelView, raw: Seq<u8>, body: Seq<u8>, stage: int)
    requires
        raw.len() == FRAME_HEADER_LEN,
        CameraCmdFrameHeader::decoded(raw).frame_len == body.len(),
        on_stream(v, raw, body, raw + body, stage),
    ensures
        ({
            let v1 = read_transition(v, Ok(Seq::empty())).0;
            let v2 = read_transition(v1, Ok(Seq::empty())).0;
            let v3 = read_transition(v2, Ok(Seq::empty())).0;
            on_stream(v3, raw, body, raw + body, 2)
        }),
{
    let all = raw + body;
    let e = Seq::<u8>::empty();
    assert(all + e =~= all);
    assert(all.take(all.len() as int) =~= all);
    lemma_stream_step(v, raw, body, all, stage, e);
    let v1 = read_transition(v, Ok(e)).0;
    let s1 = next_stage(v, all, e, stage);
    assert(s1 >= 1);
    lemma_stream_step(v1, raw, body, all, s1, e);
    let v2 = read_transition(v1, Ok(e)).0;
    let s2 = next_stage(v1, all, e, s1);
    if s2 == 1 {
        match v1.phase {
            Some(Phase::Receiving { header, data, remaining }) => {
                assert(all.skip(16).len() == body.len());
                assert(v1.inbox.len() == remaining);
                assert(v1.inbox + e =~= v1.inbox);
            },
            _ => {},
        }
    }
    lemma_stream_step(v2, raw, body, all, s2, e);
    let s3 = next_stage(v2, all, e, s2);
    if s3 < 2 {
        match v2.phase {
            Some(Phase::Receiving { remaining, .. }) => {
                assert(remaining == 0);
            },
            _ => {},
        }
    }
}

} // verus!
