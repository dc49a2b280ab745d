//! The per-interface protocol engine.
//!
//! One engine owns the TCP sockets and the pending outbound link-layer
//! buffer of a single network interface, and reports progress as a queue of
//! events that the owner drains one at a time. Packet formats and timers are
//! outside this model: the engine reduces each injected link frame to the
//! progress it can cause. A frame completes the handshake of the
//! lowest-numbered socket that is still opening; failing that, it addresses
//! the lowest-numbered established socket, where its leading byte
//! distinguishes a remote close (`0`), a write acknowledgement (`1`) and
//! incoming payload (anything else). A frame that no socket can consume is
//! discarded.
//!
//! Socket slots are stable until the socket is closed locally; a freed slot
//! may be reused by a later socket. Closing a socket locally discards the
//! queued events that mention it; bytes already committed to the outbound
//! buffer stay there.
//!
//! The outbound buffer grows without bound until it is drained: nothing is
//! dropped and nothing is refused. Whoever owns the engine is expected to
//! drain the buffer whenever a [`EngineEvent::CableOutReady`] notice is
//! served; a drain is destructive, the bytes are handed out exactly once.

use vstd::prelude::*;

use crate::addr::{spec_can_route, can_route, InterfaceConfig, SocketAddress};
use crate::search::{first_in, found_at, lemma_first_in};

verus! {

/// Lifecycle phase of one TCP socket.
#[derive(Clone, Copy, Debug, PartialEq, Eq, Structural)]
pub enum TcpPhase {
    /// Bound and waiting for a peer to connect.
    Listening,
    /// Connecting to a remote endpoint, handshake not yet complete.
    Connecting,
    /// Handshake complete; data can flow.
    Connected,
    /// Closed by the remote; the slot stays resolvable until closed locally.
    Closed,
}

/// State of one TCP socket inside an engine.
#[derive(Clone, Copy, Debug, PartialEq, Eq, Structural)]
pub struct TcpSocketState {
    pub phase: TcpPhase,
    pub addr: SocketAddress,
}

/// One entry of an engine's event queue, naming the socket slot it concerns.
#[derive(Clone, Copy, Debug, PartialEq, Eq, Structural)]
pub enum EngineEvent {
    /// The outbound link-layer buffer went from empty to non-empty.
    CableOutReady,
    /// The socket in the given slot finished its handshake.
    TcpConnected(usize),
    /// The socket in the given slot was closed by the remote.
    TcpClosed(usize),
    /// The socket in the given slot has data ready to be read.
    TcpReadReady(usize),
    /// The socket in the given slot finished writing pending data.
    TcpWriteFinished(usize),
}

/// Mathematical state of an engine: the addressing configuration, the socket
/// table, the queued events (front at index zero) and the pending outbound
/// bytes.
#[verifier::ext_equal]
pub struct EngineView {
    pub config: InterfaceConfig,
    pub sockets: Seq<Option<TcpSocketState>>,
    pub events: Seq<EngineEvent>,
    pub cable_out: Seq<u8>,
}

impl EngineView {
    /// A well-formed engine has a meaningful prefix length.
    pub open spec fn wf(self) -> bool {
        self.config.prefix_len <= 32
    }
}

/// A per-interface embedded TCP/IP state machine.
pub struct ProtocolEngine {
    config: InterfaceConfig,
    sockets: Vec<Option<TcpSocketState>>,
    events: Vec<EngineEvent>,
    cable_out: Vec<u8>,
}

impl View for ProtocolEngine {
    type V = EngineView;

    closed spec fn view(&self) -> EngineView {
        EngineView {
            config: self.config,
            sockets: self.sockets@,
            events: self.events@,
            cable_out: self.cable_out@,
        }
    }
}

/// Whether a slot holds a socket that is still opening.
pub open spec fn is_open_socket(s: Option<TcpSocketState>) -> bool {
    match s {
        Some(st) => st.phase == TcpPhase::Listening || st.phase == TcpPhase::Connecting,
        None => false,
    }
}

/// Whether a slot holds an established socket.
pub open spec fn is_established_socket(s: Option<TcpSocketState>) -> bool {
    match s {
        Some(st) => st.phase == TcpPhase::Connected,
        None => false,
    }
}

/// Whether a slot is free.
pub open spec fn is_free_slot(s: Option<TcpSocketState>) -> bool {
    match s {
        Some(_) => false,
        None => true,
    }
}

pub open spec fn open_pred() -> spec_fn(Option<TcpSocketState>) -> bool {
    |s: Option<TcpSocketState>| is_open_socket(s)
}

pub open spec fn established_pred() -> spec_fn(Option<TcpSocketState>) -> bool {
    |s: Option<TcpSocketState>| is_established_socket(s)
}

pub open spec fn free_pred() -> spec_fn(Option<TcpSocketState>) -> bool {
    |s: Option<TcpSocketState>| is_free_slot(s)
}

/// Lowest slot holding a socket that is still opening.
pub open spec fn first_open(sockets: Seq<Option<TcpSocketState>>) -> Option<int> {
    first_in(sockets, open_pred(), 0, sockets.len() as int)
}

/// Lowest slot holding an established socket.
pub open spec fn first_established(sockets: Seq<Option<TcpSocketState>>) -> Option<int> {
    first_in(sockets, established_pred(), 0, sockets.len() as int)
}

/// Slot the next socket goes into: the lowest free slot, or a fresh slot at
/// the end of the table.
pub open spec fn free_slot(sockets: Seq<Option<TcpSocketState>>) -> int {
    match first_in(sockets, free_pred(), 0, sockets.len() as int) {
        Some(i) => i,
        None => sockets.len() as int,
    }
}

/// Whether the slot `idx` resolves to a live socket.
pub open spec fn spec_socket_alive(e: EngineView, idx: int) -> bool {
    0 <= idx < e.sockets.len() && e.sockets[idx] is Some
}

/// The link frame the engine commits to the outbound buffer when a socket
/// starts connecting to `addr`: the four address bytes followed by the two
/// port bytes, most significant first.
pub open spec fn frame_for(addr: SocketAddress) -> Seq<u8> {
    seq![
        (addr.ip / 0x1000000) as u8,
        ((addr.ip / 0x10000) % 0x100) as u8,
        ((addr.ip / 0x100) % 0x100) as u8,
        (addr.ip % 0x100) as u8,
        (addr.port / 0x100) as u8,
        (addr.port % 0x100) as u8,
    ]
}

/// Whether an event concerns the socket in slot `idx`.
pub open spec fn spec_event_mentions(ev: EngineEvent, idx: int) -> bool {
    match ev {
        EngineEvent::CableOutReady => false,
        EngineEvent::TcpConnected(i) => i == idx,
        EngineEvent::TcpClosed(i) => i == idx,
        EngineEvent::TcpReadReady(i) => i == idx,
        EngineEvent::TcpWriteFinished(i) => i == idx,
    }
}

/// The event queue with every event that mentions slot `idx` removed, in
/// the original order.
pub open spec fn purge_events(events: Seq<EngineEvent>, idx: int) -> Seq<EngineEvent>
    decreases events.len(),
{
    if events.len() == 0 {
        Seq::empty()
    } else if spec_event_mentions(events[0], idx) {
        purge_events(events.drop_first(), idx)
    } else {
        seq![events[0]] + purge_events(events.drop_first(), idx)
    }
}

/// Appending an event to the queue and then purging keeps the event exactly
/// when it does not mention the purged slot.
pub proof fn lemma_purge_push(events: Seq<EngineEvent>, ev: EngineEvent, idx: int)
    ensures
        purge_events(events.push(ev), idx) == if spec_event_mentions(ev, idx) {
            purge_events(events, idx)
        } else {
            purge_events(events, idx).push(ev)
        },
    decreases events.len(),
{
    let pushed = events.push(ev);
    if events.len() == 0 {
        assert(pushed[0] == ev);
        assert(pushed.drop_first() =~= Seq::<EngineEvent>::empty());
        assert(purge_events(Seq::<EngineEvent>::empty(), idx) =~= Seq::<EngineEvent>::empty());
        if spec_event_mentions(ev, idx) {
            assert(purge_events(pushed, idx) =~= purge_events(events, idx));
        } else {
            assert(purge_events(pushed, idx) =~= purge_events(events, idx).push(ev));
        }
    } else {
        assert(pushed[0] == events[0]);
        assert(pushed.drop_first() =~= events.drop_first().push(ev));
        lemma_purge_push(events.drop_first(), ev, idx);
        if spec_event_mentions(ev, idx) {
            assert(purge_events(pushed, idx) =~= purge_events(events, idx));
        } else {
            if !spec_event_mentions(events[0], idx) {
                assert(seq![events[0]] + purge_events(events.drop_first(), idx).push(ev) =~= (
                seq![events[0]] + purge_events(events.drop_first(), idx)).push(ev));
            }
            assert(purge_events(pushed, idx) =~= purge_events(events, idx).push(ev));
        }
    }
}

/// A freshly constructed engine: no sockets, no events, an empty outbound
/// buffer.
pub open spec fn engine_init(config: InterfaceConfig) -> EngineView {
    EngineView {
        config,
        sockets: Seq::empty(),
        events: Seq::empty(),
        cable_out: Seq::empty(),
    }
}

/// The engine after opening a socket bound or directed to `addr`, assuming
/// the engine can route it. A listener sits quietly until a frame arrives; a
/// connecting socket commits its opening frame to the outbound buffer, with
/// a [`EngineEvent::CableOutReady`] notice if the buffer had been empty.
pub open spec fn engine_build_t(e: EngineView, listen: bool, addr: SocketAddress) -> EngineView {
    let slot = free_slot(e.sockets);
    let st = TcpSocketState {
        phase: if listen {
            TcpPhase::Listening
        } else {
            TcpPhase::Connecting
        },
        addr,
    };
    let sockets = if slot < e.sockets.len() {
        e.sockets.update(slot, Some(st))
    } else {
        e.sockets.push(Some(st))
    };
    if listen {
        EngineView { sockets, ..e }
    } else {
        EngineView {
            sockets,
            events: if e.cable_out.len() == 0 {
                e.events.push(EngineEvent::CableOutReady)
            } else {
                e.events
            },
            cable_out: e.cable_out + frame_for(addr),
            ..e
        }
    }
}

/// The engine after accepting one inbound link frame.
pub open spec fn engine_inject_t(e: EngineView, data: Seq<u8>) -> EngineView {
    if data.len() == 0 {
        e
    } else {
        match first_open(e.sockets) {
            Some(i) => {
                let addr = match e.sockets[i] {
                    Some(st) => st.addr,
                    None => SocketAddress { ip: 0, port: 0 },
                };
                let evs = e.events.push(EngineEvent::TcpConnected(i as usize));
                EngineView {
                    sockets: e.sockets.update(
                        i,
                        Some(TcpSocketState { phase: TcpPhase::Connected, addr }),
                    ),
                    events: if e.cable_out.len() == 0 {
                        evs.push(EngineEvent::CableOutReady)
                    } else {
                        evs
                    },
                    cable_out: e.cable_out + data,
                    ..e
                }
            },
            None => match first_established(e.sockets) {
                Some(j) => {
                    let addr = match e.sockets[j] {
                        Some(st) => st.addr,
                        None => SocketAddress { ip: 0, port: 0 },
                    };
                    if data[0] == 0 {
                        EngineView {
                            sockets: e.sockets.update(
                                j,
                                Some(TcpSocketState { phase: TcpPhase::Closed, addr }),
                            ),
                            events: e.events.push(EngineEvent::TcpClosed(j as usize)),
                            ..e
                        }
                    } else if data[0] == 1 {
                        EngineView { events: e.events.push(EngineEvent::TcpWriteFinished(j as usize)), ..e }
                    } else {
                        EngineView { events: e.events.push(EngineEvent::TcpReadReady(j as usize)), ..e }
                    }
                },
                None => e,
            },
        }
    }
}

/// An inbound frame only appends to the event queue: nothing already
/// queued is dropped, duplicated or reordered by an injection.
pub proof fn lemma_inject_appends(e: EngineView, data: Seq<u8>)
    ensures
        engine_inject_t(e, data).events.len() >= e.events.len(),
        engine_inject_t(e, data).events.take(e.events.len() as int) == e.events,
{
    let e2 = engine_inject_t(e, data);
    let n = e.events.len() as int;
    if data.len() == 0 {
        assert(e2.events.take(n) =~= e.events);
    } else {
        match first_open(e.sockets) {
            Some(i) => {
                assert(e2.events.take(n) =~= e.events);
            },
            None => {
                match first_established(e.sockets) {
                    Some(j) => {
                        assert(e2.events.take(n) =~= e.events);
                    },
                    None => {
                        assert(e2.events.take(n) =~= e.events);
                    },
                }
            },
        }
    }
}

/// The engine after its outbound buffer is drained.
pub open spec fn engine_drain_t(e: EngineView) -> EngineView {
    EngineView { cable_out: Seq::empty(), ..e }
}

/// The engine after its front event is taken.
pub open spec fn engine_pop_t(e: EngineView) -> EngineView {
    EngineView { events: e.events.drop_first(), ..e }
}

/// The engine after the socket in slot `idx` is closed locally: the slot is
/// freed and queued events that mention it are discarded.
pub open spec fn engine_close_t(e: EngineView, idx: int) -> EngineView {
    EngineView { sockets: e.sockets.update(idx, None), events: purge_events(e.events, idx), ..e }
}

impl ProtocolEngine {
    /// A fresh engine for an interface with the given addressing.
    pub fn new(config: InterfaceConfig) -> (r: ProtocolEngine)
        requires
            config.prefix_len <= 32,
        ensures
            r@ == engine_init(config),
            r@.wf(),
    {
        let r = ProtocolEngine {
            config,
            sockets: Vec::new(),
            events: Vec::new(),
            cable_out: Vec::new(),
        };
        proof {
            assert(r@ =~= engine_init(config));
        }
        r
    }

    /// Whether this engine can open or listen on a socket for `addr`.
    pub fn accepts(&self, listen: bool, addr: &SocketAddress) -> (r: bool)
        requires
            self@.wf(),
        ensures
            r == spec_can_route(self@.config, listen, *addr),
    {
        can_route(&self.config, listen, addr)
    }

    /// Whether the engine has an event queued.
    pub fn has_pending_event(&self) -> (r: bool)
        ensures
            r == (self@.events.len() > 0),
    {
        self.events.len() > 0
    }

    /// Whether slot `idx` resolves to a live socket.
    pub fn socket_alive(&self, idx: usize) -> (r: bool)
        ensures
            r == spec_socket_alive(self@, idx as int),
    {
        idx < self.sockets.len() && self.sockets[idx].is_some()
    }

    /// Lowest slot holding a socket that is still opening.
    fn find_open(&self) -> (r: Option<usize>)
        ensures
            found_at(r) == first_open(self@.sockets),
            r matches Some(i) ==> ((i as int) < self@.sockets.len() && is_open_socket(
                self@.sockets[i as int],
            )),
    {
        let mut k: usize = 0;
        while k < self.sockets.len()
            invariant
                k <= self.sockets@.len(),
                forall|j: int| 0 <= j < k ==> !is_open_socket(self.sockets@[j]),
            decreases self.sockets@.len() - k,
        {
            let hit = match self.sockets[k] {
                Some(st) => st.phase == TcpPhase::Listening || st.phase == TcpPhase::Connecting,
                None => false,
            };
            if hit {
                proof {
                    lemma_first_in(self@.sockets, open_pred(), 0, self@.sockets.len() as int);
                }
                return Some(k);
            }
            k += 1;
        }
        proof {
            lemma_first_in(self@.sockets, open_pred(), 0, self@.sockets.len() as int);
        }
        None
    }

    /// Lowest slot holding an established socket.
    fn find_established(&self) -> (r: Option<usize>)
        ensures
            found_at(r) == first_established(self@.sockets),
            r matches Some(i) ==> ((i as int) < self@.sockets.len() && is_established_socket(
                self@.sockets[i as int],
            )),
    {
        let mut k: usize = 0;
        while k < self.sockets.len()
            invariant
                k <= self.sockets@.len(),
                forall|j: int| 0 <= j < k ==> !is_established_socket(self.sockets@[j]),
            decreases self.sockets@.len() - k,
        {
            let hit = match self.sockets[k] {
                Some(st) => st.phase == TcpPhase::Connected,
                None => false,
            };
            if hit {
                proof {
                    lemma_first_in(self@.sockets, established_pred(), 0, self@.sockets.len() as int);
                }
                return Some(k);
            }
            k += 1;
        }
        proof {
            lemma_first_in(self@.sockets, established_pred(), 0, self@.sockets.len() as int);
        }
        None
    }

    /// Slot the next socket goes into.
    fn find_free_slot(&self) -> (r: usize)
        ensures
            r as int == free_slot(self@.sockets),
            r as int <= self@.sockets.len(),
    {
        let mut k: usize = 0;
        while k < self.sockets.len()
            invariant
                k <= self.sockets@.len(),
                forall|j: int| 0 <= j < k ==> !is_free_slot(self.sockets@[j]),
            decreases self.sockets@.len() - k,
        {
            let hit = match self.sockets[k] {
                Some(_) => false,
                None => true,
            };
            if hit {
                proof {
                    lemma_first_in(self@.sockets, free_pred(), 0, self@.sockets.len() as int);
                }
                return k;
            }
            k += 1;
        }
        proof {
            lemma_first_in(self@.sockets, free_pred(), 0, self@.sockets.len() as int);
        }
        k
    }

    /// Appends the opening frame for `addr` to the outbound buffer.
    fn push_frame(&mut self, addr: &SocketAddress)
        ensures
            final(self)@ == (EngineView { cable_out: old(self)@.cable_out + frame_for(*addr), ..old(self)@ }),
    {
        self.cable_out.push((addr.ip / 0x1000000) as u8);
        self.cable_out.push(((addr.ip / 0x10000) % 0x100) as u8);
        self.cable_out.push(((addr.ip / 0x100) % 0x100) as u8);
        self.cable_out.push((addr.ip % 0x100) as u8);
        self.cable_out.push((addr.port / 0x100) as u8);
        self.cable_out.push((addr.port % 0x100) as u8);
        proof {
            assert(self@.cable_out =~= old(self)@.cable_out + frame_for(*addr));
            assert(self@ =~= (EngineView { cable_out: old(self)@.cable_out + frame_for(*addr), ..old(self)@ }));
        }
    }

    /// Opens a TCP socket bound or directed to `addr`. Fails, changing
    /// nothing, exactly when the engine cannot route the address.
    pub fn build_tcp_socket(&mut self, listen: bool, addr: &SocketAddress) -> (r: Result<usize, ()>)
        requires
            old(self)@.wf(),
        ensures
            final(self)@.wf(),
            spec_can_route(old(self)@.config, listen, *addr) ==> (r matches Ok(slot)
                && slot as int == free_slot(old(self)@.sockets)
                && final(self)@ == engine_build_t(old(self)@, listen, *addr)),
            !spec_can_route(old(self)@.config, listen, *addr) ==> (r matches Err(_)
                && final(self)@ == old(self)@),
    {
        if !can_route(&self.config, listen, addr) {
            return Err(());
        }
        let slot = self.find_free_slot();
        let st = TcpSocketState {
            phase: if listen {
                TcpPhase::Listening
            } else {
                TcpPhase::Connecting
            },
            addr: *addr,
        };
        if slot < self.sockets.len() {
            let slot_ref = &mut self.sockets[slot];
            *slot_ref = Some(st);
        } else {
            self.sockets.push(Some(st));
        }
        if !listen {
            if self.cable_out.len() == 0 {
                self.events.push(EngineEvent::CableOutReady);
            }
            self.push_frame(addr);
        }
        proof {
            assert(self@ =~= engine_build_t(old(self)@, listen, *addr));
        }
        Ok(slot)
    }

    /// Accepts one inbound link frame and records the progress it causes.
    pub fn inject_interface_data(&mut self, data: &[u8])
        ensures
            final(self)@ == engine_inject_t(old(self)@, data@),
    {
        if data.len() == 0 {
            return;
        }
        match self.find_open() {
            Some(i) => {
                let addr = match self.sockets[i] {
                    Some(st) => st.addr,
                    None => SocketAddress { ip: 0, port: 0 },
                };
                let was_empty = self.cable_out.len() == 0;
                let slot_ref = &mut self.sockets[i];
                *slot_ref = Some(TcpSocketState { phase: TcpPhase::Connected, addr });
                self.events.push(EngineEvent::TcpConnected(i));
                if was_empty {
                    self.events.push(EngineEvent::CableOutReady);
                }
                self.cable_out.extend_from_slice(data);
                proof {
                    assert(self@ =~= engine_inject_t(old(self)@, data@));
                }
            },
            None => {
                match self.find_established() {
                    Some(j) => {
                        let addr = match self.sockets[j] {
                            Some(st) => st.addr,
                            None => SocketAddress { ip: 0, port: 0 },
                        };
                        if data[0] == 0 {
                            let slot_ref = &mut self.sockets[j];
                            *slot_ref = Some(TcpSocketState { phase: TcpPhase::Closed, addr });
                            self.events.push(EngineEvent::TcpClosed(j));
                        } else if data[0] == 1 {
                            self.events.push(EngineEvent::TcpWriteFinished(j));
                        } else {
                            self.events.push(EngineEvent::TcpReadReady(j));
                        }
                        proof {
                            assert(self@ =~= engine_inject_t(old(self)@, data@));
                        }
                    },
                    None => {
                        proof {
                            assert(self@ =~= engine_inject_t(old(self)@, data@));
                        }
                    },
                }
            },
        }
    }

    /// Drains the pending outbound bytes. A second drain with no activity
    /// in between returns an empty buffer.
    pub fn read_ethernet_cable_out(&mut self) -> (r: Vec<u8>)
        ensures
            r@ == old(self)@.cable_out,
            final(self)@ == engine_drain_t(old(self)@),
    {
        let mut drained: Vec<u8> = Vec::new();
        core::mem::swap(&mut drained, &mut self.cable_out);
        proof {
            assert(self@ =~= engine_drain_t(old(self)@));
        }
        drained
    }

    /// Takes the front event of the queue, if any.
    pub fn pop_event(&mut self) -> (r: Option<EngineEvent>)
        ensures
            old(self)@.events.len() > 0 ==> r == Some(old(self)@.events[0])
                && final(self)@ == engine_pop_t(old(self)@),
            old(self)@.events.len() == 0 ==> r is None && final(self)@ == old(self)@,
    {
        if self.events.len() > 0 {
            let ev = self.events.remove(0);
            proof {
                assert(self@.events =~= old(self)@.events.drop_first());
                assert(self@ =~= engine_pop_t(old(self)@));
            }
            Some(ev)
        } else {
            None
        }
    }

    /// Closes the socket in slot `idx` locally: frees the slot and discards
    /// the queued events that mention it. Fails, changing nothing, when the
    /// slot holds no live socket.
    pub fn close_socket(&mut self, idx: usize) -> (r: Result<(), ()>)
        ensures
            spec_socket_alive(old(self)@, idx as int) ==> (r matches Ok(_)
                && final(self)@ == engine_close_t(old(self)@, idx as int)),
            !spec_socket_alive(old(self)@, idx as int) ==> (r matches Err(_)
                && final(self)@ == old(self)@),
    {
        if !self.socket_alive(idx) {
            return Err(());
        }
        let ghost all_events = self.events@;
        let mut kept: Vec<EngineEvent> = Vec::new();
        let mut k: usize = 0;
        while k < self.events.len()
            invariant
                k <= self.events@.len(),
                self.events@ == all_events,
                kept@ == purge_events(all_events.take(k as int), idx as int),
            decreases self.events@.len() - k,
        {
            let ev = self.events[k];
            let mentions = match ev {
                EngineEvent::CableOutReady => false,
                EngineEvent::TcpConnected(i) => i == idx,
                EngineEvent::TcpClosed(i) => i == idx,
                EngineEvent::TcpReadReady(i) => i == idx,
                EngineEvent::TcpWriteFinished(i) => i == idx,
            };
            if !mentions {
                kept.push(ev);
            }
            proof {
                lemma_purge_push(all_events.take(k as int), all_events[k as int], idx as int);
                assert(all_events.take(k + 1) =~= all_events.take(k as int).push(all_events[k as int]));
            }
            k += 1;
        }
        proof {
            assert(all_events.take(all_events.len() as int) =~= all_events);
        }
        self.events = kept;
        let slot_ref = &mut self.sockets[idx];
        *slot_ref = None;
        proof {
            assert(self@ =~= engine_close_t(old(self)@, idx as int));
        }
        Ok(())
    }
}

} // verus!
