//! The network manager: a registry of interfaces, each pairing one protocol
//! engine with caller-supplied user data, multiplexed into a single event
//! stream.
//!
//! Registration is keyed by an [`InterfaceId`]; at most one device exists per
//! identifier at any time, and a duplicate registration fails without
//! changing the registry. Every operation that names an interface or a
//! socket reports an unknown reference as a recoverable error, never by
//! aborting. [`NetworkManager::next_event`] multiplexes the devices' event
//! queues with a round-robin cursor: the scan starts at the device after the
//! one served last, so a device with a pending event is never passed over
//! indefinitely in favour of another.

use vstd::prelude::*;

use crate::addr::{spec_can_route, InterfaceConfig, SocketAddress};
use crate::engine::{
    engine_build_t, engine_close_t, engine_drain_t, engine_init, engine_inject_t, engine_pop_t,
    free_slot, spec_socket_alive, EngineEvent, EngineView, ProtocolEngine,
};
use crate::search::{first_in, found_at, lemma_first_in, lemma_first_in_congruence};

verus! {

/// Key naming one registered network interface.
#[derive(Clone, Copy, Debug, PartialEq, Eq, Hash, Structural)]
pub struct InterfaceId(pub u64);

/// Durable identifier of a socket: the owning interface and the socket's
/// slot within that interface's engine. It stays valid across calls and may
/// outlive the socket; resolving a stale identifier reports "not found".
#[derive(Clone, Copy, Debug, PartialEq, Eq, Structural)]
pub struct SocketId {
    pub interface: InterfaceId,
    pub socket: usize,
}

/// Call-scoped handle to one TCP socket inside one registered device.
#[derive(Clone, Copy, Debug, PartialEq, Eq, Structural)]
pub struct TcpSocket {
    pub interface: InterfaceId,
    pub socket: usize,
}

/// Event surfaced by [`NetworkManager::next_event`], tagged with the owning
/// interface.
#[derive(Clone, Copy, Debug, PartialEq, Eq, Structural)]
pub enum NetworkManagerEvent {
    /// Data to be sent out of the named interface's Ethernet cable is
    /// available; drain it with [`NetworkManager::read_ethernet_cable_out`].
    EthernetCableOut(InterfaceId),
    /// A TCP socket has connected to its target.
    TcpConnected(TcpSocket),
    /// A TCP socket has been closed by the remote.
    TcpClosed(TcpSocket),
    /// A TCP socket has data ready to be read.
    TcpReadReady(TcpSocket),
    /// A TCP socket has finished writing the data that was passed to it.
    TcpWriteFinished(TcpSocket),
}

/// Why a registration was refused.
#[derive(Clone, Copy, Debug, PartialEq, Eq, Structural)]
pub enum RegisterError {
    /// An interface with the same identifier is already registered.
    DuplicateId,
    /// The configuration names a network prefix longer than 32 bits.
    InvalidPrefix,
}

/// Why an operation on the registry failed.
#[derive(Clone, Copy, Debug, PartialEq, Eq, Structural)]
pub enum NetworkError {
    /// No registered interface has the given identifier.
    InterfaceNotFound,
    /// The interface exists but the named socket slot holds no live socket.
    SocketNotFound,
    /// No registered interface can route the given address.
    NoRoute,
}

/// One registered interface: an engine and the caller's user data.
struct Device<U> {
    id: InterfaceId,
    engine: ProtocolEngine,
    user_data: U,
}

/// Mathematical state of one registered interface.
#[verifier::ext_equal]
pub struct DeviceView<U> {
    pub id: InterfaceId,
    pub engine: EngineView,
    pub user_data: U,
}

impl<U> View for Device<U> {
    type V = DeviceView<U>;

    closed spec fn view(&self) -> DeviceView<U> {
        DeviceView { id: self.id, engine: self.engine@, user_data: self.user_data }
    }
}

/// Mathematical state of the manager: the registered devices in registry
/// order, and the round-robin cursor of the multiplexer.
#[verifier::ext_equal]
pub struct ManagerView<U> {
    pub devices: Seq<DeviceView<U>>,
    pub cursor: int,
}

impl<U> ManagerView<U> {
    /// Identifiers are unique, engines are well-formed, and the cursor
    /// stays within the registry.
    pub open spec fn wf(self) -> bool {
        &&& forall|i: int, j: int|
            0 <= i < j < self.devices.len() ==> self.devices[i].id != self.devices[j].id
        &&& forall|i: int| 0 <= i < self.devices.len() ==> (#[trigger] self.devices[i]).engine.wf()
        &&& 0 <= self.cursor <= self.devices.len()
    }
}

/// State machine managing all the network interfaces and sockets.
///
/// `U` is caller-supplied per-interface user data.
pub struct NetworkManager<U> {
    devices: Vec<Device<U>>,
    next_poll: usize,
}

impl<U> View for NetworkManager<U> {
    type V = ManagerView<U>;

    closed spec fn view(&self) -> ManagerView<U> {
        ManagerView {
            devices: self.devices@.map(|i: int, d: Device<U>| d@),
            cursor: self.next_poll as int,
        }
    }
}

/// Whether a device carries the given identifier.
pub open spec fn dev_id_pred<U>(id: InterfaceId) -> spec_fn(DeviceView<U>) -> bool {
    |d: DeviceView<U>| d.id == id
}

/// Registry position of the interface with the given identifier, if any.
pub open spec fn device_index<U>(m: ManagerView<U>, id: InterfaceId) -> Option<int> {
    first_in(m.devices, dev_id_pred(id), 0, m.devices.len() as int)
}

/// Whether an interface with the given identifier is registered.
pub open spec fn has_interface<U>(m: ManagerView<U>, id: InterfaceId) -> bool {
    device_index(m, id) is Some
}

/// The manager after registering a fresh interface: the device is appended
/// to the registry with a newly initialised engine.
pub open spec fn register_t<U>(
    m: ManagerView<U>,
    id: InterfaceId,
    config: InterfaceConfig,
    user_data: U,
) -> ManagerView<U> {
    ManagerView {
        devices: m.devices.push(DeviceView { id, engine: engine_init(config), user_data }),
        cursor: m.cursor,
    }
}

/// The manager after unregistering an interface: its device is removed, and
/// the multiplexer cursor is reset if it would point past the end.
pub open spec fn unregister_t<U>(m: ManagerView<U>, id: InterfaceId) -> ManagerView<U> {
    match device_index(m, id) {
        Some(i) => {
            let devices = m.devices.remove(i);
            ManagerView {
                devices,
                cursor: if m.cursor > devices.len() {
                    0
                } else {
                    m.cursor
                },
            }
        },
        None => m,
    }
}

/// The manager after one inbound link frame is handed to the interface with
/// the given identifier; every other device is untouched.
pub open spec fn inject_t<U>(m: ManagerView<U>, id: InterfaceId, data: Seq<u8>) -> ManagerView<U> {
    ManagerView {
        devices: m.devices.map(
            |i: int, d: DeviceView<U>|
                if d.id == id {
                    DeviceView { engine: engine_inject_t(d.engine, data), ..d }
                } else {
                    d
                },
        ),
        ..m
    }
}

/// The manager after the outbound buffer of the interface with the given
/// identifier is drained; every other device is untouched.
pub open spec fn drain_t<U>(m: ManagerView<U>, id: InterfaceId) -> ManagerView<U> {
    ManagerView {
        devices: m.devices.map(
            |i: int, d: DeviceView<U>|
                if d.id == id {
                    DeviceView { engine: engine_drain_t(d.engine), ..d }
                } else {
                    d
                },
        ),
        ..m
    }
}

/// The bytes a drain of the interface with the given identifier returns:
/// its whole pending outbound buffer.
pub open spec fn drain_result<U>(m: ManagerView<U>, id: InterfaceId) -> Seq<u8> {
    match device_index(m, id) {
        Some(i) => m.devices[i].engine.cable_out,
        None => Seq::empty(),
    }
}

/// Whether a socket identifier resolves to a live socket: its interface is
/// registered and its slot holds a socket.
pub open spec fn resolves<U>(m: ManagerView<U>, sid: SocketId) -> bool {
    match device_index(m, sid.interface) {
        Some(i) => spec_socket_alive(m.devices[i].engine, sid.socket as int),
        None => false,
    }
}

/// The manager after the socket named by `sid` is closed locally; every
/// other device is untouched.
pub open spec fn close_t<U>(m: ManagerView<U>, sid: SocketId) -> ManagerView<U> {
    ManagerView {
        devices: m.devices.map(
            |i: int, d: DeviceView<U>|
                if d.id == sid.interface {
                    DeviceView { engine: engine_close_t(d.engine, sid.socket as int), ..d }
                } else {
                    d
                },
        ),
        ..m
    }
}

impl<U> NetworkManager<U> {
    /// A manager with no registered interfaces.
    pub fn new() -> (r: NetworkManager<U>)
        ensures
            r@.devices.len() == 0,
            r@.cursor == 0,
            r@.wf(),
    {
        let r = NetworkManager { devices: Vec::new(), next_poll: 0 };
        proof {
            assert(r@.devices =~= Seq::<DeviceView<U>>::empty());
        }
        r
    }

    /// Registry position of the interface with the given identifier.
    fn find_interface(&self, id: &InterfaceId) -> (r: Option<usize>)
        ensures
            found_at(r) == device_index(self@, *id),
            r matches Some(i) ==> ((i as int) < self@.devices.len() && self@.devices[i as int].id
                == *id),
    {
        let mut k: usize = 0;
        while k < self.devices.len()
            invariant
                k <= self.devices@.len(),
                forall|j: int| 0 <= j < k ==> self@.devices[j].id != *id,
            decreases self.devices@.len() - k,
        {
            if self.devices[k].id.0 == id.0 {
                proof {
                    assert(self@.devices[k as int].id == *id);
                    assert(dev_id_pred::<U>(*id)(self@.devices[k as int]));
                    lemma_first_in(self@.devices, dev_id_pred(*id), 0, self@.devices.len() as int);
                }
                return Some(k);
            }
            k += 1;
        }
        proof {
            lemma_first_in(self@.devices, dev_id_pred(*id), 0, self@.devices.len() as int);
        }
        None
    }

    /// Whether an interface with the given identifier is registered.
    pub fn contains_interface(&self, id: &InterfaceId) -> (r: bool)
        ensures
            r == has_interface(self@, *id),
    {
        self.find_interface(id).is_some()
    }

    /// Registers an interface under the given identifier with the given
    /// addressing. Fails without changing the registry if the identifier is
    /// already taken or the prefix length exceeds 32 bits.
    pub fn register_interface(
        &mut self,
        id: InterfaceId,
        config: InterfaceConfig,
        user_data: U,
    ) -> (r: Result<(), RegisterError>)
        requires
            old(self)@.wf(),
        ensures
            final(self)@.wf(),
            config.prefix_len > 32 ==> (r == Err::<(), RegisterError>(RegisterError::InvalidPrefix)
                && final(self)@ == old(self)@),
            config.prefix_len <= 32 && has_interface(old(self)@, id) ==> (r == Err::<
                (),
                RegisterError,
            >(RegisterError::DuplicateId) && final(self)@ == old(self)@),
            config.prefix_len <= 32 && !has_interface(old(self)@, id) ==> (r == Ok::<
                (),
                RegisterError,
            >(()) && final(self)@ == register_t(old(self)@, id, config, user_data)),
    {
        if config.prefix_len > 32 {
            return Err(RegisterError::InvalidPrefix);
        }
        match self.find_interface(&id) {
            Some(_) => Err(RegisterError::DuplicateId),
            None => {
                proof {
                    lemma_first_in(self@.devices, dev_id_pred::<U>(id), 0, self@.devices.len() as int);
                }
                let engine = ProtocolEngine::new(config);
                self.devices.push(Device { id, engine, user_data });
                proof {
                    assert(self@.devices =~= register_t(old(self)@, id, config, user_data).devices);
                    assert(self@ =~= register_t(old(self)@, id, config, user_data));
                }
                Ok(())
            },
        }
    }

    /// Unregisters the interface with the given identifier, removing its
    /// device and every socket inside it. Socket identifiers that referenced
    /// the interface stop resolving. Fails if the identifier is unknown.
    pub fn unregister_interface(&mut self, id: &InterfaceId) -> (r: Result<(), NetworkError>)
        requires
            old(self)@.wf(),
        ensures
            final(self)@.wf(),
            final(self)@ == unregister_t(old(self)@, *id),
            has_interface(old(self)@, *id) ==> r == Ok::<(), NetworkError>(()),
            !has_interface(old(self)@, *id) ==> r == Err::<(), NetworkError>(
                NetworkError::InterfaceNotFound,
            ),
    {
        match self.find_interface(id) {
            None => Err(NetworkError::InterfaceNotFound),
            Some(i) => {
                self.devices.remove(i);
                if self.next_poll > self.devices.len() {
                    self.next_poll = 0;
                }
                proof {
                    assert(self@.devices =~= unregister_t(old(self)@, *id).devices);
                    assert(self@ =~= unregister_t(old(self)@, *id));
                    assert forall|a: int, b: int|
                        0 <= a < b < self@.devices.len() implies self@.devices[a].id
                        != self@.devices[b].id by {
                        assert(self@.devices[a] == if a < i {
                            old(self)@.devices[a]
                        } else {
                            old(self)@.devices[a + 1]
                        });
                        assert(self@.devices[b] == if b < i {
                            old(self)@.devices[b]
                        } else {
                            old(self)@.devices[b + 1]
                        });
                    }
                    assert forall|a: int| 0 <= a < self@.devices.len() implies (#[trigger] self@.devices[a]).engine.wf() by {
                        assert(self@.devices[a] == if a < i {
                            old(self)@.devices[a]
                        } else {
                            old(self)@.devices[a + 1]
                        });
                    }
                }
                Ok(())
            },
        }
    }

    /// Mutable access to the device at registry position `i`.
    fn device_mut(&mut self, i: usize) -> (d: &mut Device<U>)
        requires
            i < old(self).devices@.len(),
        ensures
            *d == old(self).devices@[i as int],
            final(self).devices@ == old(self).devices@.update(i as int, *final(d)),
            final(self).next_poll == old(self).next_poll,
    {
        &mut self.devices[i]
    }

    /// Injects data coming from the named interface's Ethernet cable into
    /// its engine. Fails, changing nothing, if the identifier is unknown.
    pub fn inject_interface_data(&mut self, id: &InterfaceId, data: &[u8]) -> (r: Result<
        (),
        NetworkError,
    >)
        requires
            old(self)@.wf(),
        ensures
            final(self)@.wf(),
            has_interface(old(self)@, *id) ==> (r == Ok::<(), NetworkError>(()) && final(self)@
                == inject_t(old(self)@, *id, data@)),
            !has_interface(old(self)@, *id) ==> (r == Err::<(), NetworkError>(
                NetworkError::InterfaceNotFound,
            ) && final(self)@ == old(self)@),
    {
        let ghost m0 = self@;
        match self.find_interface(id) {
            None => Err(NetworkError::InterfaceNotFound),
            Some(i) => {
                proof {
                    lemma_unique_id(m0, i as int);
                }
                let d = self.device_mut(i);
                d.engine.inject_interface_data(data);
                proof {
                    assert(self@.devices =~= inject_t(m0, *id, data@).devices);
                    assert(self@ =~= inject_t(m0, *id, data@));
                    lemma_same_shape_wf(m0, self@);
                }
                Ok(())
            },
        }
    }

    /// Extracts the data to transmit out of the named interface's Ethernet
    /// cable, draining its pending outbound buffer. A second call with no
    /// intervening activity returns an empty buffer. Fails if the
    /// identifier is unknown.
    pub fn read_ethernet_cable_out(&mut self, id: &InterfaceId) -> (r: Result<Vec<u8>, NetworkError>)
        requires
            old(self)@.wf(),
        ensures
            final(self)@.wf(),
            has_interface(old(self)@, *id) ==> (r matches Ok(buf) && buf@ == drain_result(
                old(self)@,
                *id,
            ) && final(self)@ == drain_t(old(self)@, *id)),
            !has_interface(old(self)@, *id) ==> (r matches Err(e) && e
                == NetworkError::InterfaceNotFound && final(self)@ == old(self)@),
    {
        let ghost m0 = self@;
        match self.find_interface(id) {
            None => Err(NetworkError::InterfaceNotFound),
            Some(i) => {
                proof {
                    lemma_unique_id(m0, i as int);
                }
                let d = self.device_mut(i);
                let buf = d.engine.read_ethernet_cable_out();
                proof {
                    assert(self@.devices =~= drain_t(m0, *id).devices);
                    assert(self@ =~= drain_t(m0, *id));
                    lemma_same_shape_wf(m0, self@);
                }
                Ok(buf)
            },
        }
    }

    /// Mutable access to the user data of the named interface, or nothing
    /// if the identifier is unknown.
    pub fn interface_user_data(&mut self, id: &InterfaceId) -> (r: Option<&mut U>)
        requires
            old(self)@.wf(),
        ensures
            final(self)@.wf(),
            match device_index(old(self)@, *id) {
                Some(i) => r matches Some(u) && *u == old(self)@.devices[i].user_data
                    && final(self)@ == (ManagerView {
                    devices: old(self)@.devices.update(
                        i,
                        DeviceView { user_data: *final(u), ..old(self)@.devices[i] },
                    ),
                    ..old(self)@
                }),
                None => r is None && final(self)@ == old(self)@,
            },
    {
        let ghost m0 = self@;
        match self.find_interface(id) {
            None => None,
            Some(i) => {
                let d = self.device_mut(i);
                let u = &mut d.user_data;
                proof {
                    assert(after_borrow(self)@.devices =~= m0.devices.update(
                        i as int,
                        DeviceView { user_data: *final(u), ..m0.devices[i as int] },
                    ));
                    lemma_same_shape_wf(m0, after_borrow(self)@);
                }
                Some(u)
            },
        }
    }

    /// Resolves a durable socket identifier to a live handle. Returns
    /// nothing — not an error — if the interface or the socket is gone.
    pub fn tcp_socket_by_id(&self, sid: &SocketId) -> (r: Option<TcpSocket>)
        ensures
            resolves(self@, *sid) ==> r == Some(
                TcpSocket { interface: sid.interface, socket: sid.socket },
            ),
            !resolves(self@, *sid) ==> r is None,
    {
        match self.find_interface(&sid.interface) {
            None => None,
            Some(i) => {
                if self.devices[i].engine.socket_alive(sid.socket) {
                    Some(TcpSocket { interface: sid.interface, socket: sid.socket })
                } else {
                    None
                }
            },
        }
    }

    /// Closes the socket named by `sid`: frees its slot in the owning
    /// engine and discards queued events that mention it. After the call
    /// the identifier no longer resolves. Fails, changing nothing, if the
    /// interface or the socket is gone.
    pub fn close_tcp_socket(&mut self, sid: &SocketId) -> (r: Result<(), NetworkError>)
        requires
            old(self)@.wf(),
        ensures
            final(self)@.wf(),
            resolves(old(self)@, *sid) ==> (r == Ok::<(), NetworkError>(()) && final(self)@
                == close_t(old(self)@, *sid)),
            !resolves(old(self)@, *sid) && !has_interface(old(self)@, sid.interface) ==> (r
                == Err::<(), NetworkError>(NetworkError::InterfaceNotFound) && final(self)@ == old(self)@),
            !resolves(old(self)@, *sid) && has_interface(old(self)@, sid.interface) ==> (r
                == Err::<(), NetworkError>(NetworkError::SocketNotFound) && final(self)@ == old(self)@),
    {
        let ghost m0 = self@;
        match self.find_interface(&sid.interface) {
            None => Err(NetworkError::InterfaceNotFound),
            Some(i) => {
                proof {
                    lemma_unique_id(m0, i as int);
                }
                let d = self.device_mut(i);
                match d.engine.close_socket(sid.socket) {
                    Err(_) => {
                        proof {
                            assert(self@.devices =~= m0.devices);
                            assert(self@ =~= m0);
                        }
                        Err(NetworkError::SocketNotFound)
                    },
                    Ok(_) => {
                        proof {
                            assert(self@.devices =~= close_t(m0, *sid).devices);
                            assert(self@ =~= close_t(m0, *sid));
                            lemma_same_shape_wf(m0, self@);
                        }
                        Ok(())
                    },
                }
            },
        }
    }
}

/// Whether a device can route a socket bound or directed to `addr`.
pub open spec fn routable_pred<U>(listen: bool, addr: SocketAddress) -> spec_fn(DeviceView<U>) -> bool {
    |d: DeviceView<U>| spec_can_route(d.engine.config, listen, addr)
}

/// Registry position of the first device that can route `addr`, if any.
/// The scan follows registry order, so the selection is a function of the
/// registry state alone.
pub open spec fn route_index<U>(m: ManagerView<U>, listen: bool, addr: SocketAddress) -> Option<
    int,
> {
    first_in(m.devices, routable_pred(listen, addr), 0, m.devices.len() as int)
}

/// The manager after a socket for `addr` is opened on the first device that
/// can route it; every other device is untouched.
pub open spec fn build_t<U>(m: ManagerView<U>, listen: bool, addr: SocketAddress) -> ManagerView<
    U,
> {
    match route_index(m, listen, addr) {
        Some(i) => ManagerView {
            devices: m.devices.update(
                i,
                DeviceView { engine: engine_build_t(m.devices[i].engine, listen, addr), ..m.devices[i] },
            ),
            ..m
        },
        None => m,
    }
}

/// Whether a device has an event queued.
pub open spec fn ready_pred<U>() -> spec_fn(DeviceView<U>) -> bool {
    |d: DeviceView<U>| d.engine.events.len() > 0
}

/// Registry position the multiplexer serves next: the first ready device at
/// or after the cursor, wrapping around to the front if none is found.
pub open spec fn serve_index<U>(m: ManagerView<U>) -> Option<int> {
    match first_in(m.devices, ready_pred(), m.cursor, m.devices.len() as int) {
        Some(i) => Some(i),
        None => first_in(m.devices, ready_pred(), 0, m.cursor),
    }
}

/// An engine event of the named interface, as the manager surfaces it.
pub open spec fn wrap_event(id: InterfaceId, ev: EngineEvent) -> NetworkManagerEvent {
    match ev {
        EngineEvent::CableOutReady => NetworkManagerEvent::EthernetCableOut(id),
        EngineEvent::TcpConnected(s) => NetworkManagerEvent::TcpConnected(
            TcpSocket { interface: id, socket: s },
        ),
        EngineEvent::TcpClosed(s) => NetworkManagerEvent::TcpClosed(
            TcpSocket { interface: id, socket: s },
        ),
        EngineEvent::TcpReadReady(s) => NetworkManagerEvent::TcpReadReady(
            TcpSocket { interface: id, socket: s },
        ),
        EngineEvent::TcpWriteFinished(s) => NetworkManagerEvent::TcpWriteFinished(
            TcpSocket { interface: id, socket: s },
        ),
    }
}

/// The manager after one multiplexing step: the served device loses its
/// front event and the cursor moves just past the served device.
pub open spec fn next_t<U>(m: ManagerView<U>) -> ManagerView<U> {
    match serve_index(m) {
        Some(i) => ManagerView {
            devices: m.devices.update(
                i,
                DeviceView { engine: engine_pop_t(m.devices[i].engine), ..m.devices[i] },
            ),
            cursor: i + 1,
        },
        None => m,
    }
}

/// What one multiplexing step returns: the front event of the served
/// device, tagged with its interface, or nothing if no device is ready.
pub open spec fn next_result<U>(m: ManagerView<U>) -> Option<NetworkManagerEvent> {
    match serve_index(m) {
        Some(i) => Some(wrap_event(m.devices[i].id, m.devices[i].engine.events[0])),
        None => None,
    }
}

impl<U> NetworkManager<U> {
    /// First registry position in `[lo, hi)` holding a device with a queued
    /// event.
    fn find_ready_in(&self, lo: usize, hi: usize) -> (r: Option<usize>)
        requires
            lo <= hi <= self@.devices.len(),
        ensures
            found_at(r) == first_in(self@.devices, ready_pred::<U>(), lo as int, hi as int),
            r matches Some(i) ==> (lo <= i < hi && self@.devices[i as int].engine.events.len() > 0),
    {
        let mut k: usize = lo;
        while k < hi
            invariant
                lo <= k <= hi <= self.devices@.len(),
                forall|j: int| lo <= j < k ==> self@.devices[j].engine.events.len() == 0,
            decreases hi - k,
        {
            if self.devices[k].engine.has_pending_event() {
                proof {
                    assert(ready_pred::<U>()(self@.devices[k as int]));
                    lemma_first_in(self@.devices, ready_pred::<U>(), lo as int, hi as int);
                }
                return Some(k);
            }
            k += 1;
        }
        proof {
            lemma_first_in(self@.devices, ready_pred::<U>(), lo as int, hi as int);
        }
        None
    }

    /// Opens a TCP socket bound or directed to `addr` on the first
    /// registered interface that can route it, scanning in registry order.
    /// Fails with [`NetworkError::NoRoute`], changing nothing, if no
    /// interface can.
    pub fn build_tcp_socket(&mut self, listen: bool, addr: &SocketAddress) -> (r: Result<
        TcpSocket,
        NetworkError,
    >)
        requires
            old(self)@.wf(),
        ensures
            final(self)@.wf(),
            match route_index(old(self)@, listen, *addr) {
                Some(i) => r matches Ok(s) && s.interface == old(self)@.devices[i].id
                    && s.socket as int == free_slot(old(self)@.devices[i].engine.sockets)
                    && final(self)@ == build_t(old(self)@, listen, *addr),
                None => r == Err::<TcpSocket, NetworkError>(NetworkError::NoRoute) && final(self)@
                    == old(self)@,
            },
    {
        let ghost m0 = self@;
        let mut k: usize = 0;
        while k < self.devices.len()
            invariant
                k <= self.devices@.len(),
                self@ == m0,
                m0 == old(self)@,
                m0.wf(),
                forall|j: int| 0 <= j < k ==> !spec_can_route(
                    m0.devices[j].engine.config,
                    listen,
                    *addr,
                ),
            decreases self.devices@.len() - k,
        {
            proof {
                assert(self@.devices[k as int] == self.devices@[k as int]@);
                assert(self@.devices[k as int].engine.wf());
            }
            if self.devices[k].engine.accepts(listen, addr) {
                proof {
                    assert(routable_pred::<U>(listen, *addr)(m0.devices[k as int]));
                    lemma_first_in(m0.devices, routable_pred(listen, *addr), 0, m0.devices.len() as int);
                    assert(route_index(m0, listen, *addr) == Some(k as int));
                }
                let ghost d0 = self.devices@[k as int];
                proof {
                    assert(d0@ == m0.devices[k as int]);
                }
                let d = self.device_mut(k);
                let dev_id = d.id;
                match d.engine.build_tcp_socket(listen, addr) {
                    Ok(slot) => {
                        proof {
                            assert(dev_id == m0.devices[k as int].id);
                            assert(slot as int == free_slot(m0.devices[k as int].engine.sockets));
                            assert(self@.devices =~= build_t(m0, listen, *addr).devices);
                            assert(self@ =~= build_t(m0, listen, *addr));
                            lemma_same_shape_wf(m0, self@);
                        }
                        return Ok(TcpSocket { interface: dev_id, socket: slot });
                    },
                    Err(_) => {
                        proof {
                            assert(false);
                        }
                        return Err(NetworkError::NoRoute);
                    },
                }
            }
            k += 1;
        }
        proof {
            lemma_first_in(m0.devices, routable_pred::<U>(listen, *addr), 0, m0.devices.len() as int);
        }
        Err(NetworkError::NoRoute)
    }

    /// Returns the next event generated by any registered interface, or
    /// nothing if every device is idle — including when no device is
    /// registered at all. The scan starts at the device after the one
    /// served last and wraps around once, so simultaneously ready devices
    /// take turns rather than starving one another.
    pub fn next_event(&mut self) -> (r: Option<NetworkManagerEvent>)
        requires
            old(self)@.wf(),
        ensures
            final(self)@.wf(),
            r == next_result(old(self)@),
            final(self)@ == next_t(old(self)@),
    {
        let ghost m0 = self@;
        let len = self.devices.len();
        let first = self.find_ready_in(self.next_poll, len);
        let idx = match first {
            Some(i) => Some(i),
            None => self.find_ready_in(0, self.next_poll),
        };
        match idx {
            None => None,
            Some(i) => {
                let d = self.device_mut(i);
                let dev_id = d.id;
                match d.engine.pop_event() {
                    Some(ev) => {
                        self.next_poll = i + 1;
                        proof {
                            assert(self@.devices =~= next_t(m0).devices);
                            assert(self@ =~= next_t(m0));
                            lemma_same_shape_wf(m0, self@);
                        }
                        Some(to_manager_event(dev_id, ev))
                    },
                    None => {
                        proof {
                            assert(false);
                        }
                        None
                    },
                }
            },
        }
    }
}

/// Builds the manager-level event for an engine event of the named
/// interface.
fn to_manager_event(id: InterfaceId, ev: EngineEvent) -> (r: NetworkManagerEvent)
    ensures
        r == wrap_event(id, ev),
{
    match ev {
        EngineEvent::CableOutReady => NetworkManagerEvent::EthernetCableOut(id),
        EngineEvent::TcpConnected(s) => NetworkManagerEvent::TcpConnected(
            TcpSocket { interface: id, socket: s },
        ),
        EngineEvent::TcpClosed(s) => NetworkManagerEvent::TcpClosed(
            TcpSocket { interface: id, socket: s },
        ),
        EngineEvent::TcpReadReady(s) => NetworkManagerEvent::TcpReadReady(
            TcpSocket { interface: id, socket: s },
        ),
        EngineEvent::TcpWriteFinished(s) => NetworkManagerEvent::TcpWriteFinished(
            TcpSocket { interface: id, socket: s },
        ),
    }
}

impl TcpSocket {
    /// The durable identifier of the socket, for later retrieval.
    pub fn id(&self) -> (r: SocketId)
        ensures
            r == (SocketId { interface: self.interface, socket: self.socket }),
    {
        SocketId { interface: self.interface, socket: self.socket }
    }

    /// Closes the socket in its owning manager; see
    /// [`NetworkManager::close_tcp_socket`].
    pub fn close<U>(self, manager: &mut NetworkManager<U>) -> (r: Result<(), NetworkError>)
        requires
            old(manager)@.wf(),
        ensures
            final(manager)@.wf(),
            resolves(old(manager)@, SocketId { interface: self.interface, socket: self.socket })
                ==> (r == Ok::<(), NetworkError>(()) && final(manager)@ == close_t(
                old(manager)@,
                SocketId { interface: self.interface, socket: self.socket },
            )),
            !resolves(old(manager)@, SocketId { interface: self.interface, socket: self.socket })
                && !has_interface(old(manager)@, self.interface) ==> (r == Err::<(), NetworkError>(
                NetworkError::InterfaceNotFound,
            ) && final(manager)@ == old(manager)@),
            !resolves(old(manager)@, SocketId { interface: self.interface, socket: self.socket })
                && has_interface(old(manager)@, self.interface) ==> (r == Err::<(), NetworkError>(
                NetworkError::SocketNotFound,
            ) && final(manager)@ == old(manager)@),
    {
        let sid = self.id();
        manager.close_tcp_socket(&sid)
    }
}

/// In a well-formed manager, no two devices share an identifier, so the
/// device at position `i` is the only one with its identifier.
proof fn lemma_unique_id<U>(m: ManagerView<U>, i: int)
    requires
        m.wf(),
        0 <= i < m.devices.len(),
    ensures
        forall|j: int|
            0 <= j < m.devices.len() && j != i ==> m.devices[j].id != m.devices[i].id,
{
    assert forall|j: int|
        0 <= j < m.devices.len() && j != i implies m.devices[j].id != m.devices[i].id by {
        if j < i {
            assert(m.devices[j].id != m.devices[i].id);
        } else {
            assert(m.devices[i].id != m.devices[j].id);
        }
    }
}

/// Well-formedness carries over to a manager with the same identifiers and
/// engine configurations and an in-range cursor.
proof fn lemma_same_shape_wf<U>(m: ManagerView<U>, m2: ManagerView<U>)
    requires
        m.wf(),
        m2.devices.len() == m.devices.len(),
        forall|j: int|
            0 <= j < m.devices.len() ==> (#[trigger] m2.devices[j]).id == m.devices[j].id
                && m2.devices[j].engine.config == m.devices[j].engine.config,
        0 <= m2.cursor <= m2.devices.len(),
    ensures
        m2.wf(),
{
    assert forall|j: int| 0 <= j < m2.devices.len() implies (#[trigger] m2.devices[j]).engine.wf() by {
        assert(m.devices[j].engine.wf());
    }
}

/// A registration makes its identifier resolvable, so a second
/// registration under the same identifier meets the duplicate case of
/// [`NetworkManager::register_interface`]'s contract: it fails and leaves
/// the registry exactly as the first registration built it.
pub proof fn lemma_register_then_duplicate<U>(
    m: ManagerView<U>,
    id: InterfaceId,
    config: InterfaceConfig,
    user_data: U,
)
    ensures
        has_interface(register_t(m, id, config, user_data), id),
{
    let m1 = register_t(m, id, config, user_data);
    lemma_first_in(m1.devices, dev_id_pred::<U>(id), 0, m1.devices.len() as int);
    if device_index(m1, id) is None {
        assert(dev_id_pred::<U>(id)(m1.devices[m.devices.len() as int]));
        assert(false);
    }
}

/// Drain semantics: a drain empties the pending outbound buffer, so a
/// second drain with no intervening activity returns an empty buffer.
pub proof fn lemma_drain_twice<U>(m: ManagerView<U>, id: InterfaceId)
    ensures
        drain_result(drain_t(m, id), id) == Seq::<u8>::empty(),
{
    let m1 = drain_t(m, id);
    assert forall|j: int| 0 <= j < m.devices.len() implies (dev_id_pred::<U>(id)(m.devices[j])
        <==> dev_id_pred::<U>(id)(m1.devices[j])) by {
        assert(m1.devices[j].id == m.devices[j].id);
    }
    lemma_first_in_congruence(
        m.devices,
        m1.devices,
        dev_id_pred::<U>(id),
        dev_id_pred::<U>(id),
        0,
        m.devices.len() as int,
    );
    match device_index(m, id) {
        Some(i) => {
            lemma_first_in(m.devices, dev_id_pred::<U>(id), 0, m.devices.len() as int);
            assert(m1.devices[i].engine.cable_out =~= Seq::<u8>::empty());
        },
        None => {
        },
    }
}

/// Routing selection is deterministic: when exactly one registered
/// interface can route an address, the scan selects that interface — and,
/// being a function of the registry state, selects it again on any repeated
/// attempt against identical state.
pub proof fn lemma_unique_route<U>(
    m: ManagerView<U>,
    listen: bool,
    addr: SocketAddress,
    i: int,
)
    requires
        0 <= i < m.devices.len(),
        spec_can_route(m.devices[i].engine.config, listen, addr),
        forall|j: int|
            0 <= j < m.devices.len() && j != i ==> !spec_can_route(
                (#[trigger] m.devices[j]).engine.config,
                listen,
                addr,
            ),
    ensures
        route_index(m, listen, addr) == Some(i),
{
    lemma_first_in(m.devices, routable_pred::<U>(listen, addr), 0, m.devices.len() as int);
    assert(routable_pred::<U>(listen, addr)(m.devices[i]));
    match route_index(m, listen, addr) {
        Some(k) => {
            if k != i {
                assert(routable_pred::<U>(listen, addr)(m.devices[k]));
                assert(false);
            }
        },
        None => {
            assert(false);
        },
    }
}

/// Identifier invalidation: after an interface is unregistered, no socket
/// identifier that referenced it resolves any more — the lookup reports
/// "not found" rather than stale data.
pub proof fn lemma_unregister_invalidates<U>(m: ManagerView<U>, sid: SocketId)
    requires
        m.wf(),
    ensures
        !resolves(unregister_t(m, sid.interface), sid),
{
    lemma_first_in(m.devices, dev_id_pred::<U>(sid.interface), 0, m.devices.len() as int);
    match device_index(m, sid.interface) {
        None => {
        },
        Some(i) => {
            let m1 = unregister_t(m, sid.interface);
            lemma_unique_id(m, i);
            lemma_first_in(m1.devices, dev_id_pred::<U>(sid.interface), 0, m1.devices.len() as int);
            match device_index(m1, sid.interface) {
                None => {
                },
                Some(k) => {
                    assert(m1.devices[k] == if k < i {
                        m.devices[k]
                    } else {
                        m.devices[k + 1]
                    });
                    assert(false);
                },
            }
        },
    }
}

/// Link activity is isolated per interface: a frame injected for one
/// identifier leaves every device with a different identifier exactly as
/// it was — in particular, frames for one interface never touch another
/// interface's sockets.
pub proof fn lemma_inject_isolated<U>(m: ManagerView<U>, id: InterfaceId, data: Seq<u8>, j: int)
    requires
        0 <= j < m.devices.len(),
        m.devices[j].id != id,
    ensures
        inject_t(m, id, data).devices[j] == m.devices[j],
{
}

/// Injected frames reach the owning device without loss or duplication:
/// its queued events are kept, in order, and only new events are appended.
/// [`NetworkManager::next_event`] then surfaces each queued event exactly
/// once, tagged with this identifier.
pub proof fn lemma_inject_attributed<U>(m: ManagerView<U>, id: InterfaceId, data: Seq<u8>, i: int)
    requires
        0 <= i < m.devices.len(),
        m.devices[i].id == id,
    ensures
        inject_t(m, id, data).devices[i].engine.events.len() >= m.devices[i].engine.events.len(),
        inject_t(m, id, data).devices[i].engine.events.take(
            m.devices[i].engine.events.len() as int,
        ) == m.devices[i].engine.events,
{
    crate::engine::lemma_inject_appends(m.devices[i].engine, data);
}

/// Distance the round-robin cursor still has to travel before it reaches
/// device `d`, scanning forward and wrapping once.
pub open spec fn cyclic_distance(cursor: int, d: int, len: int) -> int {
    if d >= cursor {
        d - cursor
    } else {
        d + len - cursor
    }
}

/// Liveness of the multiplexer: when a device is ready, some event is
/// served; and a ready device that is passed over keeps its queue and
/// comes strictly closer to the cursor, so with no intervening activity it
/// is served after at most as many further calls as there are devices. No
/// order among simultaneously ready devices is promised beyond this.
pub proof fn lemma_round_robin_progress<U>(m: ManagerView<U>, d: int)
    requires
        m.wf(),
        0 <= d < m.devices.len(),
        m.devices[d].engine.events.len() > 0,
    ensures
        serve_index(m) is Some,
        match serve_index(m) {
            Some(i) => i == d || (next_t(m).devices[d] == m.devices[d] && cyclic_distance(
                next_t(m).cursor,
                d,
                m.devices.len() as int,
            ) < cyclic_distance(m.cursor, d, m.devices.len() as int)),
            None => false,
        },
{
    let n = m.devices.len() as int;
    let c = m.cursor;
    lemma_first_in(m.devices, ready_pred::<U>(), c, n);
    lemma_first_in(m.devices, ready_pred::<U>(), 0, c);
    assert(ready_pred::<U>()(m.devices[d]));
    match serve_index(m) {
        None => {
            assert(false);
        },
        Some(i) => {
            if i != d {
                assert(ready_pred::<U>()(m.devices[i]));
                assert(next_t(m).devices[d] == m.devices[d]);
            }
        },
    }
}

/// Liveness under multiplexing, two-party case: when exactly two devices
/// have a pending event, two consecutive multiplexing steps serve both of
/// them, one each; which of the two goes first is unspecified.
pub proof fn lemma_two_ready_both_served<U>(m: ManagerView<U>, d1: int, d2: int)
    requires
        m.wf(),
        0 <= d1 < m.devices.len(),
        0 <= d2 < m.devices.len(),
        d1 != d2,
        m.devices[d1].engine.events.len() > 0,
        m.devices[d2].engine.events.len() > 0,
        forall|j: int|
            0 <= j < m.devices.len() && j != d1 && j != d2 ==> (#[trigger] m.devices[j]).engine.events.len()
                == 0,
    ensures
        match serve_index(m) {
            Some(i) => (i == d1 || i == d2) && match serve_index(next_t(m)) {
                Some(i2) => (i == d1 ==> i2 == d2) && (i == d2 ==> i2 == d1),
                None => false,
            },
            None => false,
        },
{
    let n = m.devices.len() as int;
    let c = m.cursor;
    lemma_first_in(m.devices, ready_pred::<U>(), c, n);
    lemma_first_in(m.devices, ready_pred::<U>(), 0, c);
    assert(ready_pred::<U>()(m.devices[d1]));
    assert(ready_pred::<U>()(m.devices[d2]));
    match serve_index(m) {
        None => {
            assert(false);
        },
        Some(i) => {
            assert(ready_pred::<U>()(m.devices[i]));
            assert(i == d1 || i == d2);
            let o = if i == d1 {
                d2
            } else {
                d1
            };
            let m1 = next_t(m);
            assert(m1.devices[o] == m.devices[o]);
            assert(m1.cursor == i + 1);
            lemma_first_in(m1.devices, ready_pred::<U>(), i + 1, n);
            lemma_first_in(m1.devices, ready_pred::<U>(), 0, i + 1);
            assert(ready_pred::<U>()(m1.devices[o]));
            assert forall|j: int|
                0 <= j < n && j != o && j != i implies !ready_pred::<U>()(
                #[trigger] m1.devices[j],
            ) by {
                assert(m1.devices[j] == m.devices[j]);
            }
            match serve_index(m1) {
                None => {
                    assert(false);
                },
                Some(i2) => {
                    assert(ready_pred::<U>()(m1.devices[i2]));
                    if i2 != o {
                        assert(i2 == i);
                        if o > i {
                            assert(first_in(m1.devices, ready_pred::<U>(), i + 1, n) is Some);
                            assert(false);
                        } else {
                            assert(first_in(m1.devices, ready_pred::<U>(), i + 1, n) is None);
                            assert(false);
                        }
                    }
                },
            }
        },
    }
}

} // verus!
