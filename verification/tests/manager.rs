use network_manager::addr::{InterfaceConfig, SocketAddress};
use network_manager::manager::{
    InterfaceId, NetworkError, NetworkManager, NetworkManagerEvent, RegisterError, SocketId,
};

fn config(ip: u32, prefix_len: u8, tag: u8) -> InterfaceConfig {
    InterfaceConfig { ip, prefix_len, mac: [tag, tag, tag, tag, tag, tag] }
}

fn event_interface(ev: &NetworkManagerEvent) -> InterfaceId {
    match ev {
        NetworkManagerEvent::EthernetCableOut(id) => *id,
        NetworkManagerEvent::TcpConnected(s) => s.interface,
        NetworkManagerEvent::TcpClosed(s) => s.interface,
        NetworkManagerEvent::TcpReadReady(s) => s.interface,
        NetworkManagerEvent::TcpWriteFinished(s) => s.interface,
    }
}

#[test]
fn duplicate_registration_rejected() {
    let mut nm: NetworkManager<u32> = NetworkManager::new();
    assert_eq!(nm.register_interface(InterfaceId(1), config(0x0A000001, 24, 1), 11), Ok(()));
    assert_eq!(
        nm.register_interface(InterfaceId(1), config(0xC0A80101, 24, 2), 22),
        Err(RegisterError::DuplicateId)
    );
    assert!(nm.contains_interface(&InterfaceId(1)));
    // The first registration's device is unchanged: its user data is still there.
    let user = nm.interface_user_data(&InterfaceId(1)).expect("registered");
    assert_eq!(*user, 11);
}

#[test]
fn invalid_prefix_rejected() {
    let mut nm: NetworkManager<u32> = NetworkManager::new();
    assert_eq!(
        nm.register_interface(InterfaceId(1), config(0x0A000001, 40, 1), 0),
        Err(RegisterError::InvalidPrefix)
    );
    assert!(!nm.contains_interface(&InterfaceId(1)));
}

#[test]
fn routing_selects_unique_interface() {
    let dest = SocketAddress { ip: 0xC0A80142, port: 80 };
    let mut picks = Vec::new();
    for _ in 0..2 {
        let mut nm: NetworkManager<()> = NetworkManager::new();
        nm.register_interface(InterfaceId(1), config(0x0A000001, 24, 1), ()).unwrap();
        nm.register_interface(InterfaceId(2), config(0xC0A80101, 24, 2), ()).unwrap();
        nm.register_interface(InterfaceId(3), config(0xAC100001, 24, 3), ()).unwrap();
        let sock = nm.build_tcp_socket(false, &dest).expect("one interface routes 192.168.1.x");
        picks.push(sock.interface);
        // Same state, same destination: the same interface is picked again.
        let again = nm.build_tcp_socket(false, &dest).expect("still routable");
        assert_eq!(again.interface, InterfaceId(2));
    }
    assert_eq!(picks, vec![InterfaceId(2), InterfaceId(2)]);
}

#[test]
fn no_route_is_an_error() {
    let mut nm: NetworkManager<()> = NetworkManager::new();
    nm.register_interface(InterfaceId(1), config(0x0A000001, 24, 1), ()).unwrap();
    let far = SocketAddress { ip: 0x08080808, port: 53 };
    assert_eq!(nm.build_tcp_socket(false, &far), Err(NetworkError::NoRoute));
}

#[test]
fn drain_then_drain_empty() {
    let mut nm: NetworkManager<()> = NetworkManager::new();
    nm.register_interface(InterfaceId(1), config(0x0A000001, 24, 1), ()).unwrap();
    // A connecting socket commits its opening frame to the outbound buffer.
    let dest = SocketAddress { ip: 0x0A000002, port: 8080 };
    nm.build_tcp_socket(false, &dest).unwrap();
    let first = nm.read_ethernet_cable_out(&InterfaceId(1)).unwrap();
    // Four address bytes then two port bytes, most significant first.
    assert_eq!(first, vec![0x0A, 0x00, 0x00, 0x02, 0x1F, 0x90]);
    let second = nm.read_ethernet_cable_out(&InterfaceId(1)).unwrap();
    assert!(second.is_empty());
}

#[test]
fn drain_unknown_interface_is_an_error() {
    let mut nm: NetworkManager<()> = NetworkManager::new();
    assert_eq!(
        nm.read_ethernet_cable_out(&InterfaceId(9)),
        Err(NetworkError::InterfaceNotFound)
    );
    assert_eq!(
        nm.inject_interface_data(&InterfaceId(9), &[1]),
        Err(NetworkError::InterfaceNotFound)
    );
}

#[test]
fn inject_round_trip_is_isolated_per_interface() {
    let mut nm: NetworkManager<()> = NetworkManager::new();
    let d = InterfaceId(1);
    let d2 = InterfaceId(2);
    nm.register_interface(d, config(0x0A000001, 24, 1), ()).unwrap();
    nm.register_interface(d2, config(0xC0A80101, 24, 2), ()).unwrap();
    let bind = SocketAddress { ip: 0x0A000001, port: 80 };
    let sock = nm.build_tcp_socket(true, &bind).unwrap();
    assert_eq!(sock.interface, d);

    // A frame for d2 has no socket to deliver to and must not touch d.
    nm.inject_interface_data(&d2, &[7, 7, 7]).unwrap();
    // A frame for d completes the listener's handshake.
    nm.inject_interface_data(&d, &[9, 9]).unwrap();

    let first = nm.next_event().expect("handshake produced an event");
    assert_eq!(first, NetworkManagerEvent::TcpConnected(sock));
    let second = nm.next_event().expect("reply frame filled the outbound buffer");
    assert_eq!(second, NetworkManagerEvent::EthernetCableOut(d));
    assert_eq!(nm.next_event(), None);

    // The handshake reply is attributable to d alone.
    let out = nm.read_ethernet_cable_out(&d).unwrap();
    assert_eq!(out, vec![9, 9]);
    assert!(nm.read_ethernet_cable_out(&d2).unwrap().is_empty());
}

#[test]
fn both_ready_interfaces_are_served() {
    let mut nm: NetworkManager<()> = NetworkManager::new();
    let a = InterfaceId(1);
    let b = InterfaceId(2);
    nm.register_interface(a, config(0x0A000001, 24, 1), ()).unwrap();
    nm.register_interface(b, config(0xC0A80101, 24, 2), ()).unwrap();
    nm.build_tcp_socket(true, &SocketAddress { ip: 0x0A000001, port: 80 }).unwrap();
    nm.build_tcp_socket(true, &SocketAddress { ip: 0xC0A80101, port: 80 }).unwrap();
    nm.inject_interface_data(&a, &[5]).unwrap();
    nm.inject_interface_data(&b, &[5]).unwrap();

    // Both interfaces have pending events; two calls serve both. The
    // relative order between the two is not asserted.
    let e1 = nm.next_event().expect("one interface is ready");
    let e2 = nm.next_event().expect("the other interface is still ready");
    let served = vec![event_interface(&e1), event_interface(&e2)];
    assert!(served.contains(&a));
    assert!(served.contains(&b));
}

#[test]
fn stale_socket_id_resolves_to_nothing() {
    let mut nm: NetworkManager<()> = NetworkManager::new();
    let d = InterfaceId(1);
    nm.register_interface(d, config(0x0A000001, 24, 1), ()).unwrap();
    let sock = nm.build_tcp_socket(true, &SocketAddress { ip: 0x0A000001, port: 80 }).unwrap();
    let sid = sock.id();
    assert_eq!(nm.tcp_socket_by_id(&sid), Some(sock));

    assert_eq!(nm.unregister_interface(&d), Ok(()));
    assert_eq!(nm.tcp_socket_by_id(&sid), None);
    assert_eq!(nm.read_ethernet_cable_out(&d), Err(NetworkError::InterfaceNotFound));
    assert!(nm.interface_user_data(&d).is_none());
    assert_eq!(nm.unregister_interface(&d), Err(NetworkError::InterfaceNotFound));
}

#[test]
fn close_invalidates_and_discards_pending_socket_events() {
    let mut nm: NetworkManager<()> = NetworkManager::new();
    let d = InterfaceId(1);
    nm.register_interface(d, config(0x0A000001, 24, 1), ()).unwrap();
    let sock = nm.build_tcp_socket(true, &SocketAddress { ip: 0x0A000001, port: 80 }).unwrap();
    nm.inject_interface_data(&d, &[3]).unwrap();

    // Queued: TcpConnected for the socket, then the outbound-buffer notice.
    // Closing the socket discards the events that mention it; the buffer
    // notice — and the buffered bytes themselves — stay.
    assert_eq!(sock.close(&mut nm), Ok(()));
    assert_eq!(nm.tcp_socket_by_id(&sock.id()), None);
    assert_eq!(nm.next_event(), Some(NetworkManagerEvent::EthernetCableOut(d)));
    assert_eq!(nm.next_event(), None);
    assert_eq!(nm.read_ethernet_cable_out(&d).unwrap(), vec![3]);

    let unknown = SocketId { interface: d, socket: 17 };
    assert_eq!(nm.close_tcp_socket(&unknown), Err(NetworkError::SocketNotFound));
    let gone = SocketId { interface: InterfaceId(9), socket: 0 };
    assert_eq!(nm.close_tcp_socket(&gone), Err(NetworkError::InterfaceNotFound));
}

#[test]
fn established_socket_lifecycle_events() {
    let mut nm: NetworkManager<()> = NetworkManager::new();
    let d = InterfaceId(1);
    nm.register_interface(d, config(0x0A000001, 24, 1), ()).unwrap();
    let sock = nm.build_tcp_socket(true, &SocketAddress { ip: 0x0A000001, port: 80 }).unwrap();
    nm.inject_interface_data(&d, &[5]).unwrap();
    assert_eq!(nm.next_event(), Some(NetworkManagerEvent::TcpConnected(sock)));
    assert_eq!(nm.next_event(), Some(NetworkManagerEvent::EthernetCableOut(d)));

    // Leading byte 1: the remote acknowledged pending data.
    nm.inject_interface_data(&d, &[1]).unwrap();
    assert_eq!(nm.next_event(), Some(NetworkManagerEvent::TcpWriteFinished(sock)));
    // Any other leading byte: payload arrived.
    nm.inject_interface_data(&d, &[42, 42]).unwrap();
    assert_eq!(nm.next_event(), Some(NetworkManagerEvent::TcpReadReady(sock)));
    // Leading byte 0: the remote closed the connection.
    nm.inject_interface_data(&d, &[0]).unwrap();
    assert_eq!(nm.next_event(), Some(NetworkManagerEvent::TcpClosed(sock)));

    // A remotely closed socket stays resolvable until it is closed locally.
    assert_eq!(nm.tcp_socket_by_id(&sock.id()), Some(sock));
    assert_eq!(nm.close_tcp_socket(&sock.id()), Ok(()));
    assert_eq!(nm.tcp_socket_by_id(&sock.id()), None);
}

#[test]
fn idle_manager_has_no_event() {
    let mut nm: NetworkManager<()> = NetworkManager::new();
    assert_eq!(nm.next_event(), None);
    nm.register_interface(InterfaceId(1), config(0x0A000001, 24, 1), ()).unwrap();
    assert_eq!(nm.next_event(), None);
}

#[test]
fn user_data_is_mutable_while_registered() {
    let mut nm: NetworkManager<String> = NetworkManager::new();
    let d = InterfaceId(1);
    nm.register_interface(d, config(0x0A000001, 24, 1), String::from("eth0")).unwrap();
    {
        let name = nm.interface_user_data(&d).expect("registered");
        assert_eq!(name, "eth0");
        name.push_str("-renamed");
    }
    assert_eq!(nm.interface_user_data(&d).unwrap(), "eth0-renamed");
    assert!(nm.interface_user_data(&InterfaceId(2)).is_none());
}

#[test]
fn socket_id_round_trip() {
    let mut nm: NetworkManager<()> = NetworkManager::new();
    let d = InterfaceId(4);
    nm.register_interface(d, config(0x0A000001, 24, 1), ()).unwrap();
    let sock = nm.build_tcp_socket(true, &SocketAddress { ip: 0, port: 22 }).unwrap();
    let sid = sock.id();
    assert_eq!(sid, SocketId { interface: d, socket: sock.socket });
    let resolved = nm.tcp_socket_by_id(&sid).unwrap();
    assert_eq!(resolved.id(), sid);
}

#[test]
fn outbound_buffer_accumulates_until_drained() {
    let mut nm: NetworkManager<()> = NetworkManager::new();
    let d = InterfaceId(1);
    nm.register_interface(d, config(0x0A000001, 24, 1), ()).unwrap();
    // The buffer grows without bound until drained: two opening frames and
    // an injected reply all come out together, in order, exactly once.
    nm.build_tcp_socket(false, &SocketAddress { ip: 0x0A000002, port: 1 }).unwrap();
    nm.build_tcp_socket(false, &SocketAddress { ip: 0x0A000003, port: 2 }).unwrap();
    nm.inject_interface_data(&d, &[8]).unwrap();
    let out = nm.read_ethernet_cable_out(&d).unwrap();
    assert_eq!(
        out,
        vec![0x0A, 0x00, 0x00, 0x02, 0x00, 0x01, 0x0A, 0x00, 0x00, 0x03, 0x00, 0x02, 8]
    );
    assert!(nm.read_ethernet_cable_out(&d).unwrap().is_empty());
}

#[test]
fn freed_slot_is_reused() {
    let mut nm: NetworkManager<()> = NetworkManager::new();
    let d = InterfaceId(1);
    nm.register_interface(d, config(0x0A000001, 24, 1), ()).unwrap();
    let bind = SocketAddress { ip: 0x0A000001, port: 80 };
    let s0 = nm.build_tcp_socket(true, &bind).unwrap();
    let s1 = nm.build_tcp_socket(true, &bind).unwrap();
    assert_ne!(s0.socket, s1.socket);
    nm.close_tcp_socket(&s0.id()).unwrap();
    let s2 = nm.build_tcp_socket(true, &bind).unwrap();
    // The engine may reuse a freed slot; here it hands out the lowest one.
    assert_eq!(s2.socket, s0.socket);
}
