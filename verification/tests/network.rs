use auralis::network::{ack_for, sync_reply_result, ConnectionState, NetworkError, NetworkStats, PeerBook, SyncResponse};

fn s(x: &str) -> String {
    x.to_string()
}

#[test]
fn traffic_counters_saturate_instead_of_wrapping() {
    let mut stats = NetworkStats::default();
    stats.record_bytes_sent(10);
    stats.record_bytes_received(20);
    assert_eq!(stats.bytes_sent, 10);
    assert_eq!(stats.bytes_received, 20);
    stats.record_bytes_sent(u64::MAX);
    assert_eq!(stats.bytes_sent, u64::MAX);
    assert_eq!(stats.bytes_received, 20);
}

#[test]
fn errors_read_as_their_messages() {
    assert_eq!(NetworkError::Timeout.message(), "Timeout");
    assert_eq!(
        NetworkError::PeerNotFound(s("12D3Koo")).message(),
        "Peer not found: 12D3Koo"
    );
    assert_eq!(NetworkError::IoError(s("disk")).message(), "I/O error: disk");
    let reply = SyncResponse {
        ok: true,
        message: s("done"),
    };
    assert!(reply.ok);
}

#[test]
fn addresses_are_kept_once_and_forgotten_on_expiry() {
    let mut book = PeerBook::new();
    let peer = s("peer-a");
    book.add_address(&peer, &s("/ip4/10.0.0.2/tcp/4001"));
    book.add_address(&peer, &s("/ip4/10.0.0.2/tcp/4001"));
    book.add_address(&peer, &s("/ip4/10.0.0.3/tcp/4001"));
    assert_eq!(
        book.addresses_of(&peer),
        vec![s("/ip4/10.0.0.2/tcp/4001"), s("/ip4/10.0.0.3/tcp/4001")]
    );
    book.remove_address(&peer, &s("/ip4/10.0.0.2/tcp/4001"));
    assert_eq!(book.addresses_of(&peer), vec![s("/ip4/10.0.0.3/tcp/4001")]);
    assert!(book.addresses_of(&s("nobody")).is_empty());
    book.remove_address(&s("nobody"), &s("/x"));
    assert!(book.addresses_of(&s("nobody")).is_empty());
}

#[test]
fn stats_count_connected_peers_and_known_peers() {
    let mut book = PeerBook::new();
    book.add_address(&s("a"), &s("/a"));
    book.add_address(&s("b"), &s("/b"));
    book.set_connection(&s("a"), ConnectionState::Connected);
    book.set_connection(&s("b"), ConnectionState::Dialing);
    book.set_connection(&s("c"), ConnectionState::Connected);
    book.set_connection(&s("c"), ConnectionState::Disconnected);
    let mut counters = NetworkStats::default();
    counters.record_bytes_sent(7);
    let snapshot = book.stats(&counters);
    assert_eq!(snapshot.active_connections, 1);
    assert_eq!(snapshot.discovered_peers, 2);
    assert_eq!(snapshot.bytes_sent, 7);
}

#[test]
fn device_aliases_resolve_in_any_ascii_case() {
    let mut book = PeerBook::new();
    book.register_device_alias(&s("ABC-123"), &s("12D3KooWpeer"));
    assert_eq!(book.resolve_alias(&s("ABC-123")), Some(s("12D3KooWpeer")));
    assert_eq!(book.resolve_alias(&s("abc-123")), Some(s("12D3KooWpeer")));
    assert_eq!(book.resolve_alias(&s("Abc-123")), Some(s("12D3KooWpeer")));
    assert_eq!(book.resolve_alias(&s("other")), None);
    book.register_device_alias(&s("abc-123"), &s("12D3KooWnew"));
    assert_eq!(book.resolve_alias(&s("ABC-123")), Some(s("12D3KooWpeer")));
    assert_eq!(book.resolve_alias(&s("abc-123")), Some(s("12D3KooWnew")));
}

#[test]
fn listings_come_in_peer_order() {
    let mut book = PeerBook::new();
    book.add_address(&s("zeta"), &s("/z"));
    book.add_address(&s("alpha"), &s("/a1"));
    book.add_address(&s("alpha"), &s("/a2"));
    book.add_address(&s("mid"), &s("/m"));
    assert_eq!(
        book.discovered_peers(),
        vec![
            (s("alpha"), vec![s("/a1"), s("/a2")]),
            (s("mid"), vec![s("/m")]),
            (s("zeta"), vec![s("/z")]),
        ]
    );
    book.set_connection(&s("b"), ConnectionState::Connected);
    book.set_connection(&s("ab"), ConnectionState::Dialing);
    book.set_connection(&s("a"), ConnectionState::Disconnected);
    assert_eq!(
        book.connections(),
        vec![
            (s("a"), ConnectionState::Disconnected),
            (s("ab"), ConnectionState::Dialing),
            (s("b"), ConnectionState::Connected),
        ]
    );
    assert!(PeerBook::new().discovered_peers().is_empty());
}

#[test]
fn swarm_events_update_addresses_and_states() {
    let mut book = PeerBook::new();
    let peer = s("12D3KooWx");
    book.on_discovered(&peer, &s("/ip4/1.2.3.4/tcp/1"));
    assert_eq!(book.connections(), vec![(peer.clone(), ConnectionState::Dialing)]);
    book.on_connected(&peer, Some(&s("/ip4/5.6.7.8/tcp/2")));
    assert_eq!(book.connections(), vec![(peer.clone(), ConnectionState::Connected)]);
    assert_eq!(
        book.addresses_of(&peer),
        vec![s("/ip4/1.2.3.4/tcp/1"), s("/ip4/5.6.7.8/tcp/2")]
    );
    book.on_closed(&peer, 1);
    assert_eq!(book.connections(), vec![(peer.clone(), ConnectionState::Connected)]);
    book.on_closed(&peer, 0);
    assert_eq!(book.connections(), vec![(peer.clone(), ConnectionState::Disconnected)]);
    book.on_expired(&peer, &s("/ip4/1.2.3.4/tcp/1"));
    assert_eq!(book.addresses_of(&peer), vec![s("/ip4/5.6.7.8/tcp/2")]);
}

#[test]
fn sync_requests_are_acknowledged_and_refusals_reported() {
    let reply = ack_for(&s("12D3KooWme"));
    assert!(reply.ok);
    assert_eq!(reply.message, "ack from 12D3KooWme");
    assert!(sync_reply_result(reply).is_ok());
    let refusal = SyncResponse {
        ok: false,
        message: s("busy"),
    };
    match sync_reply_result(refusal) {
        Err(NetworkError::ProtocolError(m)) => assert_eq!(m, "busy"),
        _ => panic!("a refused sync must read as a protocol error"),
    }
}

#[test]
fn a_device_id_leads_to_its_peers_addresses() {
    let mut book = PeerBook::new();
    book.add_address(&s("12D3KooWpeer"), &s("/ip4/10.0.0.9/tcp/4001"));
    book.register_device_alias(&s("Device-1"), &s("12D3KooWpeer"));
    assert_eq!(
        book.addresses_of_alias(&s("device-1")),
        vec![s("/ip4/10.0.0.9/tcp/4001")]
    );
    assert!(book.addresses_of_alias(&s("unknown")).is_empty());
}
