use swarm_proxy::net::{Ipv4, SockAddrV4};
use swarm_proxy::udp::{received_payload, session_step, SessionAction, SessionEvent, SocketMap};

fn sa(a: u8, b: u8, c: u8, d: u8, port: u16) -> SockAddrV4 {
    SockAddrV4::new(Ipv4::new(a, b, c, d), port)
}

fn fresh_table() -> (
    SocketMap,
    kanal::AsyncReceiver<(Vec<u8>, SockAddrV4)>,
) {
    let (master_tx, master_rx) = kanal::unbounded_async::<(Vec<u8>, SockAddrV4)>();
    (SocketMap::new(sa(10, 0, 0, 5, 9100), master_tx), master_rx)
}

#[test]
fn unknown_client_has_no_session() {
    let (table, _master_rx) = fresh_table();
    assert!(table.get_live(&sa(192, 168, 0, 2, 40000)).is_none());
}

#[test]
fn client_reuses_its_live_session() {
    let (mut table, _master_rx) = fresh_table();
    let client = sa(192, 168, 0, 2, 40000);
    let (tx, rx) = kanal::unbounded_async::<Vec<u8>>();
    table.insert(client, tx);

    // Two datagrams within the idle window go through the same handle.
    let first = table.get_live(&client).expect("session should be live");
    first.as_sync().send(vec![1]).unwrap();
    let second = table.get_live(&client).expect("session should still be live");
    second.as_sync().send(vec![2]).unwrap();
    assert_eq!(rx.as_sync().recv().unwrap(), vec![1]);
    assert_eq!(rx.as_sync().recv().unwrap(), vec![2]);
}

#[test]
fn stopped_session_is_not_returned() {
    let (mut table, _master_rx) = fresh_table();
    let client = sa(192, 168, 0, 2, 40000);
    let (tx, rx) = kanal::unbounded_async::<Vec<u8>>();
    table.insert(client, tx);
    // The session ends (as after its idle timeout): its receive side goes away.
    drop(rx);
    assert!(table.get_live(&client).is_none());
}

#[test]
fn replacement_session_supersedes_old_handle() {
    let (mut table, _master_rx) = fresh_table();
    let client = sa(192, 168, 0, 2, 40000);
    let (tx1, rx1) = kanal::unbounded_async::<Vec<u8>>();
    table.insert(client, tx1);
    drop(rx1);
    let (tx2, rx2) = kanal::unbounded_async::<Vec<u8>>();
    table.insert(client, tx2);
    let live = table.get_live(&client).expect("fresh session should be live");
    live.as_sync().send(vec![9]).unwrap();
    assert_eq!(rx2.as_sync().recv().unwrap(), vec![9]);
}

#[test]
fn sweep_clears_every_handle() {
    let (mut table, _master_rx) = fresh_table();
    let client = sa(192, 168, 0, 2, 40000);
    let (tx, _rx) = kanal::unbounded_async::<Vec<u8>>();
    table.insert(client, tx);
    table.clear();
    assert!(table.get_live(&client).is_none());
}

#[test]
fn queued_client_data_goes_to_target() {
    let client = sa(192, 168, 0, 2, 40000);
    match session_step(client, SessionEvent::Queued(b"ping".to_vec())) {
        SessionAction::SendToTarget(p) => assert_eq!(p, b"ping".to_vec()),
        _ => panic!("expected the payload to go to the target"),
    }
}

#[test]
fn remote_reply_is_enveloped_for_the_client() {
    let client = sa(192, 168, 0, 2, 40000);
    match session_step(client, SessionEvent::RemoteDatagram(b"pong".to_vec())) {
        SessionAction::Reply(p, c) => {
            assert_eq!(p, b"pong".to_vec());
            assert_eq!(c, client);
        },
        _ => panic!("expected a reply envelope"),
    }
}

#[test]
fn closed_queue_stops_the_session() {
    let client = sa(192, 168, 0, 2, 40000);
    assert!(matches!(
        session_step(client, SessionEvent::QueueClosed),
        SessionAction::Stop
    ));
}

#[test]
fn idle_timeout_stops_the_session() {
    let client = sa(192, 168, 0, 2, 40000);
    assert!(matches!(
        session_step(client, SessionEvent::IdleTimeout),
        SessionAction::Stop
    ));
}

#[test]
fn received_payload_takes_exactly_the_read_bytes() {
    let mut buf = [0u8; 2048];
    buf[0] = b'p';
    buf[1] = b'i';
    buf[2] = b'n';
    buf[3] = b'g';
    assert_eq!(received_payload(&buf, 4), b"ping".to_vec());
    assert_eq!(received_payload(&buf, 0), Vec::<u8>::new());
}

#[test]
fn round_trip_keeps_payload_intact() {
    // The model of the end-to-end path: an inbound datagram is queued for the
    // session, sent to the target unchanged, and the reply comes back wrapped
    // for the original client unchanged.
    let client = sa(192, 168, 0, 2, 40000);
    let mut buf = [0u8; 2048];
    for (i, byte) in b"ping".iter().enumerate() {
        buf[i] = *byte;
    }
    let inbound = received_payload(&buf, 4);
    let toward_target = match session_step(client, SessionEvent::Queued(inbound)) {
        SessionAction::SendToTarget(p) => p,
        _ => panic!("expected the payload to go to the target"),
    };
    assert_eq!(toward_target, b"ping".to_vec());
    match session_step(client, SessionEvent::RemoteDatagram(b"pong".to_vec())) {
        SessionAction::Reply(p, c) => {
            assert_eq!(p, b"pong".to_vec());
            assert_eq!(c, client);
        },
        _ => panic!("expected the reply to go back to the client"),
    }
}
