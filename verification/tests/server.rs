use roxy::event::{
    AcceptOutcome, Action, Address, Event, Interest, ReadOutcome, ReadPlan, Side, WriteOutcome,
};
use roxy::server::{RoxyServer, PROXY};

const SRC: Address = Address::V4 { ip: 0x7f00_0001, port: 8080 };
const DST: Address = Address::V6 { ip: 1, port: 80, flowinfo: 0, scope_id: 0 };

fn connect(server: &mut RoxyServer) -> (usize, usize) {
    let actions = server.accepted(AcceptOutcome::Connected);
    match (actions[0], actions[1]) {
        (Action::Register { token: client, .. }, Action::Register { token: upstream, .. }) => {
            (client, upstream)
        }
        _ => panic!("the connection was not taken in"),
    }
}

fn teardown_of(client: usize, server: usize) -> Vec<Action> {
    vec![
        Action::Shutdown { token: client },
        Action::Shutdown { token: server },
        Action::Deregister { token: client },
        Action::Deregister { token: server },
    ]
}

/// Moves everything that waits for the socket under `token` out, at most
/// `step` bytes per write, and returns it.
fn flush(server: &mut RoxyServer, token: usize, step: usize) -> Vec<u8> {
    let mut out: Vec<u8> = Vec::new();
    loop {
        let chunk = server.pending(token).unwrap().to_vec();
        if chunk.is_empty() {
            return out;
        }
        let sent = chunk.len().min(step);
        out.extend_from_slice(&chunk[..sent]);
        server.writable(token, WriteOutcome::Written(sent));
    }
}

#[test]
fn new_server_keeps_its_addresses() {
    let server = RoxyServer::new(SRC, DST);
    assert_eq!(server.src(), SRC);
    assert_eq!(server.dst(), DST);
    assert_eq!(PROXY, 0);
    assert_eq!(server.read_plan(PROXY), ReadPlan::Accept { destination: DST });
    assert_eq!(server.read_plan(1024), ReadPlan::Ignore);
    assert_eq!(server.pending(PROXY), None);
    assert_eq!(server.pending(1024), None);
}

#[test]
fn first_connection_takes_the_first_two_handles() {
    let mut server = RoxyServer::new(SRC, DST);
    let actions = server.accepted(AcceptOutcome::Connected);
    assert_eq!(
        actions,
        vec![
            Action::Register { token: 1024, side: Side::Client, interest: Interest::Readable },
            Action::Register { token: 1025, side: Side::Server, interest: Interest::Readable },
        ]
    );
    assert_eq!(server.read_plan(1024), ReadPlan::Read { budget: 4096 });
    assert_eq!(server.read_plan(1025), ReadPlan::Read { budget: 4096 });
    assert_eq!(server.read_plan(1026), ReadPlan::Ignore);
    assert_eq!(server.pending(1024), Some(&b""[..]));
    assert_eq!(server.pending(1025), Some(&b""[..]));
    assert_eq!(server.read_plan(PROXY), ReadPlan::Accept { destination: DST });
}

#[test]
fn failed_attempts_create_no_pair() {
    let mut server = RoxyServer::new(SRC, DST);
    assert!(server.accepted(AcceptOutcome::AcceptFailed).is_empty());
    assert_eq!(server.accepted(AcceptOutcome::ConnectFailed), vec![Action::Discard]);
    assert_eq!(server.read_plan(1024), ReadPlan::Ignore);
    assert_eq!(connect(&mut server), (1024, 1025));
}

#[test]
fn payload_written_in_pieces_arrives_unchanged() {
    let mut server = RoxyServer::new(SRC, DST);
    let (client, upstream) = connect(&mut server);
    let mut received: Vec<u8> = Vec::new();
    for piece in [&b"GET / "[..], &b"HTTP/1.1\r\n"[..], &b"\r\n"[..]] {
        let actions = server.readable(client, ReadOutcome::Data(piece.to_vec()), false);
        assert_eq!(actions, vec![Action::Reregister { token: upstream, interest: Interest::All }]);
        let chunk = server.pending(upstream).unwrap().to_vec();
        let sent = chunk.len().min(3);
        received.extend_from_slice(&chunk[..sent]);
        server.writable(upstream, WriteOutcome::Written(sent));
    }
    received.extend_from_slice(&flush(&mut server, upstream, 4));
    assert_eq!(received, b"GET / HTTP/1.1\r\n\r\n");
    assert_eq!(server.pending(client), Some(&b""[..]));
}

#[test]
fn replies_travel_back_unchanged() {
    let mut server = RoxyServer::new(SRC, DST);
    let (client, upstream) = connect(&mut server);
    let reply: Vec<u8> = (0..10_000u32).map(|i| (i * 7 % 256) as u8).collect();
    let mut received: Vec<u8> = Vec::new();
    let mut offered = 0usize;
    while offered < reply.len() {
        let budget = match server.read_plan(upstream) {
            ReadPlan::Read { budget } => budget,
            other => panic!("unexpected plan {:?}", other),
        };
        let end = reply.len().min(offered + budget.min(1500));
        server.readable(upstream, ReadOutcome::Data(reply[offered..end].to_vec()), false);
        offered = end;
        received.extend_from_slice(&flush(&mut server, client, 700));
    }
    assert_eq!(received, reply);
}

#[test]
fn a_stalled_consumer_suspends_the_producer() {
    let mut server = RoxyServer::new(SRC, DST);
    let (client, upstream) = connect(&mut server);
    let payload: Vec<u8> = (0..6000u32).map(|i| (i % 253) as u8).collect();
    server.readable(client, ReadOutcome::Data(payload[..4096].to_vec()), false);
    assert_eq!(server.read_plan(client), ReadPlan::Read { budget: 0 });
    let actions = server.readable(client, ReadOutcome::Data(Vec::new()), false);
    assert_eq!(actions, vec![Action::Reregister { token: upstream, interest: Interest::All }]);
    assert_eq!(server.read_plan(client), ReadPlan::Read { budget: 0 });
    assert_eq!(server.read_plan(upstream), ReadPlan::Read { budget: 4096 });
    let mut received = server.pending(upstream).unwrap()[..1904].to_vec();
    server.writable(upstream, WriteOutcome::Written(1904));
    assert_eq!(server.read_plan(client), ReadPlan::Read { budget: 1904 });
    server.readable(client, ReadOutcome::Data(payload[4096..].to_vec()), false);
    assert_eq!(server.read_plan(client), ReadPlan::Read { budget: 0 });
    received.extend_from_slice(&flush(&mut server, upstream, 4096));
    assert_eq!(received, payload);
    assert_eq!(server.read_plan(client), ReadPlan::Read { budget: 4096 });
}

#[test]
fn hangup_closes_both_sockets_and_frees_both_handles() {
    let mut server = RoxyServer::new(SRC, DST);
    let (client, upstream) = connect(&mut server);
    server.readable(client, ReadOutcome::Data(b"partial".to_vec()), false);
    let actions = server.readable(client, ReadOutcome::WouldBlock, true);
    assert_eq!(actions, teardown_of(client, upstream));
    assert_eq!(server.read_plan(client), ReadPlan::Ignore);
    assert_eq!(server.read_plan(upstream), ReadPlan::Ignore);
    assert_eq!(server.pending(client), None);
    assert_eq!(server.pending(upstream), None);
}

#[test]
fn stale_notifications_are_ignored() {
    let mut server = RoxyServer::new(SRC, DST);
    let (client, upstream) = connect(&mut server);
    assert_eq!(
        server.readable(upstream, ReadOutcome::WouldBlock, true),
        teardown_of(client, upstream)
    );
    assert!(server.readable(upstream, ReadOutcome::WouldBlock, true).is_empty());
    assert!(server.readable(client, ReadOutcome::WouldBlock, true).is_empty());
    assert!(server.readable(upstream, ReadOutcome::Data(b"late".to_vec()), false).is_empty());
    assert!(server.readable(client, ReadOutcome::Failed, false).is_empty());
    assert!(server.writable(client, WriteOutcome::Written(1)).is_empty());
    assert!(server.writable(upstream, WriteOutcome::Failed).is_empty());
    assert!(server.readable(PROXY, ReadOutcome::Data(b"x".to_vec()), false).is_empty());
    assert!(server.writable(PROXY, WriteOutcome::Written(1)).is_empty());
    assert!(server.readable(77, ReadOutcome::Failed, true).is_empty());
    assert!(server.writable(9999, WriteOutcome::Failed).is_empty());
    assert_eq!(connect(&mut server), (upstream, client));
}

#[test]
fn end_of_stream_and_failures_close_the_connection() {
    let mut server = RoxyServer::new(SRC, DST);
    let (client, upstream) = connect(&mut server);
    assert_eq!(
        server.readable(upstream, ReadOutcome::Data(Vec::new()), false),
        teardown_of(client, upstream)
    );
    let (client, upstream) = connect(&mut server);
    assert_eq!(server.readable(client, ReadOutcome::Failed, false), teardown_of(client, upstream));
    let (client, upstream) = connect(&mut server);
    assert_eq!(server.writable(upstream, WriteOutcome::Failed), teardown_of(client, upstream));
    let (client, upstream) = connect(&mut server);
    assert_eq!(server.writable(client, WriteOutcome::Failed), teardown_of(client, upstream));
    assert_eq!(server.read_plan(client), ReadPlan::Ignore);
}

#[test]
fn a_failing_connection_leaves_the_other_relaying() {
    let mut server = RoxyServer::new(SRC, DST);
    let (first_client, first_upstream) = connect(&mut server);
    let (second_client, second_upstream) = connect(&mut server);
    server.readable(first_client, ReadOutcome::Data(b"first ".to_vec()), false);
    server.readable(second_client, ReadOutcome::Data(b"second ".to_vec()), false);
    assert_eq!(
        server.readable(first_upstream, ReadOutcome::Failed, false),
        teardown_of(first_client, first_upstream)
    );
    assert_eq!(server.read_plan(first_client), ReadPlan::Ignore);
    assert_eq!(server.read_plan(second_client), ReadPlan::Read { budget: 4089 });
    assert_eq!(server.pending(second_upstream), Some(&b"second "[..]));
    server.readable(second_client, ReadOutcome::Data(b"goes on".to_vec()), false);
    server.readable(second_upstream, ReadOutcome::Data(b"reply".to_vec()), false);
    assert_eq!(flush(&mut server, second_upstream, 5), b"second goes on");
    assert_eq!(flush(&mut server, second_client, 2), b"reply");
}

#[test]
fn a_full_table_refuses_the_next_connection() {
    let mut server = RoxyServer::new(SRC, DST);
    for pair in 0..2048usize {
        assert_eq!(connect(&mut server), (1024 + 2 * pair, 1025 + 2 * pair));
    }
    server.readable(1024, ReadOutcome::Data(b"before".to_vec()), false);
    assert_eq!(server.accepted(AcceptOutcome::Connected), vec![Action::Discard]);
    assert_eq!(server.accepted(AcceptOutcome::ConnectFailed), vec![Action::Discard]);
    assert!(server.accepted(AcceptOutcome::AcceptFailed).is_empty());
    assert_eq!(server.read_plan(5119), ReadPlan::Read { budget: 4096 });
    assert_eq!(server.read_plan(5120), ReadPlan::Ignore);
    server.readable(1024, ReadOutcome::Data(b" and after".to_vec()), false);
    assert_eq!(flush(&mut server, 1025, 64), b"before and after");
    assert_eq!(server.readable(2048, ReadOutcome::WouldBlock, true), teardown_of(2048, 2049));
    assert_eq!(connect(&mut server), (2049, 2048));
    assert_eq!(server.accepted(AcceptOutcome::Connected), vec![Action::Discard]);
}

#[test]
fn duplicate_hangup_is_handled_once() {
    let mut server = RoxyServer::new(SRC, DST);
    let (client, upstream) = connect(&mut server);
    let (other_client, other_upstream) = connect(&mut server);
    assert_eq!(server.readable(client, ReadOutcome::WouldBlock, true), teardown_of(client, upstream));
    assert!(server.readable(client, ReadOutcome::WouldBlock, true).is_empty());
    assert!(server.readable(upstream, ReadOutcome::WouldBlock, true).is_empty());
    assert_eq!(server.read_plan(other_client), ReadPlan::Read { budget: 4096 });
    assert_eq!(server.read_plan(other_upstream), ReadPlan::Read { budget: 4096 });
    assert_eq!(connect(&mut server), (upstream, client));
    assert_eq!(connect(&mut server), (1028, 1029));
}

#[test]
fn handle_dispatches_each_kind_of_event() {
    let mut server = RoxyServer::new(SRC, DST);
    assert_eq!(
        server.handle(Event::Accepted(AcceptOutcome::Connected)),
        vec![
            Action::Register { token: 1024, side: Side::Client, interest: Interest::Readable },
            Action::Register { token: 1025, side: Side::Server, interest: Interest::Readable },
        ]
    );
    assert_eq!(
        server.handle(Event::Readable(1024, ReadOutcome::Data(b"abc".to_vec()), false)),
        vec![Action::Reregister { token: 1025, interest: Interest::All }]
    );
    assert!(server.handle(Event::Writable(1025, WriteOutcome::Written(1))).is_empty());
    assert_eq!(server.pending(1025), Some(&b"bc"[..]));
    assert_eq!(
        server.handle(Event::Writable(1025, WriteOutcome::Written(2))),
        vec![Action::Reregister { token: 1025, interest: Interest::Readable }]
    );
    assert_eq!(
        server.handle(Event::Readable(1025, ReadOutcome::WouldBlock, true)),
        teardown_of(1024, 1025)
    );
    assert!(server.handle(Event::Writable(1024, WriteOutcome::Written(1))).is_empty());
    assert_eq!(server.handle(Event::Accepted(AcceptOutcome::ConnectFailed)), vec![Action::Discard]);
}
