use roxy::event::{Action, Interest, ReadOutcome, Side, WriteOutcome};
use roxy::transport::Transport;

fn teardown_of(client: usize, server: usize) -> Vec<Action> {
    vec![
        Action::Shutdown { token: client },
        Action::Shutdown { token: server },
        Action::Deregister { token: client },
        Action::Deregister { token: server },
    ]
}

#[test]
fn new_pair_is_open_and_empty() {
    let pair = Transport::new(7, 9);
    assert_eq!(pair.client_token(), 7);
    assert_eq!(pair.server_token(), 9);
    assert!(!pair.is_closed());
    assert_eq!(pair.side_of(7), Some(Side::Client));
    assert_eq!(pair.side_of(9), Some(Side::Server));
    assert_eq!(pair.side_of(8), None);
    assert_eq!(pair.read_budget(Side::Client), 4096);
    assert_eq!(pair.read_budget(Side::Server), 4096);
    assert!(pair.pending(Side::Client).is_empty());
    assert!(pair.pending(Side::Server).is_empty());
}

#[test]
fn client_bytes_wait_for_the_server_socket() {
    let mut pair = Transport::new(7, 9);
    let actions = pair.client_readable(ReadOutcome::Data(b"ping".to_vec()), false);
    assert_eq!(actions, vec![Action::Reregister { token: 9, interest: Interest::All }]);
    assert_eq!(pair.pending(Side::Server), b"ping");
    assert!(pair.pending(Side::Client).is_empty());
    assert_eq!(pair.read_budget(Side::Client), 4092);
    assert_eq!(pair.read_budget(Side::Server), 4096);
}

#[test]
fn server_bytes_wait_for_the_client_socket() {
    let mut pair = Transport::new(7, 9);
    let actions = pair.server_readable(ReadOutcome::Data(b"pong!".to_vec()), false);
    assert_eq!(actions, vec![Action::Reregister { token: 7, interest: Interest::All }]);
    assert_eq!(pair.pending(Side::Client), b"pong!");
    assert!(pair.pending(Side::Server).is_empty());
    assert_eq!(pair.read_budget(Side::Server), 4091);
    assert_eq!(pair.read_budget(Side::Client), 4096);
}

#[test]
fn a_read_that_would_block_changes_nothing() {
    let mut pair = Transport::new(7, 9);
    assert!(pair.client_readable(ReadOutcome::WouldBlock, false).is_empty());
    assert!(pair.server_readable(ReadOutcome::WouldBlock, false).is_empty());
    assert!(!pair.is_closed());
    assert_eq!(pair.read_budget(Side::Client), 4096);
    pair.client_readable(ReadOutcome::Data(b"x".to_vec()), false);
    let actions = pair.client_readable(ReadOutcome::WouldBlock, false);
    assert_eq!(actions, vec![Action::Reregister { token: 9, interest: Interest::All }]);
    assert_eq!(pair.pending(Side::Server), b"x");
}

#[test]
fn server_writable_drains_what_the_client_sent() {
    let mut pair = Transport::new(7, 9);
    pair.client_readable(ReadOutcome::Data(b"abcdef".to_vec()), false);
    assert!(pair.server_writable(WriteOutcome::Written(2)).is_empty());
    assert_eq!(pair.pending(Side::Server), b"cdef");
    assert!(pair.server_writable(WriteOutcome::WouldBlock).is_empty());
    assert_eq!(pair.pending(Side::Server), b"cdef");
    let actions = pair.server_writable(WriteOutcome::Written(4));
    assert_eq!(actions, vec![Action::Reregister { token: 9, interest: Interest::Readable }]);
    assert!(pair.pending(Side::Server).is_empty());
    assert_eq!(pair.read_budget(Side::Client), 4096);
}

#[test]
fn client_writable_drains_what_the_server_sent() {
    let mut pair = Transport::new(7, 9);
    pair.server_readable(ReadOutcome::Data(b"abcdef".to_vec()), false);
    assert!(pair.client_writable(WriteOutcome::Written(5)).is_empty());
    assert_eq!(pair.pending(Side::Client), b"f");
    let actions = pair.client_writable(WriteOutcome::Written(9));
    assert_eq!(actions, vec![Action::Reregister { token: 7, interest: Interest::Readable }]);
    assert!(pair.pending(Side::Client).is_empty());
}

#[test]
fn writable_with_nothing_to_send_drops_write_interest() {
    let mut pair = Transport::new(7, 9);
    assert_eq!(
        pair.client_writable(WriteOutcome::WouldBlock),
        vec![Action::Reregister { token: 7, interest: Interest::Readable }]
    );
    assert_eq!(
        pair.server_writable(WriteOutcome::Written(0)),
        vec![Action::Reregister { token: 9, interest: Interest::Readable }]
    );
}

#[test]
fn hangup_tears_the_pair_down() {
    let mut pair = Transport::new(7, 9);
    let actions = pair.client_readable(ReadOutcome::Data(b"bye".to_vec()), true);
    assert_eq!(actions, teardown_of(7, 9));
    assert!(pair.is_closed());
    let mut pair = Transport::new(7, 9);
    let actions = pair.server_readable(ReadOutcome::WouldBlock, true);
    assert_eq!(actions, teardown_of(7, 9));
    assert!(pair.is_closed());
}

#[test]
fn end_of_stream_tears_the_pair_down() {
    let mut pair = Transport::new(7, 9);
    let actions = pair.server_readable(ReadOutcome::Data(Vec::new()), false);
    assert_eq!(actions, teardown_of(7, 9));
    assert!(pair.is_closed());
}

#[test]
fn no_bytes_from_a_read_without_room_is_no_end_of_stream() {
    let mut pair = Transport::new(7, 9);
    pair.client_readable(ReadOutcome::Data(vec![1u8; 4096]), false);
    assert_eq!(pair.read_budget(Side::Client), 0);
    let actions = pair.client_readable(ReadOutcome::Data(Vec::new()), false);
    assert_eq!(actions, vec![Action::Reregister { token: 9, interest: Interest::All }]);
    assert!(!pair.is_closed());
}

#[test]
fn failed_io_tears_the_pair_down() {
    let mut pair = Transport::new(7, 9);
    assert_eq!(pair.client_readable(ReadOutcome::Failed, false), teardown_of(7, 9));
    assert!(pair.is_closed());
    let mut pair = Transport::new(7, 9);
    assert_eq!(pair.server_readable(ReadOutcome::Failed, false), teardown_of(7, 9));
    let mut pair = Transport::new(7, 9);
    assert_eq!(pair.client_writable(WriteOutcome::Failed), teardown_of(7, 9));
    assert!(pair.is_closed());
    let mut pair = Transport::new(7, 9);
    assert_eq!(pair.server_writable(WriteOutcome::Failed), teardown_of(7, 9));
    assert!(pair.is_closed());
}

#[test]
fn teardown_twice_asks_for_nothing_the_second_time() {
    let mut pair = Transport::new(7, 9);
    assert_eq!(pair.teardown(), teardown_of(7, 9));
    assert!(pair.is_closed());
    assert!(pair.teardown().is_empty());
    assert!(pair.is_closed());
}

#[test]
fn a_closed_pair_ignores_every_step() {
    let mut pair = Transport::new(7, 9);
    pair.client_readable(ReadOutcome::Data(b"kept".to_vec()), false);
    pair.teardown();
    assert!(pair.client_readable(ReadOutcome::Data(b"late".to_vec()), false).is_empty());
    assert!(pair.server_readable(ReadOutcome::Failed, true).is_empty());
    assert!(pair.client_writable(WriteOutcome::Written(3)).is_empty());
    assert!(pair.server_writable(WriteOutcome::Written(3)).is_empty());
    assert!(pair.readable(7, ReadOutcome::WouldBlock, true).is_empty());
    assert!(pair.writable(9, WriteOutcome::Failed).is_empty());
    assert_eq!(pair.pending(Side::Server), b"kept");
    assert_eq!(pair.read_budget(Side::Client), 4092);
}

#[test]
fn readable_and_writable_route_by_handle() {
    let mut pair = Transport::new(7, 9);
    assert_eq!(
        pair.readable(7, ReadOutcome::Data(b"up".to_vec()), false),
        vec![Action::Reregister { token: 9, interest: Interest::All }]
    );
    assert_eq!(
        pair.readable(9, ReadOutcome::Data(b"down".to_vec()), false),
        vec![Action::Reregister { token: 7, interest: Interest::All }]
    );
    assert_eq!(pair.pending(Side::Server), b"up");
    assert_eq!(pair.pending(Side::Client), b"down");
    assert_eq!(
        pair.writable(9, WriteOutcome::Written(2)),
        vec![Action::Reregister { token: 9, interest: Interest::Readable }]
    );
    assert!(pair.writable(7, WriteOutcome::Written(1)).is_empty());
    assert_eq!(pair.pending(Side::Client), b"own");
}

#[test]
fn a_handle_of_another_pair_is_ignored() {
    let mut pair = Transport::new(7, 9);
    pair.readable(7, ReadOutcome::Data(b"mine".to_vec()), false);
    assert!(pair.readable(8, ReadOutcome::Data(b"alien".to_vec()), true).is_empty());
    assert!(pair.writable(8, WriteOutcome::Failed).is_empty());
    assert!(!pair.is_closed());
    assert_eq!(pair.pending(Side::Server), b"mine");
    assert!(pair.pending(Side::Client).is_empty());
}

#[test]
fn a_full_buffer_stops_reads_until_the_peer_drains() {
    let mut pair = Transport::new(7, 9);
    let block: Vec<u8> = (0..5000u32).map(|i| (i % 251) as u8).collect();
    pair.client_readable(ReadOutcome::Data(block.clone()), false);
    assert_eq!(pair.read_budget(Side::Client), 0);
    pair.client_readable(ReadOutcome::Data(b"dropped".to_vec()), false);
    assert_eq!(pair.read_budget(Side::Client), 0);
    assert_eq!(pair.pending(Side::Server), &block[..4096]);
    pair.server_writable(WriteOutcome::Written(1000));
    assert_eq!(pair.read_budget(Side::Client), 1000);
    pair.client_readable(ReadOutcome::Data(block[4096..].to_vec()), false);
    assert_eq!(pair.read_budget(Side::Client), 96);
    let mut out: Vec<u8> = block[..1000].to_vec();
    loop {
        let chunk = pair.pending(Side::Server).to_vec();
        if chunk.is_empty() {
            break;
        }
        out.extend_from_slice(&chunk);
        pair.server_writable(WriteOutcome::Written(chunk.len()));
    }
    assert_eq!(out, block);
}
