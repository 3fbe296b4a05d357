//! End-to-end transfers: a sender session and a receiver wired back to back,
//! with the test shuttling frames the way the routed transport would.

use xact::errors::ErrorKind;
use xact::receiver::{BlobReceiver, BlobReceiverBehavior, BLOB_TTL_MS};
use xact::sender::{SenderSession, SenderPhase};
use xact::XactError;

/// Records deliveries so tests can check what reached the application.
struct RecordingBehavior {
    ready: bool,
    completed: Vec<(Vec<u8>, Vec<u8>)>,
}

impl BlobReceiverBehavior for RecordingBehavior {
    fn on_ready(&mut self, _data_size: usize) -> bool {
        self.ready
    }

    fn on_info(&mut self, _msg: &str) {}

    fn on_complete(&mut self, id: &[u8], array: &[u8]) {
        self.completed.push((id.to_vec(), array.to_vec()));
    }
}

fn admitting() -> RecordingBehavior {
    RecordingBehavior { ready: true, completed: Vec::new() }
}

/// What the DEALER side sees of a routed reply: the identity frame is
/// stripped by the transport, the empty delimiter stays.
fn strip_identity(m: &[Vec<u8>]) -> Vec<Vec<u8>> {
    m[1..].to_vec()
}

/// What the ROUTER side sees of a sent command: the transport prepends the
/// peer identity.
fn route(sender_id: &[u8], mut frames: Vec<Vec<u8>>) -> Vec<Vec<u8>> {
    let mut v = vec![sender_id.to_vec()];
    v.append(&mut frames);
    v
}

/// Drives one whole transfer through both state machines, delivering every
/// receiver reply to the sender in order. Returns the progress reports and
/// the number of chunks sent. `corrupt_hash` flips one byte of the digest
/// frame before END goes out.
fn run_transfer(
    receiver: &mut BlobReceiver<RecordingBehavior>,
    sender_id: &[u8],
    blob_id: &[u8],
    data: &[u8],
    corrupt_hash: bool,
) -> Result<(Vec<Vec<u8>>, usize), XactError> {
    let now = 0u64;
    let mut sess = SenderSession::new(blob_id, data, false);
    let mut inbox: Vec<Vec<Vec<u8>>> = Vec::new();
    let mut next = 0usize;

    for m in receiver.handle_message(&route(sender_id, sess.ping_frames()), now) {
        inbox.push(strip_identity(&m));
    }
    sess.handle_pong(&inbox[next])?;
    next += 1;

    for m in receiver.handle_message(&route(sender_id, sess.start_frames()), now) {
        inbox.push(strip_identity(&m));
    }
    sess.handle_start_reply(&inbox[next])?;
    next += 1;

    let mut progress: Vec<Vec<u8>> = vec![b"Progress: 0%".to_vec()];
    let mut chunks = 0usize;
    while sess.phase() == SenderPhase::Streaming {
        sess.handle_token(&inbox[next])?;
        next += 1;
        let chunk_msg = sess.next_chunk();
        chunks += 1;
        progress.push(sess.progress_message());
        for m in receiver.handle_message(&route(sender_id, chunk_msg), now) {
            inbox.push(strip_identity(&m));
        }
    }

    let mut end_msg = sess.end_frames();
    if corrupt_hash {
        end_msg[1][0] = if end_msg[1][0] == b'0' { b'1' } else { b'0' };
    }
    for m in receiver.handle_message(&route(sender_id, end_msg), now) {
        inbox.push(strip_identity(&m));
    }

    loop {
        let done = sess.handle_end_reply(&inbox[next])?;
        next += 1;
        if done {
            break;
        }
    }
    Ok((progress, chunks))
}

#[test]
fn transfer_small_string_delivers_byte_exactly() {
    let mut r = BlobReceiver::new("tcp://*:1234", 10_000_000, admitting());
    let (progress, chunks) =
        run_transfer(&mut r, b"peer-1", b"msg-0", b"ermahgerd", false).unwrap();
    assert_eq!(chunks, 1);
    assert_eq!(progress, vec![b"Progress: 0%".to_vec(), b"Progress: 100%".to_vec()]);
    assert_eq!(r.behavior.completed, vec![(b"peer-1".to_vec(), b"ermahgerd".to_vec())]);
    assert_eq!(r.session_count(), 0);
}

#[test]
fn transfer_hundred_megabytes_in_ten_chunks() {
    let data = vec![0x2au8; 100_000_000];
    let mut r = BlobReceiver::new("tcp://*:1234", 10_000_000, admitting());
    let (progress, chunks) = run_transfer(&mut r, b"peer-1", b"msg-1", &data, false).unwrap();
    assert_eq!(chunks, 10);
    let expected: Vec<Vec<u8>> = (0..=10)
        .map(|i| format!("Progress: {}%", 10 * i).into_bytes())
        .collect();
    assert_eq!(progress, expected);
    assert_eq!(r.behavior.completed.len(), 1);
    assert_eq!(r.behavior.completed[0].0, b"peer-1".to_vec());
    assert_eq!(r.behavior.completed[0].1, data);
    assert_eq!(r.session_count(), 0);
}

#[test]
fn transfer_empty_blob_succeeds_without_chunks() {
    let mut r = BlobReceiver::new("tcp://*:1234", 10_000_000, admitting());
    let (progress, chunks) = run_transfer(&mut r, b"peer-1", b"msg-e", b"", false).unwrap();
    assert_eq!(chunks, 0);
    assert_eq!(progress, vec![b"Progress: 0%".to_vec()]);
    assert_eq!(r.behavior.completed, vec![(b"peer-1".to_vec(), Vec::new())]);
}

#[test]
fn exact_multiple_of_chunk_size_sends_no_empty_tail() {
    let data = vec![7u8; 40];
    let mut r = BlobReceiver::new("tcp://*:1234", 10, admitting());
    let (_, chunks) = run_transfer(&mut r, b"peer-1", b"msg-m", &data, false).unwrap();
    assert_eq!(chunks, 4);
    assert_eq!(r.behavior.completed, vec![(b"peer-1".to_vec(), data)]);
}

#[test]
fn declined_transfer_errors_with_nogo_and_leaves_no_state() {
    let mut r = BlobReceiver::new(
        "tcp://*:1234",
        10_000_000,
        RecordingBehavior { ready: false, completed: Vec::new() },
    );
    let e = run_transfer(&mut r, b"peer-1", b"msg-0", b"ermahgerd", false).unwrap_err();
    assert_eq!(e.kind(), ErrorKind::Nogo);
    assert_eq!(r.session_count(), 0);
    assert!(r.behavior.completed.is_empty());
}

#[test]
fn corrupted_hash_fails_receiver_and_sender() {
    let mut r = BlobReceiver::new("tcp://*:1234", 4, admitting());
    let e = run_transfer(&mut r, b"peer-1", b"msg-0", b"ermahgerd", true).unwrap_err();
    assert_eq!(e.kind(), ErrorKind::InvalidResponse);
    assert!(r.behavior.completed.is_empty());
    assert_eq!(r.session_count(), 0);
}

#[test]
fn abandoned_transfer_is_reaped_after_ttl() {
    let mut r = BlobReceiver::new("tcp://*:1234", 4, admitting());
    let mut sess = SenderSession::new(b"msg-0", b"ermahgerd", false);
    let out = r.handle_message(&route(b"peer-1", sess.ping_frames()), 0);
    sess.handle_pong(&strip_identity(&out[0])).unwrap();
    let out = r.handle_message(&route(b"peer-1", sess.start_frames()), 0);
    sess.handle_start_reply(&strip_identity(&out[0])).unwrap();
    sess.handle_token(&strip_identity(&out[1])).unwrap();
    let chunk_msg = sess.next_chunk();
    r.handle_message(&route(b"peer-1", chunk_msg), 0);
    // The sender goes silent here; the receiver's pruner takes over.
    r.prune_dead_blobs(BLOB_TTL_MS - 1);
    assert_eq!(r.session_count(), 1);
    r.prune_dead_blobs(BLOB_TTL_MS);
    assert_eq!(r.session_count(), 0);
    assert!(r.behavior.completed.is_empty());
}

#[test]
fn two_concurrent_senders_both_complete() {
    let mut r = BlobReceiver::new("tcp://*:1234", 4, admitting());
    let data_a = vec![0xaau8; 10];
    let data_b = b"zzzzzzz".to_vec();
    let mut sess_a = SenderSession::new(b"blob-a", &data_a, false);
    let mut sess_b = SenderSession::new(b"blob-b", &data_b, false);
    let mut inbox_a: Vec<Vec<Vec<u8>>> = Vec::new();
    let mut inbox_b: Vec<Vec<Vec<u8>>> = Vec::new();
    let mut next_a = 0usize;
    let mut next_b = 0usize;

    for m in r.handle_message(&route(b"peer-a", sess_a.ping_frames()), 0) {
        inbox_a.push(strip_identity(&m));
    }
    for m in r.handle_message(&route(b"peer-b", sess_b.ping_frames()), 0) {
        inbox_b.push(strip_identity(&m));
    }
    sess_a.handle_pong(&inbox_a[next_a]).unwrap();
    next_a += 1;
    sess_b.handle_pong(&inbox_b[next_b]).unwrap();
    next_b += 1;
    for m in r.handle_message(&route(b"peer-a", sess_a.start_frames()), 0) {
        inbox_a.push(strip_identity(&m));
    }
    for m in r.handle_message(&route(b"peer-b", sess_b.start_frames()), 0) {
        inbox_b.push(strip_identity(&m));
    }
    sess_a.handle_start_reply(&inbox_a[next_a]).unwrap();
    next_a += 1;
    sess_b.handle_start_reply(&inbox_b[next_b]).unwrap();
    next_b += 1;

    // Interleave the two streams chunk by chunk.
    while sess_a.phase() == SenderPhase::Streaming || sess_b.phase() == SenderPhase::Streaming {
        if sess_a.phase() == SenderPhase::Streaming {
            sess_a.handle_token(&inbox_a[next_a]).unwrap();
            next_a += 1;
            for m in r.handle_message(&route(b"peer-a", sess_a.next_chunk()), 0) {
                inbox_a.push(strip_identity(&m));
            }
        }
        if sess_b.phase() == SenderPhase::Streaming {
            sess_b.handle_token(&inbox_b[next_b]).unwrap();
            next_b += 1;
            for m in r.handle_message(&route(b"peer-b", sess_b.next_chunk()), 0) {
                inbox_b.push(strip_identity(&m));
            }
        }
    }

    for m in r.handle_message(&route(b"peer-a", sess_a.end_frames()), 0) {
        inbox_a.push(strip_identity(&m));
    }
    for m in r.handle_message(&route(b"peer-b", sess_b.end_frames()), 0) {
        inbox_b.push(strip_identity(&m));
    }
    loop {
        if sess_a.handle_end_reply(&inbox_a[next_a]).unwrap() {
            break;
        }
        next_a += 1;
    }
    loop {
        if sess_b.handle_end_reply(&inbox_b[next_b]).unwrap() {
            break;
        }
        next_b += 1;
    }

    assert_eq!(
        r.behavior.completed,
        vec![(b"peer-a".to_vec(), data_a), (b"peer-b".to_vec(), data_b)]
    );
    assert_eq!(r.session_count(), 0);
}
