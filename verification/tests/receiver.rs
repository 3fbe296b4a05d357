//! Tests that drive the receiver state machine one message at a time.

use sha2::Digest;
use xact::receiver::{BlobReceiver, BlobReceiverBehavior, BasicBlobReceiverBehavior, BLOB_TTL_MS};

/// Records every callback so tests can inspect admission and delivery.
struct ProbeBehavior {
    ready: bool,
    ready_sizes: Vec<usize>,
    completed: Vec<(Vec<u8>, Vec<u8>)>,
}

impl ProbeBehavior {
    fn admitting() -> ProbeBehavior {
        ProbeBehavior { ready: true, ready_sizes: Vec::new(), completed: Vec::new() }
    }

    fn declining() -> ProbeBehavior {
        ProbeBehavior { ready: false, ready_sizes: Vec::new(), completed: Vec::new() }
    }
}

impl BlobReceiverBehavior for ProbeBehavior {
    fn on_ready(&mut self, data_size: usize) -> bool {
        self.ready_sizes.push(data_size);
        self.ready
    }

    fn on_info(&mut self, _msg: &str) {}

    fn on_complete(&mut self, id: &[u8], array: &[u8]) {
        self.completed.push((id.to_vec(), array.to_vec()));
    }
}

fn msg(parts: &[&[u8]]) -> Vec<Vec<u8>> {
    parts.iter().map(|p| p.to_vec()).collect()
}

fn digest_hex(data: &[u8]) -> Vec<u8> {
    hex::encode(sha2::Sha256::digest(data)).into_bytes()
}

#[test]
fn ping_gets_routed_pong() {
    let mut r = BlobReceiver::new("tcp://*:1234", 4, BasicBlobReceiverBehavior);
    let out = r.handle_message(&msg(&[b"peer-1", b"PING"]), 0);
    assert_eq!(out, vec![msg(&[b"peer-1", b"", b"PONG"])]);
}

#[test]
fn start_admits_with_gogo_and_full_credit_window() {
    let mut r = BlobReceiver::new("tcp://*:1234", 4, ProbeBehavior::admitting());
    let out = r.handle_message(&msg(&[b"peer-1", b"START", b"blob-1", b"9"]), 0);
    assert_eq!(out.len(), 11);
    assert_eq!(out[0], msg(&[b"peer-1", b"", b"GOGO", b"4"]));
    for token in &out[1..] {
        assert_eq!(*token, msg(&[b"peer-1", b"", b"TOKEN"]));
    }
    assert!(r.has_session(b"peer-1"));
    assert_eq!(r.behavior.ready_sizes, vec![9]);
}

#[test]
fn start_declined_sends_nogo_and_keeps_table_empty() {
    let mut r = BlobReceiver::new("tcp://*:1234", 4, ProbeBehavior::declining());
    let out = r.handle_message(&msg(&[b"peer-1", b"START", b"blob-1", b"9"]), 0);
    assert_eq!(out, vec![msg(&[b"peer-1", b"", b"NOGO", b"0"])]);
    assert!(!r.has_session(b"peer-1"));
    assert_eq!(r.session_count(), 0);
}

#[test]
fn start_with_bad_size_aborts_silently() {
    let mut r = BlobReceiver::new("tcp://*:1234", 4, ProbeBehavior::admitting());
    let out = r.handle_message(&msg(&[b"peer-1", b"START", b"blob-1", b"nine"]), 0);
    assert!(out.is_empty());
    assert!(!r.has_session(b"peer-1"));
    assert!(r.behavior.ready_sizes.is_empty());
}

#[test]
fn chunk_from_unknown_sender_is_dropped() {
    let mut r = BlobReceiver::new("tcp://*:1234", 4, ProbeBehavior::admitting());
    let out = r.handle_message(&msg(&[b"peer-1", b"CHUNK", b"data"]), 0);
    assert!(out.is_empty());
    assert_eq!(r.session_count(), 0);
}

#[test]
fn chunk_gets_one_replacement_token() {
    let mut r = BlobReceiver::new("tcp://*:1234", 4, ProbeBehavior::admitting());
    r.handle_message(&msg(&[b"peer-1", b"START", b"blob-1", b"9"]), 0);
    let out = r.handle_message(&msg(&[b"peer-1", b"CHUNK", b"erma"]), 100);
    assert_eq!(out, vec![msg(&[b"peer-1", b"", b"TOKEN"])]);
}

#[test]
fn full_transfer_delivers_exact_bytes() {
    let mut r = BlobReceiver::new("tcp://*:1234", 4, ProbeBehavior::admitting());
    r.handle_message(&msg(&[b"peer-1", b"START", b"blob-1", b"9"]), 0);
    r.handle_message(&msg(&[b"peer-1", b"CHUNK", b"erma"]), 1);
    r.handle_message(&msg(&[b"peer-1", b"CHUNK", b"hger"]), 2);
    r.handle_message(&msg(&[b"peer-1", b"CHUNK", b"d"]), 3);
    let hash = digest_hex(b"ermahgerd");
    let out = r.handle_message(&msg(&[b"peer-1", b"END", &hash]), 4);
    assert_eq!(out, vec![msg(&[b"peer-1", b"", b"OK", b"Great success"])]);
    assert_eq!(r.behavior.completed, vec![(b"peer-1".to_vec(), b"ermahgerd".to_vec())]);
    assert!(!r.has_session(b"peer-1"));
}

#[test]
fn frames_after_ok_do_not_resurrect_the_session() {
    let mut r = BlobReceiver::new("tcp://*:1234", 4, ProbeBehavior::admitting());
    r.handle_message(&msg(&[b"peer-1", b"START", b"blob-1", b"4"]), 0);
    r.handle_message(&msg(&[b"peer-1", b"CHUNK", b"erma"]), 1);
    let hash = digest_hex(b"erma");
    r.handle_message(&msg(&[b"peer-1", b"END", &hash]), 2);
    assert!(!r.has_session(b"peer-1"));

    let out = r.handle_message(&msg(&[b"peer-1", b"CHUNK", b"more"]), 3);
    assert!(out.is_empty());
    assert!(!r.has_session(b"peer-1"));
    let out = r.handle_message(&msg(&[b"peer-1", b"END", &hash]), 4);
    assert!(out.is_empty());
    assert!(!r.has_session(b"peer-1"));
    assert_eq!(r.behavior.completed.len(), 1);
}

#[test]
fn wrong_hash_fails_and_discards() {
    let mut r = BlobReceiver::new("tcp://*:1234", 4, ProbeBehavior::admitting());
    r.handle_message(&msg(&[b"peer-1", b"START", b"blob-1", b"9"]), 0);
    r.handle_message(&msg(&[b"peer-1", b"CHUNK", b"ermahgerd"]), 1);
    let mut hash = digest_hex(b"ermahgerd");
    hash[0] = if hash[0] == b'0' { b'1' } else { b'0' };
    let out = r.handle_message(&msg(&[b"peer-1", b"END", &hash]), 2);
    assert_eq!(out, vec![msg(&[b"peer-1", b"", b"FAIL", b"Hash mismatch"])]);
    assert!(r.behavior.completed.is_empty());
    assert!(!r.has_session(b"peer-1"));
}

#[test]
fn end_for_unknown_sender_is_silent() {
    let mut r = BlobReceiver::new("tcp://*:1234", 4, ProbeBehavior::admitting());
    let hash = digest_hex(b"whatever");
    let out = r.handle_message(&msg(&[b"peer-1", b"END", &hash]), 0);
    assert!(out.is_empty());
}

#[test]
fn idle_session_is_pruned_after_ttl() {
    let mut r = BlobReceiver::new("tcp://*:1234", 4, ProbeBehavior::admitting());
    r.handle_message(&msg(&[b"peer-1", b"START", b"blob-1", b"9"]), 0);
    r.prune_dead_blobs(BLOB_TTL_MS - 1);
    assert!(r.has_session(b"peer-1"));
    r.prune_dead_blobs(BLOB_TTL_MS);
    assert!(!r.has_session(b"peer-1"));
    assert!(r.behavior.completed.is_empty());
}

#[test]
fn chunk_refreshes_the_ttl() {
    let mut r = BlobReceiver::new("tcp://*:1234", 4, ProbeBehavior::admitting());
    r.handle_message(&msg(&[b"peer-1", b"START", b"blob-1", b"9"]), 0);
    r.handle_message(&msg(&[b"peer-1", b"CHUNK", b"erma"]), 5_000);
    r.prune_dead_blobs(BLOB_TTL_MS);
    assert!(r.has_session(b"peer-1"));
    r.prune_dead_blobs(5_000 + BLOB_TTL_MS);
    assert!(!r.has_session(b"peer-1"));
}

#[test]
fn prune_keeps_live_sessions_only() {
    let mut r = BlobReceiver::new("tcp://*:1234", 4, ProbeBehavior::admitting());
    r.handle_message(&msg(&[b"peer-1", b"START", b"blob-1", b"9"]), 0);
    r.handle_message(&msg(&[b"peer-2", b"START", b"blob-2", b"9"]), 6_000);
    r.prune_dead_blobs(BLOB_TTL_MS);
    assert!(!r.has_session(b"peer-1"));
    assert!(r.has_session(b"peer-2"));
}

#[test]
fn unknown_verbs_and_short_messages_are_dropped() {
    let mut r = BlobReceiver::new("tcp://*:1234", 4, ProbeBehavior::admitting());
    assert!(r.handle_message(&msg(&[b"peer-1", b"BOGUS"]), 0).is_empty());
    assert!(r.handle_message(&msg(&[b"peer-1"]), 0).is_empty());
    assert!(r.handle_message(&msg(&[]), 0).is_empty());
    assert!(r.handle_message(&msg(&[b"peer-1", b"START", b"blob-1"]), 0).is_empty());
    assert!(r.handle_message(&msg(&[b"peer-1", b"CHUNK"]), 0).is_empty());
    assert!(r.handle_message(&msg(&[b"peer-1", b"END", b"aa", b"extra"]), 0).is_empty());
    assert_eq!(r.session_count(), 0);
}

#[test]
fn two_senders_interleave_independently() {
    let mut r = BlobReceiver::new("tcp://*:1234", 4, ProbeBehavior::admitting());
    r.handle_message(&msg(&[b"peer-1", b"START", b"blob-1", b"8"]), 0);
    r.handle_message(&msg(&[b"peer-2", b"START", b"blob-2", b"4"]), 0);
    r.handle_message(&msg(&[b"peer-1", b"CHUNK", b"aaaa"]), 1);
    r.handle_message(&msg(&[b"peer-2", b"CHUNK", b"zzzz"]), 1);
    r.handle_message(&msg(&[b"peer-1", b"CHUNK", b"bbbb"]), 2);
    let h2 = digest_hex(b"zzzz");
    r.handle_message(&msg(&[b"peer-2", b"END", &h2]), 3);
    let h1 = digest_hex(b"aaaabbbb");
    r.handle_message(&msg(&[b"peer-1", b"END", &h1]), 4);
    assert_eq!(
        r.behavior.completed,
        vec![
            (b"peer-2".to_vec(), b"zzzz".to_vec()),
            (b"peer-1".to_vec(), b"aaaabbbb".to_vec()),
        ]
    );
    assert_eq!(r.session_count(), 0);
}

#[test]
fn restarting_a_session_replaces_it() {
    let mut r = BlobReceiver::new("tcp://*:1234", 4, ProbeBehavior::admitting());
    r.handle_message(&msg(&[b"peer-1", b"START", b"blob-1", b"9"]), 0);
    r.handle_message(&msg(&[b"peer-1", b"CHUNK", b"junk"]), 1);
    r.handle_message(&msg(&[b"peer-1", b"START", b"blob-1b", b"4"]), 2);
    r.handle_message(&msg(&[b"peer-1", b"CHUNK", b"good"]), 3);
    let h = digest_hex(b"good");
    r.handle_message(&msg(&[b"peer-1", b"END", &h]), 4);
    assert_eq!(r.behavior.completed, vec![(b"peer-1".to_vec(), b"good".to_vec())]);
}
