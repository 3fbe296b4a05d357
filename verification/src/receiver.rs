//! The receiving side of the protocol: per-sender blob assembly, credit
//! grants, digest verification, and TTL-based expiry.
//!
//! The receiver is an event-driven state machine. The embedding program owns
//! the socket; it hands every received multipart message to
//! [`BlobReceiver::handle_message`] together with the current monotonic time
//! in milliseconds, sends back the multipart messages returned, and calls
//! [`BlobReceiver::prune_dead_blobs`] once per loop iteration.

use vstd::prelude::*;

use crate::codec::{bytes_to_int, int_to_bytes, is_decimal, decimal_value, decimal_repr, bytes_eq};
use crate::hashing::{sha256_hex, sha256_hex_frame};
use crate::wire::{
    verb_ping, verb_pong, verb_start, verb_gogo, verb_nogo, verb_token, verb_chunk, verb_end,
    verb_ok, verb_fail, text_great_success, text_hash_mismatch, text_zero, ping_verb, pong_verb,
    start_verb, gogo_verb, nogo_verb, token_verb, chunk_verb, end_verb, ok_verb, fail_verb,
    great_success_text, hash_mismatch_text, zero_text, concat_chunks, lemma_concat_chunks_push,
    msg_view, outs_view, routed3, routed4, append_bytes,
};

verus! {

/// How long a session may sit without a chunk before it is reaped,
/// in milliseconds.
pub const BLOB_TTL_MS: u64 = 10_000;

/// The chunk size the receiver offers in its GOGO reply.
pub const DEFAULT_CHUNK_SIZE: usize = 10_000_000;

/// The credit window: the most chunks that may be outstanding per session.
pub const MAX_SIMUL_CHUNKS: usize = 10;

/// Slack added to the chunk size for the transport's message-size cap.
pub const MSG_PADDING: usize = 100;

/// The value the embedding program sends down its stop channel.
pub const STOP: bool = true;

/// One sender's in-progress blob: the application tag, the bytes assembled
/// so far, and the deadline after which the session is reaped.
///
/// The ghost fields record the credit accounting and the arrival order of
/// payloads, so that contracts can speak about both.
pub struct Blob {
    /// The application-chosen tag carried in the START command.
    pub id: Vec<u8>,
    /// The payload bytes assembled so far, in arrival order.
    pub array: Vec<u8>,
    /// The monotonic instant, in milliseconds, at which this session dies.
    pub time_to_die: u64,
    /// How many credits the receiver has granted this session.
    pub tokens_granted: Ghost<nat>,
    /// How many chunk payloads this session has consumed.
    pub chunks_received: Ghost<nat>,
    /// The payloads consumed, in arrival order.
    pub payloads: Ghost<Seq<Seq<u8>>>,
}

impl Blob {
    /// The session's internal invariant: credits granted stay exactly one
    /// window ahead of chunks received, and the assembled bytes are exactly
    /// the consumed payloads in order.
    pub open spec fn wf(&self) -> bool {
        &&& self.tokens_granted@ == MAX_SIMUL_CHUNKS as nat + self.chunks_received@
        &&& self.chunks_received@ == self.payloads@.len()
        &&& concat_chunks(self.payloads@) == self.array@
    }

    /// A fresh session for a blob of `array_size` bytes, created at `now`
    /// with the whole credit window granted and nothing assembled yet.
    pub fn new(id: &[u8], array_size: usize, now: u64) -> (b: Blob)
        requires
            now <= u64::MAX - BLOB_TTL_MS,
        ensures
            b.wf(),
            is_fresh_blob(b, id@, now),
    {
        let b = Blob {
            id: vstd::slice::slice_to_vec(id),
            array: Vec::with_capacity(array_size),
            time_to_die: now + BLOB_TTL_MS,
            tokens_granted: Ghost(MAX_SIMUL_CHUNKS as nat),
            chunks_received: Ghost(0),
            payloads: Ghost(Seq::empty()),
        };
        proof {
            assert(concat_chunks(b.payloads@) =~= b.array@);
        }
        b
    }

    /// Whether the session is still live at `now`.
    pub fn is_alive(&self, now: u64) -> (r: bool)
        ensures
            r <==> now < self.time_to_die,
    {
        now < self.time_to_die
    }

    /// Pushes the session's deadline one TTL past `now`.
    pub fn update_ttl(&mut self, now: u64)
        requires
            now <= u64::MAX - BLOB_TTL_MS,
        ensures
            *final(self) == (Blob { time_to_die: (now + BLOB_TTL_MS) as u64, ..*old(self) }),
    {
        self.time_to_die = now + BLOB_TTL_MS;
    }

    /// Appends one chunk payload: the bytes go to the end of the buffer, the
    /// accounting records one more chunk received and one more credit granted
    /// (the caller replies with the replacement credit), and the deadline is
    /// refreshed.
    pub fn consume(&mut self, bytes: &[u8], now: u64)
        requires
            old(self).wf(),
            now <= u64::MAX - BLOB_TTL_MS,
        ensures
            final(self).wf(),
            appended_blob(*old(self), *final(self), bytes@, now),
    {
        append_bytes(&mut self.array, bytes);
        self.update_ttl(now);
        proof {
            lemma_concat_chunks_push(self.payloads@, bytes@);
        }
        self.payloads = Ghost(self.payloads@.push(bytes@));
        self.chunks_received = Ghost(self.chunks_received@ + 1);
        self.tokens_granted = Ghost(self.tokens_granted@ + 1);
    }
}

/// Credit bound: in any well-formed session, the credits granted never outrun
/// the chunks received by more than the window.
pub proof fn lemma_credit_bound(b: &Blob)
    requires
        b.wf(),
    ensures
        b.tokens_granted@ - b.chunks_received@ <= MAX_SIMUL_CHUNKS as int,
{
}

/// `b` is the session a START for tag `blob_id` creates at `now`.
pub open spec fn is_fresh_blob(b: Blob, blob_id: Seq<u8>, now: u64) -> bool {
    &&& b.id@ == blob_id
    &&& b.array@ == Seq::<u8>::empty()
    &&& b.time_to_die == now + BLOB_TTL_MS
    &&& b.tokens_granted@ == MAX_SIMUL_CHUNKS as nat
    &&& b.chunks_received@ == 0
    &&& b.payloads@ == Seq::<Seq<u8>>::empty()
}

/// `new_b` is `old_b` after consuming one payload at `now`.
pub open spec fn appended_blob(old_b: Blob, new_b: Blob, payload: Seq<u8>, now: u64) -> bool {
    &&& new_b.id@ == old_b.id@
    &&& new_b.array@ == old_b.array@ + payload
    &&& new_b.time_to_die == now + BLOB_TTL_MS
    &&& new_b.payloads@ == old_b.payloads@.push(payload)
    &&& new_b.chunks_received@ == old_b.chunks_received@ + 1
    &&& new_b.tokens_granted@ == old_b.tokens_granted@ + 1
}

/// The capability interface to the host application.
pub trait BlobReceiverBehavior {
    /// Admission control: called once per START with the announced size;
    /// returning false declines the transfer.
    fn on_ready(&mut self, data_size: usize) -> bool;

    /// Diagnostic sink for progress and error notes.
    fn on_info(&mut self, msg: &str);

    /// Delivery: called once per verified blob with the sender identity and
    /// the assembled bytes.
    fn on_complete(&mut self, id: &[u8], array: &[u8]);
}

/// A behavior that admits everything and discards diagnostics.
pub struct BasicBlobReceiverBehavior;

impl BlobReceiverBehavior for BasicBlobReceiverBehavior {
    fn on_ready(&mut self, _data_size: usize) -> bool {
        true
    }

    fn on_info(&mut self, _msg: &str) {
    }

    fn on_complete(&mut self, _id: &[u8], _array: &[u8]) {
    }
}

/// Entry `i` of `entries` is keyed by the sender identity `s`.
pub open spec fn entry_key_at(entries: Seq<(Vec<u8>, Blob)>, s: Seq<u8>, i: int) -> bool {
    0 <= i < entries.len() && entries[i].0@ == s
}

/// Some entry of `entries` is keyed by `s`.
pub open spec fn has_key(entries: Seq<(Vec<u8>, Blob)>, s: Seq<u8>) -> bool {
    exists|i: int| entry_key_at(entries, s, i)
}

/// No two entries of `entries` share a sender identity.
pub open spec fn unique_keys(entries: Seq<(Vec<u8>, Blob)>) -> bool {
    forall|i: int, j: int|
        0 <= i < j < entries.len() ==> (#[trigger] entries[i]).0@ != (#[trigger] entries[j]).0@
}

/// The session table as a map from sender identity to session state.
pub open spec fn table_of(entries: Seq<(Vec<u8>, Blob)>) -> Map<Seq<u8>, Blob> {
    Map::new(
        |s: Seq<u8>| has_key(entries, s),
        |s: Seq<u8>| entries[choose|i: int| entry_key_at(entries, s, i)].1,
    )
}

/// Under unique keys, the table maps each entry's identity to that entry's
/// session.
proof fn lemma_table_entry(entries: Seq<(Vec<u8>, Blob)>, i: int)
    requires
        unique_keys(entries),
        0 <= i < entries.len(),
    ensures
        table_of(entries).dom().contains(entries[i].0@),
        table_of(entries)[entries[i].0@] == entries[i].1,
{
    let s = entries[i].0@;
    assert(entry_key_at(entries, s, i));
    let j = choose|j: int| entry_key_at(entries, s, j);
    if i < j {
        assert(entries[i].0@ != entries[j].0@);
    } else if j < i {
        assert(entries[j].0@ != entries[i].0@);
    }
}

/// An identity no entry carries is absent from the table.
proof fn lemma_table_absent(entries: Seq<(Vec<u8>, Blob)>, s: Seq<u8>)
    requires
        !has_key(entries, s),
    ensures
        !table_of(entries).dom().contains(s),
{
}

/// Pushing an entry under a new identity inserts it into the table.
proof fn lemma_table_push(entries: Seq<(Vec<u8>, Blob)>, k: Vec<u8>, b: Blob)
    requires
        unique_keys(entries),
        !has_key(entries, k@),
    ensures
        unique_keys(entries.push((k, b))),
        table_of(entries.push((k, b))) == table_of(entries).insert(k@, b),
{
    let e2 = entries.push((k, b));
    let n = entries.len() as int;
    assert forall|i: int, j: int| 0 <= i < j < e2.len() implies (#[trigger] e2[i]).0@ != (
    #[trigger] e2[j]).0@ by {
        if j < n {
            assert(e2[i] == entries[i] && e2[j] == entries[j]);
        } else {
            assert(e2[j] == (k, b));
            assert(e2[i] == entries[i]);
            assert(entry_key_at(entries, entries[i].0@, i));
        }
    }
    assert forall|s: Seq<u8>| true implies (has_key(e2, s) <==> has_key(entries, s) || s == k@) by {
        if has_key(e2, s) {
            let i = choose|i: int| entry_key_at(e2, s, i);
            if i < n {
                assert(e2[i] == entries[i]);
                assert(entry_key_at(entries, s, i));
            } else {
                assert(e2[i] == (k, b));
            }
        }
        if has_key(entries, s) {
            let i = choose|i: int| entry_key_at(entries, s, i);
            assert(e2[i] == entries[i]);
            assert(entry_key_at(e2, s, i));
        }
        if s == k@ {
            assert(e2[n] == (k, b));
            assert(entry_key_at(e2, s, n));
        }
    }
    assert forall|s: Seq<u8>| #[trigger] table_of(e2).dom().contains(s) implies table_of(e2)[s]
        == table_of(entries).insert(k@, b)[s] by {
        let i = choose|i: int| entry_key_at(e2, s, i);
        lemma_table_entry(e2, i);
        if s == k@ {
            lemma_table_entry(e2, n);
        } else {
            assert(i < n);
            assert(e2[i] == entries[i]);
            lemma_table_entry(entries, i);
        }
    }
    assert(table_of(e2) =~= table_of(entries).insert(k@, b));
}

/// Removing entry `i` removes exactly its identity from the table.
proof fn lemma_table_remove(entries: Seq<(Vec<u8>, Blob)>, i: int)
    requires
        unique_keys(entries),
        0 <= i < entries.len(),
    ensures
        unique_keys(entries.remove(i)),
        table_of(entries.remove(i)) == table_of(entries).remove(entries[i].0@),
{
    let e2 = entries.remove(i);
    let k = entries[i].0@;
    assert forall|p: int, q: int| 0 <= p < q < e2.len() implies (#[trigger] e2[p]).0@ != (
    #[trigger] e2[q]).0@ by {
        let p0 = if p < i { p } else { p + 1 };
        let q0 = if q < i { q } else { q + 1 };
        assert(e2[p] == entries[p0] && e2[q] == entries[q0]);
    }
    assert forall|s: Seq<u8>| true implies (has_key(e2, s) <==> has_key(entries, s) && s != k) by {
        if has_key(e2, s) {
            let p = choose|p: int| entry_key_at(e2, s, p);
            let p0 = if p < i { p } else { p + 1 };
            assert(e2[p] == entries[p0]);
            assert(entry_key_at(entries, s, p0));
            if p0 < i {
                assert(entries[p0].0@ != entries[i].0@);
            } else if i < p0 {
                assert(entries[i].0@ != entries[p0].0@);
            }
        }
        if has_key(entries, s) && s != k {
            let p0 = choose|p0: int| entry_key_at(entries, s, p0);
            let p = if p0 < i { p0 } else { p0 - 1 };
            assert(e2[p] == entries[p0]);
            assert(entry_key_at(e2, s, p));
        }
    }
    assert forall|s: Seq<u8>| #[trigger] table_of(e2).dom().contains(s) implies table_of(e2)[s]
        == table_of(entries).remove(k)[s] by {
        let p = choose|p: int| entry_key_at(e2, s, p);
        lemma_table_entry(e2, p);
        let p0 = if p < i { p } else { p + 1 };
        assert(e2[p] == entries[p0]);
        lemma_table_entry(entries, p0);
    }
    assert(table_of(e2) =~= table_of(entries).remove(k));
}

/// Looks up the entry keyed by `sender`, if any.
fn find_entry(entries: &Vec<(Vec<u8>, Blob)>, sender: &[u8]) -> (r: Option<usize>)
    ensures
        match r {
            Some(i) => entry_key_at(entries@, sender@, i as int),
            None => !has_key(entries@, sender@),
        },
{
    let mut i: usize = 0;
    while i < entries.len()
        invariant
            0 <= i <= entries@.len(),
            forall|j: int| 0 <= j < i ==> (#[trigger] entries@[j]).0@ != sender@,
        decreases entries@.len() - i,
    {
        if bytes_eq(entries[i].0.as_slice(), sender) {
            return Some(i);
        }
        i = i + 1;
    }
    proof {
        assert forall|j: int| !entry_key_at(entries@, sender@, j) by {}
    }
    None
}

/// What a START command does to the session table and what it sends back.
///
/// A malformed size aborts any session of that sender, silently. A valid
/// size is either declined (one NOGO message, table untouched) or admitted
/// (a fresh session replaces any previous one; one GOGO message naming the
/// chunk size, then a full window of TOKEN credits). Which of the two
/// happens is the admission callback's choice.
pub open spec fn start_effect(
    old_t: Map<Seq<u8>, Blob>,
    new_t: Map<Seq<u8>, Blob>,
    sender: Seq<u8>,
    blob_id: Seq<u8>,
    size_bytes: Seq<u8>,
    chunk_size: nat,
    out: Seq<Seq<Seq<u8>>>,
    now: u64,
) -> bool {
    if !is_decimal(size_bytes) || decimal_value(size_bytes) > usize::MAX {
        new_t == old_t.remove(sender) && out == Seq::<Seq<Seq<u8>>>::empty()
    } else {
        ||| (new_t == old_t && out == seq![routed4(sender, verb_nogo(), text_zero())])
        ||| {
            &&& out == seq![routed4(sender, verb_gogo(), decimal_repr(chunk_size))] + Seq::new(
                MAX_SIMUL_CHUNKS as nat,
                |i: int| routed3(sender, verb_token()),
            )
            &&& exists|b: Blob|
                #[trigger] is_fresh_blob(b, blob_id, now) && new_t == old_t.insert(sender, b)
        }
    }
}

/// What a CHUNK command does: an unknown sender is dropped silently; a known
/// sender's payload is appended, its deadline refreshed, and exactly one
/// replacement TOKEN goes back (a payload that would overflow the buffer
/// aborts the session instead).
pub open spec fn chunk_effect(
    old_t: Map<Seq<u8>, Blob>,
    new_t: Map<Seq<u8>, Blob>,
    sender: Seq<u8>,
    payload: Seq<u8>,
    out: Seq<Seq<Seq<u8>>>,
    now: u64,
) -> bool {
    if !old_t.dom().contains(sender) {
        new_t == old_t && out == Seq::<Seq<Seq<u8>>>::empty()
    } else if old_t[sender].array@.len() + payload.len() > usize::MAX {
        new_t == old_t.remove(sender) && out == Seq::<Seq<Seq<u8>>>::empty()
    } else {
        &&& out == seq![routed3(sender, verb_token())]
        &&& exists|nb: Blob|
            #[trigger] appended_blob(old_t[sender], nb, payload, now) && new_t == old_t.insert(
                sender,
                nb,
            )
    }
}

/// What an END command sends back: nothing for an unknown sender; OK when
/// the received hex digest equals the digest of the assembled bytes, FAIL
/// otherwise. In every case the session is gone afterwards.
pub open spec fn end_effect(
    old_t: Map<Seq<u8>, Blob>,
    sender: Seq<u8>,
    hash_bytes: Seq<u8>,
    out: Seq<Seq<Seq<u8>>>,
) -> bool {
    if !old_t.dom().contains(sender) {
        out == Seq::<Seq<Seq<u8>>>::empty()
    } else if hash_bytes == sha256_hex(old_t[sender].array@) {
        out == seq![routed4(sender, verb_ok(), text_great_success())]
    } else {
        out == seq![routed4(sender, verb_fail(), text_hash_mismatch())]
    }
}

/// Hash agreement: the digest the receiver computes independently over the
/// chunks it consumed equals the digest the sender computes over the blob,
/// whenever the session consumed, in order, exactly the chunks the sender
/// cut the blob into. The END comparison then succeeds and the OK reply is
/// owed.
pub proof fn lemma_hash_agreement(
    b: Blob,
    data: Seq<u8>,
    t: Map<Seq<u8>, Blob>,
    sender: Seq<u8>,
    out: Seq<Seq<Seq<u8>>>,
)
    requires
        b.wf(),
        concat_chunks(b.payloads@) == data,
        t.dom().contains(sender),
        t[sender] == b,
        end_effect(t, sender, sha256_hex(data), out),
    ensures
        sha256_hex(b.array@) == sha256_hex(data),
        out == seq![routed4(sender, verb_ok(), text_great_success())],
{
}

/// Idempotent finalization: once a sender's session is gone — finalized,
/// failed, or reaped — further CHUNK and END frames from it change nothing
/// and are answered with silence. Only a new START opens a new session.
pub proof fn lemma_closed_session_not_resurrected(
    t: Map<Seq<u8>, Blob>,
    chunk_t: Map<Seq<u8>, Blob>,
    chunk_out: Seq<Seq<Seq<u8>>>,
    end_t: Map<Seq<u8>, Blob>,
    end_out: Seq<Seq<Seq<u8>>>,
    sender: Seq<u8>,
    payload: Seq<u8>,
    hash_bytes: Seq<u8>,
    now: u64,
)
    requires
        !t.dom().contains(sender),
        chunk_effect(t, chunk_t, sender, payload, chunk_out, now),
        end_t == t.remove(sender),
        end_effect(t, sender, hash_bytes, end_out),
    ensures
        chunk_t == t,
        chunk_out == Seq::<Seq<Seq<u8>>>::empty(),
        end_t == t,
        end_out == Seq::<Seq<Seq<u8>>>::empty(),
{
    assert(t.remove(sender) =~= t);
}

/// What one received multipart message does, whatever its verb.
///
/// The first frame is the routing identity, the second the verb. Messages
/// that are too short, carry an unknown verb, or have the wrong frame count
/// for their verb are dropped without reply and without a state change.
pub open spec fn message_effect(
    old_t: Map<Seq<u8>, Blob>,
    new_t: Map<Seq<u8>, Blob>,
    chunk_size: nat,
    fv: Seq<Seq<u8>>,
    out: Seq<Seq<Seq<u8>>>,
    now: u64,
) -> bool {
    if fv.len() < 2 {
        new_t == old_t && out == Seq::<Seq<Seq<u8>>>::empty()
    } else {
        let sender = fv[0];
        let verb = fv[1];
        if verb == verb_ping() {
            new_t == old_t && out == seq![routed3(sender, verb_pong())]
        } else if verb == verb_start() && fv.len() == 4 {
            start_effect(old_t, new_t, sender, fv[2], fv[3], chunk_size, out, now)
        } else if verb == verb_chunk() && fv.len() == 3 {
            chunk_effect(old_t, new_t, sender, fv[2], out, now)
        } else if verb == verb_end() && fv.len() == 3 {
            new_t == old_t.remove(sender) && end_effect(old_t, sender, fv[2], out)
        } else {
            new_t == old_t && out == Seq::<Seq<Seq<u8>>>::empty()
        }
    }
}

/// The receiving endpoint: the offered chunk size, the session table, and
/// the application's capability callbacks.
pub struct BlobReceiver<B: BlobReceiverBehavior> {
    /// The transport address the embedding program binds for this receiver.
    pub bind_address: String,
    /// The chunk size offered in every GOGO reply.
    pub chunk_size: usize,
    blobs: Vec<(Vec<u8>, Blob)>,
    /// The application's callbacks.
    pub behavior: B,
}

impl<B: BlobReceiverBehavior> BlobReceiver<B> {
    /// The session table: sender identity to session state.
    pub closed spec fn table(&self) -> Map<Seq<u8>, Blob> {
        table_of(self.blobs@)
    }

    /// The number of sessions currently held.
    pub closed spec fn num_sessions(&self) -> nat {
        self.blobs@.len()
    }

    /// The chunk size this receiver offers.
    pub closed spec fn spec_chunk_size(&self) -> usize {
        self.chunk_size
    }

    /// The transport address this receiver was configured with.
    pub closed spec fn spec_bind_address(&self) -> Seq<char> {
        self.bind_address@
    }

    /// The receiver's internal invariant: one session per sender identity,
    /// each session well formed.
    pub closed spec fn wf(&self) -> bool {
        &&& unique_keys(self.blobs@)
        &&& forall|i: int| 0 <= i < self.blobs@.len() ==> (#[trigger] self.blobs@[i]).1.wf()
    }

    /// Every session in a well-formed receiver's table is well formed.
    pub proof fn lemma_sessions_wf(&self)
        requires
            self.wf(),
        ensures
            forall|s: Seq<u8>|
                #[trigger] self.table().dom().contains(s) ==> self.table()[s].wf(),
    {
        assert forall|s: Seq<u8>| #[trigger] self.table().dom().contains(s) implies self.table()[
            s].wf() by {
            let i = choose|i: int| entry_key_at(self.blobs@, s, i);
            lemma_table_entry(self.blobs@, i);
        }
    }

    /// A fresh receiver with an empty session table.
    pub fn new(bind_address: &str, chunk_size: usize, behavior: B) -> (r: BlobReceiver<B>)
        ensures
            r.wf(),
            r.spec_chunk_size() == chunk_size,
            r.spec_bind_address() == bind_address@,
            r.table() == Map::<Seq<u8>, Blob>::empty(),
            r.num_sessions() == 0,
    {
        let r = BlobReceiver {
            bind_address: bind_address.to_owned(),
            chunk_size,
            blobs: Vec::new(),
            behavior,
        };
        proof {
            assert(r.table() =~= Map::<Seq<u8>, Blob>::empty());
        }
        r
    }

    /// How many sessions the table holds right now.
    pub fn session_count(&self) -> (n: usize)
        ensures
            n == self.num_sessions(),
            n == 0 ==> self.table() == Map::<Seq<u8>, Blob>::empty(),
    {
        proof {
            if self.blobs@.len() == 0 {
                assert(self.table() =~= Map::<Seq<u8>, Blob>::empty());
            }
        }
        self.blobs.len()
    }

    /// Whether a session exists for this sender identity.
    pub fn has_session(&self, sender_id: &[u8]) -> (r: bool)
        ensures
            r == self.table().dom().contains(sender_id@),
    {
        find_entry(&self.blobs, sender_id).is_some()
    }

    /// Replies to a liveness probe: one PONG, routed back to the sender.
    pub fn do_ping(&self, sender_id: &[u8]) -> (out: Vec<Vec<Vec<u8>>>)
        ensures
            outs_view(out) == seq![routed3(sender_id@, verb_pong())],
    {
        let mut out: Vec<Vec<Vec<u8>>> = Vec::new();
        out.push(routed_msg3(sender_id, pong_verb()));
        proof {
            assert(outs_view(out) =~= seq![routed3(sender_id@, verb_pong())]);
        }
        out
    }

    /// Removes any session of this sender.
    pub fn abort_transaction(&mut self, sender_id: &[u8])
        requires
            old(self).wf(),
        ensures
            final(self).wf(),
            final(self).spec_chunk_size() == old(self).spec_chunk_size(),
            final(self).table() == old(self).table().remove(sender_id@),
    {
        let found = find_entry(&self.blobs, sender_id);
        match found {
            Some(i) => {
                proof {
                    lemma_table_remove(self.blobs@, i as int);
                }
                let _ = self.blobs.remove(i);
            },
            None => {
                proof {
                    lemma_table_absent(self.blobs@, sender_id@);
                    assert(self.table().remove(sender_id@) =~= self.table());
                }
            },
        }
    }

    /// Handles a START command: parse the announced size, consult the
    /// admission callback, and either decline with NOGO or create a fresh
    /// session, reply GOGO, and pre-grant the whole credit window.
    pub fn do_start(
        &mut self,
        sender_id: &[u8],
        blob_id: &[u8],
        size_bytes: &[u8],
        now: u64,
    ) -> (out: Vec<Vec<Vec<u8>>>)
        requires
            old(self).wf(),
            now <= u64::MAX - BLOB_TTL_MS,
        ensures
            final(self).wf(),
            final(self).spec_chunk_size() == old(self).spec_chunk_size(),
            start_effect(
                old(self).table(),
                final(self).table(),
                sender_id@,
                blob_id@,
                size_bytes@,
                old(self).spec_chunk_size() as nat,
                outs_view(out),
                now,
            ),
    {
        let parsed = bytes_to_int(size_bytes);
        let data_size = match parsed {
            Err(_) => {
                self.abort_transaction(sender_id);
                self.behavior.on_info("Invalid START request. Aborting transaction.");
                let out: Vec<Vec<Vec<u8>>> = Vec::new();
                proof {
                    assert(outs_view(out) =~= Seq::<Seq<Seq<u8>>>::empty());
                }
                return out;
            },
            Ok(n) => n,
        };
        if !self.behavior.on_ready(data_size) {
            self.behavior.on_info("Not ready. NOGO sent.");
            let mut out: Vec<Vec<Vec<u8>>> = Vec::new();
            out.push(routed_msg4(sender_id, nogo_verb(), zero_text()));
            proof {
                assert(outs_view(out) =~= seq![routed4(sender_id@, verb_nogo(), text_zero())]);
            }
            return out;
        }
        let blob = Blob::new(blob_id, data_size, now);
        self.insert_blob(sender_id, blob);
        self.behavior.on_info("Created new blob.");
        let mut out: Vec<Vec<Vec<u8>>> = Vec::new();
        out.push(routed_msg4(sender_id, gogo_verb(), int_to_bytes(self.chunk_size)));
        let ghost head = seq![
            routed4(sender_id@, verb_gogo(), decimal_repr(old(self).chunk_size as nat)),
        ];
        proof {
            assert(outs_view(out) =~= head + Seq::new(0, |i: int| routed3(sender_id@, verb_token())));
        }
        let mut granted: usize = 0;
        while granted < MAX_SIMUL_CHUNKS
            invariant
                0 <= granted <= MAX_SIMUL_CHUNKS,
                head == seq![
                    routed4(sender_id@, verb_gogo(), decimal_repr(old(self).spec_chunk_size() as nat)),
                ],
                outs_view(out) == head + Seq::new(
                    granted as nat,
                    |i: int| routed3(sender_id@, verb_token()),
                ),
            decreases MAX_SIMUL_CHUNKS - granted,
        {
            let tok = routed_msg3(sender_id, token_verb());
            let ghost mv = msg_view(tok);
            let ghost pre = outs_view(out);
            out.push(tok);
            proof {
                assert(mv == routed3(sender_id@, verb_token()));
                assert(out@.len() == pre.len() + 1);
                assert(outs_view(out) =~~= pre.push(mv));
                assert(pre.push(mv) =~~= head + Seq::new(
                    (granted + 1) as nat,
                    |i: int| routed3(sender_id@, verb_token()),
                ));
                assert(outs_view(out) =~~= head + Seq::new(
                    (granted + 1) as nat,
                    |i: int| routed3(sender_id@, verb_token()),
                ));
            }
            granted = granted + 1;
        }
        out
    }

    /// Handles a CHUNK command: append the payload to the sender's session,
    /// refresh its deadline, and grant one replacement credit. A chunk from
    /// an unknown sender is dropped silently.
    pub fn do_chunk(&mut self, sender_id: &[u8], payload: &[u8], now: u64) -> (out: Vec<
        Vec<Vec<u8>>,
    >)
        requires
            old(self).wf(),
            now <= u64::MAX - BLOB_TTL_MS,
        ensures
            final(self).wf(),
            final(self).spec_chunk_size() == old(self).spec_chunk_size(),
            chunk_effect(
                old(self).table(),
                final(self).table(),
                sender_id@,
                payload@,
                outs_view(out),
                now,
            ),
    {
        let found = find_entry(&self.blobs, sender_id);
        let i = match found {
            None => {
                proof {
                    lemma_table_absent(self.blobs@, sender_id@);
                }
                let out: Vec<Vec<Vec<u8>>> = Vec::new();
                proof {
                    assert(outs_view(out) =~= Seq::<Seq<Seq<u8>>>::empty());
                }
                return out;
            },
            Some(i) => i,
        };
        proof {
            lemma_table_entry(self.blobs@, i as int);
            lemma_table_remove(self.blobs@, i as int);
        }
        if payload.len() > usize::MAX - self.blobs[i].1.array.len() {
            let _ = self.blobs.remove(i);
            self.behavior.on_info("Chunk overflows the blob buffer. Aborting transaction.");
            let out: Vec<Vec<Vec<u8>>> = Vec::new();
            proof {
                assert(outs_view(out) =~= Seq::<Seq<Seq<u8>>>::empty());
            }
            return out;
        }
        let mut entry = self.blobs.remove(i);
        entry.1.consume(payload, now);
        let ghost nb = entry.1;
        proof {
            lemma_table_push(self.blobs@, entry.0, entry.1);
        }
        self.blobs.push(entry);
        self.behavior.on_info("Appended chunk to blob.");
        proof {
            assert(self.table() =~= old(self).table().insert(sender_id@, nb));
        }
        let mut out: Vec<Vec<Vec<u8>>> = Vec::new();
        out.push(routed_msg3(sender_id, token_verb()));
        proof {
            assert(outs_view(out) =~= seq![routed3(sender_id@, verb_token())]);
        }
        out
    }

    /// Handles an END command: the session is removed; its assembled bytes
    /// are digested and compared to the received hex digest. A match commits
    /// the blob to the delivery callback and replies OK; a mismatch discards
    /// it and replies FAIL.
    pub fn do_end(&mut self, sender_id: &[u8], hash_bytes: &[u8]) -> (out: Vec<Vec<Vec<u8>>>)
        requires
            old(self).wf(),
        ensures
            final(self).wf(),
            final(self).spec_chunk_size() == old(self).spec_chunk_size(),
            final(self).table() == old(self).table().remove(sender_id@),
            end_effect(old(self).table(), sender_id@, hash_bytes@, outs_view(out)),
    {
        let found = find_entry(&self.blobs, sender_id);
        let i = match found {
            None => {
                self.behavior.on_info("END with invalid sender_id. Ignoring.");
                proof {
                    lemma_table_absent(self.blobs@, sender_id@);
                    assert(self.table().remove(sender_id@) =~= self.table());
                }
                let out: Vec<Vec<Vec<u8>>> = Vec::new();
                proof {
                    assert(outs_view(out) =~= Seq::<Seq<Seq<u8>>>::empty());
                }
                return out;
            },
            Some(i) => i,
        };
        proof {
            lemma_table_entry(self.blobs@, i as int);
            lemma_table_remove(self.blobs@, i as int);
        }
        let entry = self.blobs.remove(i);
        let blob = entry.1;
        self.behavior.on_info("Checking hash.");
        let expected = sha256_hex_frame(blob.array.as_slice());
        let mut out: Vec<Vec<Vec<u8>>> = Vec::new();
        if bytes_eq(hash_bytes, expected.as_slice()) {
            out.push(routed_msg4(sender_id, ok_verb(), great_success_text()));
            self.behavior.on_info("Sent OK.");
            self.behavior.on_complete(sender_id, blob.array.as_slice());
            proof {
                assert(outs_view(out) =~= seq![
                    routed4(sender_id@, verb_ok(), text_great_success()),
                ]);
            }
        } else {
            self.behavior.on_info("Checksum wrong. Sending FAIL.");
            out.push(routed_msg4(sender_id, fail_verb(), hash_mismatch_text()));
            proof {
                assert(outs_view(out) =~= seq![
                    routed4(sender_id@, verb_fail(), text_hash_mismatch()),
                ]);
            }
        }
        out
    }

    /// Reaps every session whose deadline has passed: afterwards the table
    /// holds exactly the sessions that were still live at `now`, unchanged.
    pub fn prune_dead_blobs(&mut self, now: u64)
        requires
            old(self).wf(),
        ensures
            final(self).wf(),
            final(self).spec_chunk_size() == old(self).spec_chunk_size(),
            forall|s: Seq<u8>|
                #[trigger] final(self).table().dom().contains(s) <==> (old(
                    self,
                ).table().dom().contains(s) && old(self).table()[s].time_to_die > now),
            forall|s: Seq<u8>|
                #[trigger] final(self).table().dom().contains(s) ==> final(self).table()[s] == old(
                    self,
                ).table()[s],
    {
        let ghost old_t = table_of(old(self).blobs@);
        let mut i: usize = 0;
        while i < self.blobs.len()
            invariant
                self.wf(),
                self.chunk_size == old(self).chunk_size,
                0 <= i <= self.blobs@.len(),
                forall|j: int| 0 <= j < i ==> (#[trigger] self.blobs@[j]).1.time_to_die > now,
                forall|s: Seq<u8>|
                    #[trigger] table_of(self.blobs@).dom().contains(s) ==> old_t.dom().contains(s)
                        && table_of(self.blobs@)[s] == old_t[s],
                forall|s: Seq<u8>|
                    old_t.dom().contains(s) && old_t[s].time_to_die > now ==> #[trigger] table_of(
                        self.blobs@,
                    ).dom().contains(s),
            decreases self.blobs@.len() - i,
        {
            if self.blobs[i].1.time_to_die <= now {
                proof {
                    lemma_table_entry(self.blobs@, i as int);
                    lemma_table_remove(self.blobs@, i as int);
                }
                let _ = self.blobs.remove(i);
            } else {
                i = i + 1;
            }
        }
        proof {
            assert forall|s: Seq<u8>| #[trigger] final(self).table().dom().contains(s) implies (
            old_t.dom().contains(s) && old_t[s].time_to_die > now) by {
                let j = choose|j: int| entry_key_at(self.blobs@, s, j);
                lemma_table_entry(self.blobs@, j);
            }
        }
    }

    /// Dispatches one received multipart message. The first frame is the
    /// sender identity supplied by the routing layer, the second the verb;
    /// malformed messages are dropped without reply.
    pub fn handle_message(&mut self, frames: &Vec<Vec<u8>>, now: u64) -> (out: Vec<Vec<Vec<u8>>>)
        requires
            old(self).wf(),
            now <= u64::MAX - BLOB_TTL_MS,
        ensures
            final(self).wf(),
            final(self).spec_chunk_size() == old(self).spec_chunk_size(),
            message_effect(
                old(self).table(),
                final(self).table(),
                old(self).spec_chunk_size() as nat,
                msg_view(*frames),
                outs_view(out),
                now,
            ),
    {
        if frames.len() < 2 {
            let out: Vec<Vec<Vec<u8>>> = Vec::new();
            proof {
                assert(outs_view(out) =~= Seq::<Seq<Seq<u8>>>::empty());
            }
            return out;
        }
        let sender_id = frames[0].as_slice();
        let verb = frames[1].as_slice();
        if bytes_eq(verb, ping_verb().as_slice()) {
            return self.do_ping(sender_id);
        }
        if bytes_eq(verb, start_verb().as_slice()) && frames.len() == 4 {
            return self.do_start(sender_id, frames[2].as_slice(), frames[3].as_slice(), now);
        }
        if bytes_eq(verb, chunk_verb().as_slice()) && frames.len() == 3 {
            return self.do_chunk(sender_id, frames[2].as_slice(), now);
        }
        if bytes_eq(verb, end_verb().as_slice()) && frames.len() == 3 {
            return self.do_end(sender_id, frames[2].as_slice());
        }
        let out: Vec<Vec<Vec<u8>>> = Vec::new();
        proof {
            assert(outs_view(out) =~= Seq::<Seq<Seq<u8>>>::empty());
        }
        out
    }

    /// Replaces any session of this sender with `blob`.
    fn insert_blob(&mut self, sender_id: &[u8], blob: Blob)
        requires
            old(self).wf(),
            blob.wf(),
        ensures
            final(self).wf(),
            final(self).spec_chunk_size() == old(self).spec_chunk_size(),
            final(self).table() == old(self).table().insert(sender_id@, blob),
    {
        self.abort_transaction(sender_id);
        let key = vstd::slice::slice_to_vec(sender_id);
        proof {
            assert(self.table().dom().contains(sender_id@) <==> has_key(self.blobs@, sender_id@));
            lemma_table_push(self.blobs@, key, blob);
        }
        self.blobs.push((key, blob));
        proof {
            assert(self.table() =~= old(self).table().insert(sender_id@, blob));
        }
    }
}

/// Builds a routed three-frame reply: identity, empty delimiter, verb.
fn routed_msg3(sender_id: &[u8], verb: Vec<u8>) -> (m: Vec<Vec<u8>>)
    ensures
        msg_view(m) == routed3(sender_id@, verb@),
{
    let mut m: Vec<Vec<u8>> = Vec::new();
    m.push(vstd::slice::slice_to_vec(sender_id));
    m.push(Vec::new());
    m.push(verb);
    proof {
        assert(msg_view(m) =~= routed3(sender_id@, verb@));
    }
    m
}

/// Builds a routed four-frame reply: identity, empty delimiter, verb, argument.
fn routed_msg4(sender_id: &[u8], verb: Vec<u8>, arg: Vec<u8>) -> (m: Vec<Vec<u8>>)
    ensures
        msg_view(m) == routed4(sender_id@, verb@, arg@),
{
    let mut m: Vec<Vec<u8>> = Vec::new();
    m.push(vstd::slice::slice_to_vec(sender_id));
    m.push(Vec::new());
    m.push(verb);
    m.push(arg);
    proof {
        assert(msg_view(m) =~= routed4(sender_id@, verb@, arg@));
    }
    m
}

} // verus!
