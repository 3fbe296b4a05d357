//! The sending side of the protocol: one session that drives a single blob
//! through handshake, negotiation, credit-paced streaming, and finalization.
//!
//! The session is an event-driven state machine. The embedding program owns
//! the socket and the deadline; it sends the frames the session hands out,
//! feeds every reply back in, and stops on the first error.

use vstd::prelude::*;
use vstd::arithmetic::div_mod::{lemma_div_is_ordered, lemma_div_multiples_vanish};

use crate::codec::{int_to_bytes, is_decimal, decimal_value, decimal_repr, bytes_to_int, bytes_eq};
use crate::errors::{ErrorKind, XactError};
use crate::hashing::{sha256_hex, sha256_hex_frame};
use crate::wire::{
    verb_ping, verb_pong, verb_start, verb_gogo, verb_nogo, verb_token, verb_chunk, verb_end,
    verb_ok, verb_cons, ping_verb, start_verb, chunk_verb, end_verb, pong_verb, gogo_verb,
    nogo_verb, token_verb, ok_verb, cons_verb, concat_chunks, chunk_partition,
    lemma_concat_chunks_push, lemma_chunk_partition_reassembles, msg_view, append_bytes,
};

verus! {

/// The sender's bound on the handshake round trip, in milliseconds.
pub const PING_TIMEOUT_MS: u64 = 500;

/// Where a sender session stands in the protocol.
#[derive(Clone, Copy, PartialEq, Eq, Structural, Debug)]
pub enum SenderPhase {
    /// PING sent; a PONG reply is due.
    AwaitPong,
    /// START sent; a GOGO or NOGO reply is due.
    AwaitGo,
    /// Chunks remain; a TOKEN credit is due before each one.
    Streaming,
    /// All chunks sent; the END frame is due to go out.
    Finalizing,
    /// END sent; an OK is due, with stray TOKENs tolerated.
    AwaitOk,
    /// OK received in consistent mode; the CONS tail is due.
    AwaitCons,
    /// The transfer concluded successfully.
    Done,
    /// A reply broke the protocol; the session is dead.
    Failed,
}

/// The poll budget for one transport operation: the lesser of the caller's
/// own timeout and the time left until the overall deadline, and zero once
/// the deadline has passed.
pub open spec fn spec_remaining_ms(time_to_die: u64, now: u64, timeout: Option<u64>) -> u64 {
    if time_to_die <= now {
        0u64
    } else {
        let rem = (time_to_die - now) as u64;
        match timeout {
            Some(t) => if t < rem {
                t
            } else {
                rem
            },
            None => rem,
        }
    }
}

/// Computes the poll budget for one transport operation under the overall
/// deadline `time_to_die`.
pub fn remaining_ms(time_to_die: u64, now: u64, timeout: Option<u64>) -> (r: u64)
    ensures
        r == spec_remaining_ms(time_to_die, now, timeout),
{
    if time_to_die <= now {
        0
    } else {
        let rem = time_to_die - now;
        match timeout {
            Some(t) => if t < rem {
                t
            } else {
                rem
            },
            None => rem,
        }
    }
}

/// "Progress: ", the prefix of every progress report.
pub open spec fn progress_prefix() -> Seq<u8> {
    seq![0x50u8, 0x72u8, 0x6fu8, 0x67u8, 0x72u8, 0x65u8, 0x73u8, 0x73u8, 0x3au8, 0x20u8]
}

/// The progress report after `sent` of `total` bytes: the percentage,
/// rounded down, spelled in decimal between "Progress: " and "%".
pub open spec fn progress_text(sent: nat, total: nat) -> Seq<u8>
    recommends
        total > 0,
{
    progress_prefix() + decimal_repr((((100 * sent) as int) / (total as int)) as nat) + seq![0x25u8]
}

/// One blob transfer in flight: the bytes to send, the negotiated chunk
/// size, the cursor of bytes already streamed, and the protocol phase.
pub struct SenderSession {
    data: Vec<u8>,
    blob_id: Vec<u8>,
    consistent: bool,
    phase: SenderPhase,
    chunk_size: usize,
    cursor: usize,
    credit: bool,
    sent: Ghost<Seq<Seq<u8>>>,
}

impl SenderSession {
    /// The blob bytes this session streams.
    pub closed spec fn spec_data(&self) -> Seq<u8> {
        self.data@
    }

    /// The application tag announced in START.
    pub closed spec fn spec_blob_id(&self) -> Seq<u8> {
        self.blob_id@
    }

    /// Whether the caller asked for the consistent-mode tail.
    pub closed spec fn spec_consistent(&self) -> bool {
        self.consistent
    }

    /// The protocol phase the session stands in.
    pub closed spec fn spec_phase(&self) -> SenderPhase {
        self.phase
    }

    /// The chunk size granted in the GOGO reply.
    pub closed spec fn spec_chunk_size(&self) -> nat {
        self.chunk_size as nat
    }

    /// How many bytes have been streamed so far.
    pub closed spec fn spec_cursor(&self) -> nat {
        self.cursor as nat
    }

    /// Whether an unspent TOKEN credit is in hand.
    pub closed spec fn spec_credit(&self) -> bool {
        self.credit
    }

    /// The chunk payloads sent so far, in order.
    pub closed spec fn chunks_sent(&self) -> Seq<Seq<u8>> {
        self.sent@
    }

    /// The session invariant: the cursor never passes the end, the chunks
    /// sent so far reassemble to exactly the bytes behind the cursor, and
    /// each phase stands where the cursor says it must.
    pub open spec fn wf(&self) -> bool {
        &&& self.spec_cursor() <= self.spec_data().len()
        &&& concat_chunks(self.chunks_sent()) == self.spec_data().take(self.spec_cursor() as int)
        &&& (self.spec_phase() is Streaming ==> self.spec_chunk_size() > 0 && self.spec_cursor()
            < self.spec_data().len())
        &&& ((self.spec_phase() is Finalizing || self.spec_phase() is AwaitOk
            || self.spec_phase() is AwaitCons || self.spec_phase() is Done)
            ==> self.spec_cursor() == self.spec_data().len())
        &&& ((self.spec_phase() is AwaitPong || self.spec_phase() is AwaitGo)
            ==> self.spec_cursor() == 0)
    }

    /// A fresh session, ready to send its PING.
    pub fn new(blob_id: &[u8], data: &[u8], consistent: bool) -> (s: SenderSession)
        ensures
            s.wf(),
            s.spec_phase() is AwaitPong,
            s.spec_data() == data@,
            s.spec_blob_id() == blob_id@,
            s.spec_consistent() == consistent,
            s.spec_cursor() == 0,
            s.chunks_sent() == Seq::<Seq<u8>>::empty(),
            !s.spec_credit(),
    {
        let s = SenderSession {
            data: vstd::slice::slice_to_vec(data),
            blob_id: vstd::slice::slice_to_vec(blob_id),
            consistent,
            phase: SenderPhase::AwaitPong,
            chunk_size: 0,
            cursor: 0,
            credit: false,
            sent: Ghost(Seq::empty()),
        };
        proof {
            assert(concat_chunks(s.sent@) =~= s.data@.take(0));
        }
        s
    }

    /// The session's phase, for driving the send/receive loop.
    pub fn phase(&self) -> (p: SenderPhase)
        ensures
            p == self.spec_phase(),
    {
        self.phase
    }

    /// The handshake probe: a single PING frame.
    pub fn ping_frames(&self) -> (m: Vec<Vec<u8>>)
        ensures
            msg_view(m) == seq![verb_ping()],
    {
        let mut m: Vec<Vec<u8>> = Vec::new();
        m.push(ping_verb());
        proof {
            assert(msg_view(m) =~= seq![verb_ping()]);
        }
        m
    }

    /// Takes the PONG reply. The reply must be two frames whose second is
    /// PONG; anything else fails the session with `InvalidResponse`.
    pub fn handle_pong(&mut self, reply: &Vec<Vec<u8>>) -> (r: Result<(), XactError>)
        requires
            old(self).wf(),
            old(self).spec_phase() is AwaitPong,
        ensures
            final(self).wf(),
            unchanged_identity(*old(self), *final(self)),
            r is Ok <==> msg_view(*reply).len() == 2 && msg_view(*reply)[1] == verb_pong(),
            r is Ok ==> final(self).spec_phase() is AwaitGo && final(self).spec_cursor() == 0,
            r matches Err(e) ==> final(self).spec_phase() is Failed && e.kind()
                == ErrorKind::InvalidResponse,
    {
        if reply.len() != 2 {
            self.phase = SenderPhase::Failed;
            return Err(XactError::new(ErrorKind::InvalidResponse, "PING response had wrong number of parts"));
        }
        if !bytes_eq(reply[1].as_slice(), pong_verb().as_slice()) {
            self.phase = SenderPhase::Failed;
            return Err(XactError::new(ErrorKind::InvalidResponse, "Invalid PING response"));
        }
        self.phase = SenderPhase::AwaitGo;
        Ok(())
    }

    /// The transfer announcement: START, the blob tag, and the blob length
    /// in ASCII decimal.
    pub fn start_frames(&self) -> (m: Vec<Vec<u8>>)
        ensures
            msg_view(m) == seq![
                verb_start(),
                self.spec_blob_id(),
                decimal_repr(self.spec_data().len()),
            ],
    {
        let mut m: Vec<Vec<u8>> = Vec::new();
        m.push(start_verb());
        m.push(vstd::slice::slice_to_vec(self.blob_id.as_slice()));
        m.push(int_to_bytes(self.data.len()));
        proof {
            assert(msg_view(m) =~= seq![
                verb_start(),
                self.spec_blob_id(),
                decimal_repr(self.spec_data().len()),
            ]);
        }
        m
    }

    /// Takes the reply to START. A three-frame GOGO reply carrying a
    /// positive decimal chunk size advances the session and returns that
    /// size; a NOGO reply fails it with `Nogo` — the receiver declined;
    /// anything else, including an unparsable or zero chunk size, fails it
    /// with `InvalidResponse`.
    pub fn handle_start_reply(&mut self, reply: &Vec<Vec<u8>>) -> (r: Result<usize, XactError>)
        requires
            old(self).wf(),
            old(self).spec_phase() is AwaitGo,
        ensures
            final(self).wf(),
            unchanged_identity(*old(self), *final(self)),
            r is Ok <==> ({
                let rv = msg_view(*reply);
                &&& rv.len() == 3
                &&& rv[1] == verb_gogo()
                &&& is_decimal(rv[2])
                &&& 0 < decimal_value(rv[2]) <= usize::MAX
            }),
            r matches Ok(cs) ==> ({
                let rv = msg_view(*reply);
                &&& cs == decimal_value(rv[2])
                &&& final(self).spec_chunk_size() == cs
                &&& final(self).spec_cursor() == 0
                &&& final(self).chunks_sent() == old(self).chunks_sent()
                &&& !final(self).spec_credit()
                &&& final(self).spec_phase() == (if old(self).spec_data().len() == 0 {
                    SenderPhase::Finalizing
                } else {
                    SenderPhase::Streaming
                })
            }),
            r matches Err(e) ==> ({
                let rv = msg_view(*reply);
                &&& final(self).spec_phase() is Failed
                &&& e.kind() == (if rv.len() == 3 && rv[1] == verb_nogo() {
                    ErrorKind::Nogo
                } else {
                    ErrorKind::InvalidResponse
                })
            }),
    {
        if reply.len() != 3 {
            self.phase = SenderPhase::Failed;
            return Err(XactError::new(ErrorKind::InvalidResponse, "START response had wrong number of parts"));
        }
        if bytes_eq(reply[1].as_slice(), nogo_verb().as_slice()) {
            self.phase = SenderPhase::Failed;
            return Err(XactError::new(ErrorKind::Nogo, "Endpoint was not ready."));
        }
        if !bytes_eq(reply[1].as_slice(), gogo_verb().as_slice()) {
            self.phase = SenderPhase::Failed;
            return Err(XactError::new(ErrorKind::InvalidResponse, "Invalid chunk size"));
        }
        let parsed = bytes_to_int(reply[2].as_slice());
        let cs = match parsed {
            Err(_) => {
                self.phase = SenderPhase::Failed;
                return Err(XactError::new(ErrorKind::InvalidResponse, "Unable to parse chunk size as integer"));
            },
            Ok(cs) => cs,
        };
        if cs == 0 {
            self.phase = SenderPhase::Failed;
            return Err(XactError::new(ErrorKind::InvalidResponse, "Invalid chunk size"));
        }
        self.chunk_size = cs;
        self.credit = false;
        if self.data.len() == 0 {
            self.phase = SenderPhase::Finalizing;
        } else {
            self.phase = SenderPhase::Streaming;
        }
        Ok(cs)
    }

    /// Takes one TOKEN credit. The reply must have at least two frames with
    /// TOKEN second; anything else fails the session with `InvalidResponse`.
    pub fn handle_token(&mut self, reply: &Vec<Vec<u8>>) -> (r: Result<(), XactError>)
        requires
            old(self).wf(),
            old(self).spec_phase() is Streaming,
            !old(self).spec_credit(),
        ensures
            final(self).wf(),
            unchanged_identity(*old(self), *final(self)),
            r is Ok <==> msg_view(*reply).len() >= 2 && msg_view(*reply)[1] == verb_token(),
            r is Ok ==> ({
                &&& final(self).spec_credit()
                &&& final(self).spec_phase() == old(self).spec_phase()
                &&& final(self).spec_cursor() == old(self).spec_cursor()
                &&& final(self).spec_chunk_size() == old(self).spec_chunk_size()
                &&& final(self).chunks_sent() == old(self).chunks_sent()
            }),
            r matches Err(e) ==> final(self).spec_phase() is Failed && e.kind()
                == ErrorKind::InvalidResponse,
    {
        if reply.len() < 2 {
            self.phase = SenderPhase::Failed;
            return Err(XactError::new(ErrorKind::InvalidResponse, "Invalid chunk request"));
        }
        if !bytes_eq(reply[1].as_slice(), token_verb().as_slice()) {
            self.phase = SenderPhase::Failed;
            return Err(XactError::new(ErrorKind::InvalidResponse, "Invalid chunk request"));
        }
        self.credit = true;
        Ok(())
    }

    /// Spends the credit in hand on the next chunk: CHUNK plus the next run
    /// of at most `chunk_size` bytes, never empty. The cursor advances past
    /// it; when the cursor reaches the end the session moves to Finalizing.
    pub fn next_chunk(&mut self) -> (m: Vec<Vec<u8>>)
        requires
            old(self).wf(),
            old(self).spec_phase() is Streaming,
            old(self).spec_credit(),
        ensures
            final(self).wf(),
            unchanged_identity(*old(self), *final(self)),
            ({
                let start = old(self).spec_cursor() as int;
                let len = old(self).spec_data().len() as int;
                let end = if start + old(self).spec_chunk_size() <= len {
                    start + old(self).spec_chunk_size()
                } else {
                    len
                };
                let chunk = old(self).spec_data().subrange(start, end);
                &&& msg_view(m) == seq![verb_chunk(), chunk]
                &&& 0 < chunk.len() <= old(self).spec_chunk_size()
                &&& final(self).spec_cursor() == end
                &&& final(self).spec_chunk_size() == old(self).spec_chunk_size()
                &&& final(self).chunks_sent() == old(self).chunks_sent().push(chunk)
                &&& !final(self).spec_credit()
                &&& final(self).spec_phase() == (if end == len {
                    SenderPhase::Finalizing
                } else {
                    SenderPhase::Streaming
                })
            }),
    {
        let len = self.data.len();
        let start = self.cursor;
        let end = if self.chunk_size <= len - start {
            start + self.chunk_size
        } else {
            len
        };
        let chunk_slice = vstd::slice::slice_subrange(self.data.as_slice(), start, end);
        let chunk = vstd::slice::slice_to_vec(chunk_slice);
        let ghost chunk_view = chunk@;
        let mut m: Vec<Vec<u8>> = Vec::new();
        m.push(chunk_verb());
        m.push(chunk);
        proof {
            assert(msg_view(m) =~= seq![verb_chunk(), chunk_view]);
            lemma_concat_chunks_push(self.sent@, chunk_view);
            assert(self.data@.take(start as int) + self.data@.subrange(start as int, end as int)
                =~= self.data@.take(end as int));
        }
        self.sent = Ghost(self.sent@.push(chunk_view));
        self.cursor = end;
        self.credit = false;
        if end == len {
            self.phase = SenderPhase::Finalizing;
        } else {
            self.phase = SenderPhase::Streaming;
        }
        m
    }

    /// The progress report for the bytes streamed so far.
    pub fn progress_message(&self) -> (r: Vec<u8>)
        requires
            self.wf(),
            self.spec_data().len() > 0,
        ensures
            r@ == progress_text(self.spec_cursor(), self.spec_data().len()),
    {
        let hundred_cursor: u128 = 100u128 * (self.cursor as u128);
        let pct128: u128 = hundred_cursor / (self.data.len() as u128);
        proof {
            lemma_div_is_ordered(
                100 * (self.cursor as int),
                100 * (self.data@.len() as int),
                self.data@.len() as int,
            );
            lemma_div_multiples_vanish(100, self.data@.len() as int);
        }
        let pct: usize = pct128 as usize;
        let mut v: Vec<u8> = Vec::new();
        v.push(0x50);
        v.push(0x72);
        v.push(0x6f);
        v.push(0x67);
        v.push(0x72);
        v.push(0x65);
        v.push(0x73);
        v.push(0x73);
        v.push(0x3a);
        v.push(0x20);
        proof {
            assert(v@ =~= progress_prefix());
        }
        let digits = int_to_bytes(pct);
        append_bytes(&mut v, digits.as_slice());
        v.push(0x25);
        proof {
            assert(v@ =~= progress_text(self.spec_cursor(), self.spec_data().len()));
        }
        v
    }

    /// The final frame: END plus the lowercase hex SHA-256 digest of the
    /// whole blob. By this point the chunks sent reassemble to exactly the
    /// blob, so the digest the receiver computes over what it assembled
    /// agrees if and only if the bytes arrived intact and in order.
    pub fn end_frames(&mut self) -> (m: Vec<Vec<u8>>)
        requires
            old(self).wf(),
            old(self).spec_phase() is Finalizing,
        ensures
            final(self).wf(),
            unchanged_identity(*old(self), *final(self)),
            msg_view(m) == seq![verb_end(), sha256_hex(old(self).spec_data())],
            concat_chunks(final(self).chunks_sent()) == final(self).spec_data(),
            final(self).chunks_sent() == old(self).chunks_sent(),
            final(self).spec_phase() is AwaitOk,
    {
        let digest_hex = sha256_hex_frame(self.data.as_slice());
        let mut m: Vec<Vec<u8>> = Vec::new();
        m.push(end_verb());
        m.push(digest_hex);
        self.phase = SenderPhase::AwaitOk;
        proof {
            assert(msg_view(m) =~= seq![verb_end(), sha256_hex(self.data@)]);
            assert(self.data@.take(self.data@.len() as int) =~= self.data@);
        }
        m
    }

    /// Takes a reply after END. A stray TOKEN is tolerated and reports
    /// `Ok(false)`: keep waiting. OK reports `Ok(true)` and concludes the
    /// transfer (or moves to the consistent tail). Anything else fails the
    /// session with `InvalidResponse`.
    pub fn handle_end_reply(&mut self, reply: &Vec<Vec<u8>>) -> (r: Result<bool, XactError>)
        requires
            old(self).wf(),
            old(self).spec_phase() is AwaitOk,
        ensures
            final(self).wf(),
            unchanged_identity(*old(self), *final(self)),
            r is Ok <==> msg_view(*reply).len() >= 2 && (msg_view(*reply)[1] == verb_token()
                || msg_view(*reply)[1] == verb_ok()),
            r matches Ok(done) ==> ({
                let rv = msg_view(*reply);
                &&& (done <==> rv[1] == verb_ok())
                &&& (!done ==> *final(self) == *old(self))
                &&& (done ==> final(self).spec_phase() == (if old(self).spec_consistent() {
                    SenderPhase::AwaitCons
                } else {
                    SenderPhase::Done
                }))
            }),
            r matches Err(e) ==> final(self).spec_phase() is Failed && e.kind()
                == ErrorKind::InvalidResponse,
    {
        if reply.len() < 2 {
            self.phase = SenderPhase::Failed;
            return Err(XactError::new(ErrorKind::InvalidResponse, "Invalid end response"));
        }
        if bytes_eq(reply[1].as_slice(), token_verb().as_slice()) {
            proof {
                assert(verb_token() != verb_ok());
            }
            return Ok(false);
        }
        if bytes_eq(reply[1].as_slice(), ok_verb().as_slice()) {
            if self.consistent {
                self.phase = SenderPhase::AwaitCons;
            } else {
                self.phase = SenderPhase::Done;
            }
            return Ok(true);
        }
        self.phase = SenderPhase::Failed;
        Err(XactError::new(ErrorKind::InvalidResponse, "Invalid end response"))
    }

    /// Takes the consistent-mode tail. The reply must be three frames whose
    /// second is CONS; its third frame is the transfer's result bytes.
    pub fn handle_cons_reply(&mut self, reply: &Vec<Vec<u8>>) -> (r: Result<Vec<u8>, XactError>)
        requires
            old(self).wf(),
            old(self).spec_phase() is AwaitCons,
        ensures
            final(self).wf(),
            unchanged_identity(*old(self), *final(self)),
            r is Ok <==> msg_view(*reply).len() == 3 && msg_view(*reply)[1] == verb_cons(),
            r matches Ok(res) ==> res@ == msg_view(*reply)[2] && final(self).spec_phase() is Done,
            r matches Err(e) ==> final(self).spec_phase() is Failed && e.kind()
                == ErrorKind::InvalidResponse,
    {
        if reply.len() != 3 {
            self.phase = SenderPhase::Failed;
            return Err(XactError::new(ErrorKind::InvalidResponse, "Consistency response had wrong number of parts"));
        }
        if !bytes_eq(reply[1].as_slice(), cons_verb().as_slice()) {
            self.phase = SenderPhase::Failed;
            return Err(XactError::new(ErrorKind::InvalidResponse, "Invalid consistency response"));
        }
        self.phase = SenderPhase::Done;
        Ok(vstd::slice::slice_to_vec(reply[2].as_slice()))
    }
}

/// The fields a reply can never change: the blob, its tag, and the mode.
pub open spec fn unchanged_identity(old_s: SenderSession, new_s: SenderSession) -> bool {
    &&& new_s.spec_data() == old_s.spec_data()
    &&& new_s.spec_blob_id() == old_s.spec_blob_id()
    &&& new_s.spec_consistent() == old_s.spec_consistent()
}

/// Byte-exactness and hash agreement of a whole transfer: a receiver that
/// consumes, in order, exactly the chunks a sender cuts `data` into
/// reassembles `data` itself, and therefore the hex digest it computes over
/// the assembled bytes equals the hex digest the sender puts in its END
/// frame.
pub proof fn lemma_transfer_round_trip(data: Seq<u8>, cs: nat)
    requires
        cs > 0,
    ensures
        concat_chunks(chunk_partition(data, cs)) == data,
        sha256_hex(concat_chunks(chunk_partition(data, cs))) == sha256_hex(data),
{
    lemma_chunk_partition_reassembles(data, cs);
}

} // verus!
