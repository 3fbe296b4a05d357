//! Frame-level vocabulary of the protocol: command verbs, fixed reply texts,
//! and the partition of a blob into chunks.

use vstd::prelude::*;
use vstd::arithmetic::div_mod::{lemma_fundamental_div_mod, lemma_fundamental_div_mod_converse, lemma_small_mod};

verus! {

/// "PING": the sender's liveness probe.
pub open spec fn verb_ping() -> Seq<u8> {
    seq![0x50u8, 0x49u8, 0x4eu8, 0x47u8]
}

/// "PONG": the receiver's acknowledgement of a probe.
pub open spec fn verb_pong() -> Seq<u8> {
    seq![0x50u8, 0x4fu8, 0x4eu8, 0x47u8]
}

/// "START": the sender's request to begin a transfer.
pub open spec fn verb_start() -> Seq<u8> {
    seq![0x53u8, 0x54u8, 0x41u8, 0x52u8, 0x54u8]
}

/// "GOGO": the receiver admits the transfer and names the chunk size.
pub open spec fn verb_gogo() -> Seq<u8> {
    seq![0x47u8, 0x4fu8, 0x47u8, 0x4fu8]
}

/// "NOGO": the receiver declines the transfer.
pub open spec fn verb_nogo() -> Seq<u8> {
    seq![0x4eu8, 0x4fu8, 0x47u8, 0x4fu8]
}

/// "TOKEN": one credit entitling the sender to emit one chunk.
pub open spec fn verb_token() -> Seq<u8> {
    seq![0x54u8, 0x4fu8, 0x4bu8, 0x45u8, 0x4eu8]
}

/// "CHUNK": one payload of blob data.
pub open spec fn verb_chunk() -> Seq<u8> {
    seq![0x43u8, 0x48u8, 0x55u8, 0x4eu8, 0x4bu8]
}

/// "END": the sender's final frame, carrying the hex digest.
pub open spec fn verb_end() -> Seq<u8> {
    seq![0x45u8, 0x4eu8, 0x44u8]
}

/// "OK": the receiver verified the digest and committed the blob.
pub open spec fn verb_ok() -> Seq<u8> {
    seq![0x4fu8, 0x4bu8]
}

/// "FAIL": the receiver rejected the transfer.
pub open spec fn verb_fail() -> Seq<u8> {
    seq![0x46u8, 0x41u8, 0x49u8, 0x4cu8]
}

/// "CONS": the tail reply of a consistent-mode transfer.
pub open spec fn verb_cons() -> Seq<u8> {
    seq![0x43u8, 0x4fu8, 0x4eu8, 0x53u8]
}

/// "Great success": the text beside an OK.
pub open spec fn text_great_success() -> Seq<u8> {
    seq![0x47u8, 0x72u8, 0x65u8, 0x61u8, 0x74u8, 0x20u8, 0x73u8, 0x75u8, 0x63u8, 0x63u8, 0x65u8, 0x73u8, 0x73u8]
}

/// "Hash mismatch": the text beside a FAIL for a bad digest.
pub open spec fn text_hash_mismatch() -> Seq<u8> {
    seq![0x48u8, 0x61u8, 0x73u8, 0x68u8, 0x20u8, 0x6du8, 0x69u8, 0x73u8, 0x6du8, 0x61u8, 0x74u8, 0x63u8, 0x68u8]
}

/// "0": the placeholder size beside a NOGO.
pub open spec fn text_zero() -> Seq<u8> {
    seq![0x30u8]
}

pub fn ping_verb() -> (v: Vec<u8>)
    ensures
        v@ == verb_ping(),
{
    let mut v: Vec<u8> = Vec::new();
    v.push(0x50);
    v.push(0x49);
    v.push(0x4e);
    v.push(0x47);
    proof {
        assert(v@ =~= verb_ping());
    }
    v
}

pub fn pong_verb() -> (v: Vec<u8>)
    ensures
        v@ == verb_pong(),
{
    let mut v: Vec<u8> = Vec::new();
    v.push(0x50);
    v.push(0x4f);
    v.push(0x4e);
    v.push(0x47);
    proof {
        assert(v@ =~= verb_pong());
    }
    v
}

pub fn start_verb() -> (v: Vec<u8>)
    ensures
        v@ == verb_start(),
{
    let mut v: Vec<u8> = Vec::new();
    v.push(0x53);
    v.push(0x54);
    v.push(0x41);
    v.push(0x52);
    v.push(0x54);
    proof {
        assert(v@ =~= verb_start());
    }
    v
}

pub fn gogo_verb() -> (v: Vec<u8>)
    ensures
        v@ == verb_gogo(),
{
    let mut v: Vec<u8> = Vec::new();
    v.push(0x47);
    v.push(0x4f);
    v.push(0x47);
    v.push(0x4f);
    proof {
        assert(v@ =~= verb_gogo());
    }
    v
}

pub fn nogo_verb() -> (v: Vec<u8>)
    ensures
        v@ == verb_nogo(),
{
    let mut v: Vec<u8> = Vec::new();
    v.push(0x4e);
    v.push(0x4f);
    v.push(0x47);
    v.push(0x4f);
    proof {
        assert(v@ =~= verb_nogo());
    }
    v
}

pub fn token_verb() -> (v: Vec<u8>)
    ensures
        v@ == verb_token(),
{
    let mut v: Vec<u8> = Vec::new();
    v.push(0x54);
    v.push(0x4f);
    v.push(0x4b);
    v.push(0x45);
    v.push(0x4e);
    proof {
        assert(v@ =~= verb_token());
    }
    v
}

pub fn chunk_verb() -> (v: Vec<u8>)
    ensures
        v@ == verb_chunk(),
{
    let mut v: Vec<u8> = Vec::new();
    v.push(0x43);
    v.push(0x48);
    v.push(0x55);
    v.push(0x4e);
    v.push(0x4b);
    proof {
        assert(v@ =~= verb_chunk());
    }
    v
}

pub fn end_verb() -> (v: Vec<u8>)
    ensures
        v@ == verb_end(),
{
    let mut v: Vec<u8> = Vec::new();
    v.push(0x45);
    v.push(0x4e);
    v.push(0x44);
    proof {
        assert(v@ =~= verb_end());
    }
    v
}

pub fn ok_verb() -> (v: Vec<u8>)
    ensures
        v@ == verb_ok(),
{
    let mut v: Vec<u8> = Vec::new();
    v.push(0x4f);
    v.push(0x4b);
    proof {
        assert(v@ =~= verb_ok());
    }
    v
}

pub fn fail_verb() -> (v: Vec<u8>)
    ensures
        v@ == verb_fail(),
{
    let mut v: Vec<u8> = Vec::new();
    v.push(0x46);
    v.push(0x41);
    v.push(0x49);
    v.push(0x4c);
    proof {
        assert(v@ =~= verb_fail());
    }
    v
}

pub fn cons_verb() -> (v: Vec<u8>)
    ensures
        v@ == verb_cons(),
{
    let mut v: Vec<u8> = Vec::new();
    v.push(0x43);
    v.push(0x4f);
    v.push(0x4e);
    v.push(0x53);
    proof {
        assert(v@ =~= verb_cons());
    }
    v
}

pub fn great_success_text() -> (v: Vec<u8>)
    ensures
        v@ == text_great_success(),
{
    let mut v: Vec<u8> = Vec::new();
    v.push(0x47);
    v.push(0x72);
    v.push(0x65);
    v.push(0x61);
    v.push(0x74);
    v.push(0x20);
    v.push(0x73);
    v.push(0x75);
    v.push(0x63);
    v.push(0x63);
    v.push(0x65);
    v.push(0x73);
    v.push(0x73);
    proof {
        assert(v@ =~= text_great_success());
    }
    v
}

pub fn hash_mismatch_text() -> (v: Vec<u8>)
    ensures
        v@ == text_hash_mismatch(),
{
    let mut v: Vec<u8> = Vec::new();
    v.push(0x48);
    v.push(0x61);
    v.push(0x73);
    v.push(0x68);
    v.push(0x20);
    v.push(0x6d);
    v.push(0x69);
    v.push(0x73);
    v.push(0x6d);
    v.push(0x61);
    v.push(0x74);
    v.push(0x63);
    v.push(0x68);
    proof {
        assert(v@ =~= text_hash_mismatch());
    }
    v
}

pub fn zero_text() -> (v: Vec<u8>)
    ensures
        v@ == text_zero(),
{
    let mut v: Vec<u8> = Vec::new();
    v.push(0x30);
    proof {
        assert(v@ =~= text_zero());
    }
    v
}

/// The frames of a multipart message, as byte strings.
pub open spec fn msg_view(m: Vec<Vec<u8>>) -> Seq<Seq<u8>> {
    Seq::new(m@.len(), |i: int| m@[i]@)
}

/// The messages of a batch of multipart messages, frame by frame.
pub open spec fn outs_view(o: Vec<Vec<Vec<u8>>>) -> Seq<Seq<Seq<u8>>> {
    Seq::new(o@.len(), |i: int| msg_view(o@[i]))
}

/// A routed reply with no argument: the peer identity, the empty delimiter
/// the routing layer demands, and the verb.
pub open spec fn routed3(sender: Seq<u8>, verb: Seq<u8>) -> Seq<Seq<u8>> {
    seq![sender, Seq::<u8>::empty(), verb]
}

/// A routed reply with one argument frame after the verb.
pub open spec fn routed4(sender: Seq<u8>, verb: Seq<u8>, arg: Seq<u8>) -> Seq<Seq<u8>> {
    seq![sender, Seq::<u8>::empty(), verb, arg]
}

/// Appends `src` to `dst`, byte for byte.
pub fn append_bytes(dst: &mut Vec<u8>, src: &[u8])
    ensures
        final(dst)@ == old(dst)@ + src@,
{
    let mut i: usize = 0;
    while i < src.len()
        invariant
            0 <= i <= src@.len(),
            dst@ == old(dst)@ + src@.take(i as int),
        decreases src@.len() - i,
    {
        dst.push(src[i]);
        proof {
            assert(dst@ =~= old(dst)@ + src@.take(i + 1));
        }
        i = i + 1;
    }
    proof {
        assert(old(dst)@ + src@.take(i as int) =~= old(dst)@ + src@);
    }
}

/// The chunks a blob of bytes is cut into: consecutive runs of `cs` bytes,
/// with a shorter final run when the length is not a multiple of `cs`, and
/// no empty run ever.
pub open spec fn chunk_partition(data: Seq<u8>, cs: nat) -> Seq<Seq<u8>>
    decreases data.len() when cs > 0
{
    if data.len() == 0 {
        Seq::empty()
    } else if data.len() <= cs {
        seq![data]
    } else {
        seq![data.take(cs as int)] + chunk_partition(data.skip(cs as int), cs)
    }
}

/// The bytes carried by a run of chunks, in order.
pub open spec fn concat_chunks(chunks: Seq<Seq<u8>>) -> Seq<u8>
    decreases chunks.len(),
{
    if chunks.len() == 0 {
        Seq::empty()
    } else {
        chunks.first() + concat_chunks(chunks.drop_first())
    }
}

/// Appending one chunk to a run appends its bytes to the reassembly.
pub proof fn lemma_concat_chunks_push(chunks: Seq<Seq<u8>>, c: Seq<u8>)
    ensures
        concat_chunks(chunks.push(c)) == concat_chunks(chunks) + c,
    decreases chunks.len(),
{
    if chunks.len() == 0 {
        assert(chunks.push(c).drop_first() =~= Seq::<Seq<u8>>::empty());
        assert(concat_chunks(chunks.push(c).drop_first()) =~= Seq::<u8>::empty());
        assert(concat_chunks(chunks.push(c)) =~= concat_chunks(chunks) + c);
    } else {
        assert(chunks.push(c).drop_first() =~= chunks.drop_first().push(c));
        lemma_concat_chunks_push(chunks.drop_first(), c);
        assert(concat_chunks(chunks.push(c)) =~= concat_chunks(chunks) + c);
    }
}

/// Byte-exactness of chunking: reassembling the chunks of a blob, in order,
/// gives back exactly the original bytes.
pub proof fn lemma_chunk_partition_reassembles(data: Seq<u8>, cs: nat)
    requires
        cs > 0,
    ensures
        concat_chunks(chunk_partition(data, cs)) == data,
    decreases data.len(),
{
    if data.len() == 0 {
        assert(concat_chunks(chunk_partition(data, cs)) =~= data);
    } else if data.len() <= cs {
        let p = chunk_partition(data, cs);
        assert(p.drop_first() =~= Seq::<Seq<u8>>::empty());
        assert(concat_chunks(p.drop_first()) =~= Seq::<u8>::empty());
        assert(concat_chunks(p) =~= data);
    } else {
        let p = chunk_partition(data, cs);
        lemma_chunk_partition_reassembles(data.skip(cs as int), cs);
        assert(p.drop_first() =~= chunk_partition(data.skip(cs as int), cs));
        assert(concat_chunks(p) =~= data.take(cs as int) + data.skip(cs as int));
        assert(data.take(cs as int) + data.skip(cs as int) =~= data);
    }
}

/// Shape of the chunking: there are exactly `ceil(len / cs)` chunks; every
/// chunk is non-empty and at most `cs` bytes; every chunk but the last is
/// exactly `cs` bytes.
pub proof fn lemma_chunk_partition_shapes(data: Seq<u8>, cs: nat)
    requires
        cs > 0,
    ensures
        chunk_partition(data, cs).len() == (data.len() + cs - 1) / (cs as int),
        forall|i: int|
            0 <= i < chunk_partition(data, cs).len() ==> 0 < (
            #[trigger] chunk_partition(data, cs)[i]).len() <= cs,
        forall|i: int|
            0 <= i < chunk_partition(data, cs).len() - 1 ==> (
            #[trigger] chunk_partition(data, cs)[i]).len() == cs,
    decreases data.len(),
{
    let p = chunk_partition(data, cs);
    if data.len() == 0 {
        lemma_fundamental_div_mod_converse((cs - 1) as int, cs as int, 0, (cs - 1) as int);
    } else if data.len() <= cs {
        lemma_fundamental_div_mod_converse(
            (data.len() + cs - 1) as int,
            cs as int,
            1,
            (data.len() - 1) as int,
        );
    } else {
        let rest = data.skip(cs as int);
        lemma_chunk_partition_shapes(rest, cs);
        assert(forall|i: int| 0 <= i < p.len() - 1 ==> (#[trigger] p[i]).len() == cs) by {
            assert(forall|i: int| 1 <= i < p.len() ==> p[i] == #[trigger] chunk_partition(rest, cs)[i - 1]);
        }
        let q = (rest.len() + cs - 1) / (cs as int);
        let r = (rest.len() + cs - 1) % (cs as int);
        lemma_fundamental_div_mod((rest.len() + cs - 1) as int, cs as int);
        assert((data.len() + cs - 1) as int == (q + 1) * (cs as int) + r) by (nonlinear_arith)
            requires
                (rest.len() + cs - 1) as int == (cs as int) * q + r,
                data.len() == rest.len() + cs,
        ;
        lemma_fundamental_div_mod_converse(
            (data.len() + cs - 1) as int,
            cs as int,
            q + 1,
            r,
        );
    }
}

/// The tail is never empty: when the blob length is an exact multiple of the
/// chunk size, every chunk is exactly `cs` bytes and there are `len / cs` of
/// them, so no zero-length final chunk exists.
pub proof fn lemma_chunk_partition_exact(data: Seq<u8>, cs: nat)
    requires
        cs > 0,
        data.len() % cs == 0,
    ensures
        chunk_partition(data, cs).len() == data.len() / cs,
        forall|i: int|
            0 <= i < chunk_partition(data, cs).len() ==> (
            #[trigger] chunk_partition(data, cs)[i]).len() == cs,
    decreases data.len(),
{
    let p = chunk_partition(data, cs);
    if data.len() == 0 {
    } else if data.len() <= cs {
        if data.len() < cs {
            lemma_small_mod(data.len(), cs);
        }
        assert(data.len() == cs);
        lemma_fundamental_div_mod_converse(data.len() as int, cs as int, 1, 0);
    } else {
        let rest = data.skip(cs as int);
        lemma_fundamental_div_mod(data.len() as int, cs as int);
        let q = data.len() as int / (cs as int);
        assert(rest.len() == (q - 1) * (cs as int) + 0) by (nonlinear_arith)
            requires
                rest.len() == data.len() - cs,
                data.len() as int == (cs as int) * q + (data.len() as int) % (cs as int),
                (data.len() as int) % (cs as int) == 0,
        ;
        lemma_fundamental_div_mod_converse(rest.len() as int, cs as int, q - 1, 0);
        lemma_chunk_partition_exact(rest, cs);
        assert(forall|i: int| 1 <= i < p.len() ==> p[i] == #[trigger] chunk_partition(rest, cs)[i - 1]);
    }
}

} // verus!
