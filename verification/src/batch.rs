//! Splitting a payload into messages of bounded size, so that a long SSH
//! reply or HTTP packet travels as a series of small frames.

use vstd::prelude::*;
use crate::message::{Message, MessageView};
use crate::protocols::ProtocolType;

verus! {

/// The number of batches that a payload of `len` bytes is sent in, `b` bytes
/// at most each: an empty payload still goes out as one empty batch.
pub open spec fn batch_count(len: nat, b: nat) -> nat {
    if len == 0 {
        1
    } else {
        ((len + b - 1) / b as int) as nat
    }
}

/// The `k`-th batch of `bytes`, `b` bytes at most.
pub open spec fn batch_of(bytes: Seq<u8>, b: nat, k: int) -> Seq<u8> {
    let start = k * b;
    let end = if (k + 1) * b < bytes.len() { (k + 1) * b } else { bytes.len() as int };
    bytes.subrange(start, end)
}

/// The batches of `bytes`, in order.
pub open spec fn batches(bytes: Seq<u8>, b: nat) -> Seq<Seq<u8>> {
    Seq::new(batch_count(bytes.len(), b), |k: int| batch_of(bytes, b, k))
}

/// Whether a payload of `len` bytes can be split in batches of `b` bytes:
/// a zero batch size never gets past a non-empty payload, and the running
/// offset must not overflow.
pub open spec fn batchable(len: nat, b: nat) -> bool {
    &&& b > 0 || len == 0
    &&& len + b <= usize::MAX
}

/// The SSH messages that relay `bytes` in batches of `b` bytes.
pub open spec fn ssh_batch_messages(tracing_id: u32, b: nat, bytes: Seq<u8>) -> Seq<MessageView> {
    batches(bytes, b).map_values(|chunk: Seq<u8>| MessageView {
        protocol: ProtocolType::SSH,
        body: chunk,
        tracing_id: Some(tracing_id),
        ssh_status: Some(crate::message::SSHStatus::Normal),
        packet_size: None,
    })
}

/// The HTTP messages that relay `bytes` in batches of `b` bytes; each names
/// the size of the whole packet (its length taken as a `u32`).
pub open spec fn http_batch_messages(tracing_id: u32, b: nat, bytes: Seq<u8>) -> Seq<MessageView> {
    batches(bytes, b).map_values(|chunk: Seq<u8>| MessageView {
        protocol: ProtocolType::HTTP,
        body: chunk,
        tracing_id: Some(tracing_id),
        ssh_status: None,
        packet_size: Some((bytes.len() % 0x1_0000_0000) as u32),
    })
}

/// The views of `v`.
pub open spec fn views(v: Seq<Message>) -> Seq<MessageView> {
    v.map_values(|m: Message| m@)
}

pub(crate) proof fn lemma_batch_bounds(len: nat, b: nat, k: int)
    requires
        b > 0,
        len > 0,
        0 <= k < batch_count(len, b),
    ensures
        k * b < len,
        (k + 1 < batch_count(len, b)) <==> (k + 1) * b < len,
{
    let c = batch_count(len, b) as int;
    assert(c == (len + b - 1) / b as int);
    assert(c * b >= len && (c - 1) * b < len) by (nonlinear_arith)
        requires c == (len + b - 1) / b as int, b > 0, len > 0;
    assert(k * b <= (c - 1) * b) by (nonlinear_arith) requires k <= c - 1, b > 0;
    if k + 1 < c {
        assert((k + 1) * b <= (c - 1) * b) by (nonlinear_arith) requires k + 1 <= c - 1, b > 0;
    } else {
        assert((k + 1) * b >= c * b) by (nonlinear_arith) requires k + 1 >= c, b > 0;
    }
}

/// The message that carries one batch: SSH, or HTTP naming the packet size.
pub open spec fn wrap_chunk(http: bool, tracing_id: u32, packet_size: u32, chunk: Seq<u8>) -> MessageView {
    MessageView {
        protocol: if http { ProtocolType::HTTP } else { ProtocolType::SSH },
        body: chunk,
        tracing_id: Some(tracing_id),
        ssh_status: if http { None } else { Some(crate::message::SSHStatus::Normal) },
        packet_size: if http { Some(packet_size) } else { None },
    }
}

/// Splits `bytes` into batches of `batch_size` bytes, each wrapped in an
/// SSH message, or, when `http` holds, in an HTTP message that names the
/// packet size `packet_size`.
fn split_by_batch(tracing_id: u32, batch_size: usize, bytes: &[u8], http: bool, packet_size: u32)
    -> (r: Vec<Message>)
    requires
        batchable(bytes@.len(), batch_size as nat),
    ensures
        http ==> views(r@) == batches(bytes@, batch_size as nat).map_values(|chunk: Seq<u8>| MessageView {
            protocol: ProtocolType::HTTP,
            body: chunk,
            tracing_id: Some(tracing_id),
            ssh_status: None,
            packet_size: Some(packet_size),
        }),
        !http ==> views(r@) == ssh_batch_messages(tracing_id, batch_size as nat, bytes@),
{
    let ghost b = batch_size as nat;
    let ghost wrapped = batches(bytes@, b).map_values(
        |chunk: Seq<u8>| wrap_chunk(http, tracing_id, packet_size, chunk),
    );
    let len = bytes.len();
    let mut out: Vec<Message> = Vec::new();
    let mut i: usize = 0;
    let ghost mut k: int = 0;
    proof {
        if len > 0 {
            assert((len + b - 1) / b as int >= 1) by (nonlinear_arith) requires len > 0, b > 0;
        }
    }
    loop
        invariant_except_break
            len == bytes@.len(),
            batchable(len as nat, b),
            b == batch_size,
            i == k * b,
            0 <= k < batch_count(len as nat, b),
            wrapped.len() == batch_count(len as nat, b),
            wrapped == batches(bytes@, b).map_values(
                |chunk: Seq<u8>| wrap_chunk(http, tracing_id, packet_size, chunk),
            ),
            views(out@) == wrapped.subrange(0, k),
            k > 0 ==> i < len,
        ensures
            views(out@) == wrapped,
        decreases batch_count(len as nat, b) - k,
    {
        let end = if i + batch_size > len { len } else { i + batch_size };
        proof {
            assert((k + 1) * b == k * b + b) by (nonlinear_arith);
            if len > 0 {
                lemma_batch_bounds(len as nat, b, k);
            } else {
                assert(k == 0);
            }
        }
        let chunk = vstd::slice::slice_to_vec(vstd::slice::slice_subrange(bytes, i, end));
        assert(chunk@ == batch_of(bytes@, b, k));
        let m = if http {
            Message::new_http(Some(tracing_id), chunk, packet_size)
        } else {
            Message::new_ssh(Some(tracing_id), chunk)
        };
        let ghost old_out = out@;
        out.push(m);
        proof {
            assert(batches(bytes@, b)[k] == batch_of(bytes@, b, k));
            assert(wrapped[k].body == chunk@);
            assert(wrapped[k].protocol == m@.protocol);
            assert(wrapped[k].tracing_id == m@.tracing_id);
            assert(wrapped[k].ssh_status == m@.ssh_status);
            assert(wrapped[k].packet_size == m@.packet_size);
            assert(m@.body == chunk@);
            assert(wrapped[k] == m@);
            assert(views(out@) =~= views(old_out).push(m@));
            assert(views(out@) =~= wrapped.subrange(0, k + 1));
        }
        i = i + batch_size;
        if i >= len {
            proof {
                if len > 0 {
                    assert(k + 1 == batch_count(len as nat, b));
                } else {
                    assert(batch_count(len as nat, b) == 1);
                }
                assert(views(out@) =~= wrapped);
            }
            break;
        }
        proof {
            k = k + 1;
            assert(len > 0);
        }
    }
    proof {
                if http {
                    assert(wrapped =~= batches(bytes@, b).map_values(|chunk: Seq<u8>| MessageView {
                        protocol: ProtocolType::HTTP,
                        body: chunk,
                        tracing_id: Some(tracing_id),
                        ssh_status: None,
                        packet_size: Some(packet_size),
                    }));
                } else {
                    assert(wrapped =~= ssh_batch_messages(tracing_id, b, bytes@));
                }
    }
    out
}

/// The SSH messages that relay `bytes` in batches of `batch_size` bytes, in
/// the order they are to be sent.
pub fn split_ssh_by_batch(tracing_id: u32, batch_size: usize, bytes: &[u8]) -> (r: Vec<Message>)
    requires
        batchable(bytes@.len(), batch_size as nat),
    ensures
        views(r@) == ssh_batch_messages(tracing_id, batch_size as nat, bytes@),
{
    split_by_batch(tracing_id, batch_size, bytes, false, 0)
}

/// The HTTP messages that relay `bytes` in batches of `batch_size` bytes, in
/// the order they are to be sent; each carries the size of the whole packet.
pub fn split_http_by_batch(tracing_id: u32, batch_size: usize, bytes: &[u8]) -> (r: Vec<Message>)
    requires
        batchable(bytes@.len(), batch_size as nat),
    ensures
        views(r@) == http_batch_messages(tracing_id, batch_size as nat, bytes@),
{
    let total: u64 = (bytes.len() as u64) % 0x1_0000_0000;
    let r = split_by_batch(tracing_id, batch_size, bytes, true, total as u32);
    assert(views(r@) =~= http_batch_messages(tracing_id, batch_size as nat, bytes@));
    r
}

} // verus!

verus! {

proof fn lemma_batches_prefix(bytes: Seq<u8>, b: nat, k: int)
    requires
        b > 0,
        bytes.len() > 0,
        0 <= k < batch_count(bytes.len(), b),
    ensures
        batches(bytes, b).subrange(0, k + 1).flatten_alt() == bytes.subrange(0, batch_end(bytes.len(), b, k)),
    decreases k,
{
    let s = batches(bytes, b).subrange(0, k + 1);
    lemma_batch_bounds(bytes.len(), b, k);
    assert((k + 1) * b == k * b + b) by (nonlinear_arith);
    assert(s.last() == batch_of(bytes, b, k));
    if k == 0 {
        assert(s.drop_last() =~= Seq::<Seq<u8>>::empty());
        assert(s.drop_last().flatten_alt() == Seq::<u8>::empty());
        assert(Seq::<u8>::empty() + batch_of(bytes, b, 0) =~= bytes.subrange(0, batch_end(bytes.len(), b, 0)));
    } else {
        lemma_batches_prefix(bytes, b, k - 1);
        lemma_batch_bounds(bytes.len(), b, k - 1);
        assert(s.drop_last() =~= batches(bytes, b).subrange(0, k));
        assert(k * b == (k - 1) * b + b) by (nonlinear_arith);
        assert(batch_end(bytes.len(), b, k - 1) == k * b);
        assert(bytes.subrange(0, k * b) + batch_of(bytes, b, k) =~= bytes.subrange(0, batch_end(bytes.len(), b, k)));
    }
}

/// Where the `k`-th batch ends.
pub open spec fn batch_end(len: nat, b: nat, k: int) -> int {
    if (k + 1) * b < len { (k + 1) * b } else { len as int }
}

/// Batching loses nothing and adds nothing: the batches of a payload, joined
/// in order, are the payload; none is longer than the batch size.
pub proof fn lemma_batches_join(bytes: Seq<u8>, b: nat)
    requires
        b > 0 || bytes.len() == 0,
    ensures
        batches(bytes, b).flatten() == bytes,
        forall|k: int| 0 <= k < batches(bytes, b).len() ==> #[trigger] batches(bytes, b)[k].len() <= b,
{
    let s = batches(bytes, b);
    s.lemma_flatten_and_flatten_alt_are_equivalent();
    if bytes.len() == 0 {
        assert(s.len() == 1);
        assert(s[0] =~= Seq::<u8>::empty());
        assert(s.drop_last() =~= Seq::<Seq<u8>>::empty());
        assert(s.drop_last().flatten_alt() == Seq::<u8>::empty());
        assert(s.last() =~= Seq::<u8>::empty());
        assert(s.flatten_alt() =~= Seq::<u8>::empty());
    } else {
        let c = batch_count(bytes.len(), b) as int;
        assert((bytes.len() + b - 1) / b as int >= 1) by (nonlinear_arith) requires bytes.len() > 0, b > 0;
        lemma_batches_prefix(bytes, b, c - 1);
        lemma_batch_bounds(bytes.len(), b, c - 1);
        assert(s.subrange(0, c) =~= s);
        assert(bytes.subrange(0, bytes.len() as int) =~= bytes);
    }
    assert forall|k: int| 0 <= k < s.len() implies #[trigger] s[k].len() <= b by {
        if bytes.len() > 0 {
            lemma_batch_bounds(bytes.len(), b, k);
            assert((k + 1) * b == k * b + b) by (nonlinear_arith);
        }
    }
}

} // verus!
