//! The wire framing: every message travels as a four-byte big-endian length
//! followed by that many bytes of payload. The first payload byte is the
//! message type.

use vstd::prelude::*;
use vstd::slice::*;

verus! {

/// The four bytes that carry `n`, most significant first.
pub open spec fn be32(n: nat) -> Seq<u8> {
    seq![
        ((n / 0x1000000) % 0x100) as u8,
        ((n / 0x10000) % 0x100) as u8,
        ((n / 0x100) % 0x100) as u8,
        (n % 0x100) as u8,
    ]
}

/// The number that the first four bytes of `b` carry, most significant first.
pub open spec fn be32_value(b: Seq<u8>) -> int {
    (b[0] as int) * 0x1000000 + (b[1] as int) * 0x10000 + (b[2] as int) * 0x100 + (b[3] as int)
}

/// The two bytes that carry `n`, most significant first.
pub open spec fn be16(n: nat) -> Seq<u8> {
    seq![((n / 0x100) % 0x100) as u8, (n % 0x100) as u8]
}

/// The number that the first two bytes of `b` carry, most significant first.
pub open spec fn be16_value(b: Seq<u8>) -> int {
    (b[0] as int) * 0x100 + (b[1] as int)
}

/// The eight bytes that carry `n`, most significant first.
pub open spec fn be64(n: nat) -> Seq<u8> {
    be32(n / 0x100000000) + be32(n % 0x100000000)
}

/// The number that the first eight bytes of `b` carry, most significant first.
pub open spec fn be64_value(b: Seq<u8>) -> int {
    be32_value(b.subrange(0, 4)) * 0x100000000 + be32_value(b.subrange(4, 8))
}

/// The frame that carries `payload`.
pub open spec fn frame_of(payload: Seq<u8>) -> Seq<u8> {
    be32(payload.len()) + payload
}

/// The first complete frame of `pending`, if there is one: its payload and
/// the bytes that follow it.
pub open spec fn first_frame(pending: Seq<u8>) -> Option<(Seq<u8>, Seq<u8>)> {
    if pending.len() >= 4 && pending.len() - 4 >= be32_value(pending) {
        Some(
            (
                pending.subrange(4, 4 + be32_value(pending)),
                pending.subrange(4 + be32_value(pending), pending.len() as int),
            ),
        )
    } else {
        None
    }
}

/// The first message of `pending`: the type byte and the body of its first
/// complete frame that is not empty, and the bytes that follow that frame.
/// Empty frames before it are passed over.
pub open spec fn first_message(pending: Seq<u8>) -> Option<(u8, Seq<u8>, Seq<u8>)>
    decreases pending.len(),
{
    match first_frame(pending) {
        None => None,
        Some((payload, rest)) => if payload.len() == 0 {
            if rest.len() < pending.len() {
                first_message(rest)
            } else {
                None
            }
        } else {
            Some((payload[0], payload.subrange(1, payload.len() as int), rest))
        },
    }
}

/// What is left of `pending` once the empty frames at its front and, if one
/// is complete, its first message are taken off.
pub open spec fn after_first_message(pending: Seq<u8>) -> Seq<u8>
    decreases pending.len(),
{
    match first_frame(pending) {
        None => pending,
        Some((payload, rest)) => if payload.len() == 0 {
            if rest.len() < pending.len() {
                after_first_message(rest)
            } else {
                pending
            }
        } else {
            rest
        },
    }
}

/// Four bytes carry every number below two to the power 32: reading what
/// was written gives the number back.
pub proof fn lemma_be32_value(n: nat)
    requires
        n <= u32::MAX,
    ensures
        be32(n).len() == 4,
        be32_value(be32(n)) == n,
{
}

/// Writing the number that four bytes carry gives the four bytes back.
#[verifier::rlimit(50)]
pub proof fn lemma_be32_of_value(b: Seq<u8>)
    requires
        b.len() == 4,
    ensures
        0 <= be32_value(b) <= u32::MAX,
        be32(be32_value(b) as nat) == b,
{
    let b0 = b[0] as int;
    let b1 = b[1] as int;
    let b2 = b[2] as int;
    let b3 = b[3] as int;
    let v = be32_value(b);
    assert(v == b0 * 0x1000000 + b1 * 0x10000 + b2 * 0x100 + b3);
    assert(v % 0x100 == b3);
    assert(v / 0x100 == b0 * 0x10000 + b1 * 0x100 + b2);
    assert((v / 0x100) % 0x100 == b2);
    assert(v / 0x10000 == b0 * 0x100 + b1);
    assert((v / 0x10000) % 0x100 == b1);
    assert(v / 0x1000000 == b0);
    assert(be32(v as nat) =~= b);
}

/// Two bytes carry every number below two to the power 16.
pub proof fn lemma_be16_value(n: nat)
    requires
        n <= u16::MAX,
    ensures
        be16(n).len() == 2,
        be16_value(be16(n)) == n,
{
}

/// Eight bytes carry every number below two to the power 64.
pub proof fn lemma_be64_value(n: nat)
    requires
        n <= u64::MAX,
    ensures
        be64(n).len() == 8,
        be64_value(be64(n)) == n,
{
    let hi = n / 0x100000000;
    let lo = n % 0x100000000;
    lemma_be32_value(hi);
    lemma_be32_value(lo);
    assert(be64(n).subrange(0, 4) =~= be32(hi));
    assert(be64(n).subrange(4, 8) =~= be32(lo));
}

/// Decoding what was encoded gives the payload back, and leaves what stood
/// behind the frame.
pub proof fn lemma_frame_round_trip(payload: Seq<u8>, tail: Seq<u8>)
    requires
        payload.len() <= u32::MAX,
    ensures
        first_frame(frame_of(payload) + tail) == Some((payload, tail)),
        first_frame(frame_of(payload)) == Some((payload, Seq::<u8>::empty())),
{
    let n = payload.len() as int;
    lemma_be32_value(n as nat);
    let whole = frame_of(payload) + tail;
    assert(be32_value(whole) == be32_value(be32(n as nat)));
    assert(whole.subrange(4, 4 + n) =~= payload);
    assert(whole.subrange(4 + n, whole.len() as int) =~= tail);
    let alone = frame_of(payload);
    assert(be32_value(alone) == be32_value(be32(n as nat)));
    assert(alone.subrange(4, 4 + n) =~= payload);
    assert(alone.subrange(4 + n, alone.len() as int) =~= Seq::<u8>::empty());
}

/// A frame is complete exactly when the bytes at hand begin with the frame
/// of its payload.
pub proof fn lemma_first_frame_is_prefix(pending: Seq<u8>)
    ensures
        match first_frame(pending) {
            Some((payload, rest)) => pending == frame_of(payload) + rest && payload.len()
                <= u32::MAX,
            None => true,
        },
{
    if first_frame(pending).is_some() {
        let n = be32_value(pending);
        lemma_be32_of_value(pending.subrange(0, 4));
        assert(be32_value(pending.subrange(0, 4)) == n);
        assert(pending =~= frame_of(pending.subrange(4, 4 + n)) + pending.subrange(
            4 + n,
            pending.len() as int,
        ));
    }
}

/// Bytes that arrive later change nothing of a frame that is complete: they
/// only join what follows it.
pub proof fn lemma_first_frame_stable(pending: Seq<u8>, more: Seq<u8>)
    requires
        first_frame(pending).is_some(),
    ensures
        first_frame(pending + more) == Some(
            (first_frame(pending).unwrap().0, first_frame(pending).unwrap().1 + more),
        ),
{
    let n = be32_value(pending);
    let whole = pending + more;
    assert(be32_value(whole) == n);
    assert(whole.subrange(4, 4 + n) =~= pending.subrange(4, 4 + n));
    assert(whole.subrange(4 + n, whole.len() as int) =~= pending.subrange(
        4 + n,
        pending.len() as int,
    ) + more);
}

/// Appends the four big-endian bytes of `n` to `out`.
pub fn push_be32(out: &mut Vec<u8>, n: u32)
    ensures
        final(out)@ == old(out)@ + be32(n as nat),
{
    out.push((n / 0x1000000) as u8);
    out.push(((n / 0x10000) % 0x100) as u8);
    out.push(((n / 0x100) % 0x100) as u8);
    out.push((n % 0x100) as u8);
    assert(out@ =~= old(out)@ + be32(n as nat));
}

/// Appends the eight big-endian bytes of `n` to `out`.
pub fn push_be64(out: &mut Vec<u8>, n: u64)
    ensures
        final(out)@ == old(out)@ + be64(n as nat),
{
    push_be32(out, (n / 0x100000000) as u32);
    push_be32(out, (n % 0x100000000) as u32);
    assert(out@ =~= old(out)@ + be64(n as nat));
}

/// Reads four big-endian bytes at `at`.
pub fn read_be32(bytes: &[u8], at: usize) -> (n: u32)
    requires
        at + 4 <= bytes@.len(),
    ensures
        n == be32_value(bytes@.subrange(at as int, at + 4)),
{
    let b0: u32 = bytes[at] as u32;
    let b1: u32 = bytes[at + 1] as u32;
    let b2: u32 = bytes[at + 2] as u32;
    let b3: u32 = bytes[at + 3] as u32;
    b0 * 0x1000000 + b1 * 0x10000 + b2 * 0x100 + b3
}

/// Reads two big-endian bytes at `at`.
pub fn read_be16(bytes: &[u8], at: usize) -> (n: u16)
    requires
        at + 2 <= bytes@.len(),
    ensures
        n == be16_value(bytes@.subrange(at as int, at + 2)),
{
    let b0: u16 = bytes[at] as u16;
    let b1: u16 = bytes[at + 1] as u16;
    b0 * 0x100 + b1
}

/// Reads eight big-endian bytes at `at`.
pub fn read_be64(bytes: &[u8], at: usize) -> (n: u64)
    requires
        at + 8 <= bytes@.len(),
    ensures
        n == be64_value(bytes@.subrange(at as int, at + 8)),
{
    let have: usize = bytes.len();
    let hi: u64 = read_be32(bytes, at) as u64;
    let lo: u64 = read_be32(bytes, at + 4) as u64;
    proof {
        let eight = bytes@.subrange(at as int, at + 8);
        assert(eight.subrange(0, 4) =~= bytes@.subrange(at as int, at + 4));
        assert(eight.subrange(4, 8) =~= bytes@.subrange(at + 4, at + 8));
    }
    hi * 0x100000000 + lo
}

/// Wraps `payload` in a frame: its length as four big-endian bytes, then the
/// payload itself. The length has to fit the four bytes.
pub fn encode_frame(payload: &[u8]) -> (frame: Vec<u8>)
    requires
        payload@.len() <= u32::MAX,
    ensures
        frame@ == frame_of(payload@),
{
    let len: u32 = payload.len() as u32;
    let mut frame: Vec<u8> = Vec::with_capacity(payload.len());
    push_be32(&mut frame, len);
    frame.extend_from_slice(payload);
    assert(frame@ =~= frame_of(payload@));
    frame
}

/// An incremental frame decoder: bytes go in as they arrive, complete
/// frames come out in order.
pub struct FrameDecoder {
    pending: Vec<u8>,
}

impl View for FrameDecoder {
    type V = Seq<u8>;

    /// The bytes received and not yet given out.
    closed spec fn view(&self) -> Seq<u8> {
        self.pending@
    }
}

impl FrameDecoder {
    /// A decoder that has received nothing.
    pub fn new() -> (decoder: FrameDecoder)
        ensures
            decoder@ == Seq::<u8>::empty(),
    {
        FrameDecoder { pending: Vec::new() }
    }

    /// Takes in bytes as they were read from the connection.
    pub fn feed(&mut self, bytes: &[u8])
        ensures
            final(self)@ == old(self)@ + bytes@,
    {
        self.pending.extend_from_slice(bytes);
        assert(self.pending@ =~= old(self).pending@ + bytes@);
    }

    /// The number of bytes received and not yet given out.
    pub fn pending_len(&self) -> (n: usize)
        ensures
            n == self@.len(),
    {
        self.pending.len()
    }

    /// Gives out the payload of the next frame once all of it has arrived,
    /// and drops the frame from the pending bytes. Until then returns `None`
    /// and keeps what it has.
    pub fn next_frame(&mut self) -> (frame: Option<Vec<u8>>)
        ensures
            match first_frame(old(self)@) {
                Some((payload, rest)) => frame.is_some() && frame.unwrap()@ == payload
                    && final(self)@ == rest,
                None => frame.is_none() && final(self)@ == old(self)@,
            },
    {
        let have: usize = self.pending.len();
        if have < 4 {
            return None;
        }
        assert(self.pending@.subrange(0, 4)[0] == self.pending@[0]);
        assert(self.pending@.subrange(0, 4)[1] == self.pending@[1]);
        assert(self.pending@.subrange(0, 4)[2] == self.pending@[2]);
        assert(self.pending@.subrange(0, 4)[3] == self.pending@[3]);
        let msg_len: usize = read_be32(self.pending.as_slice(), 0) as usize;
        if have - 4 < msg_len {
            return None;
        }
        let payload = slice_to_vec(slice_subrange(self.pending.as_slice(), 4, 4 + msg_len));
        let rest = slice_to_vec(slice_subrange(self.pending.as_slice(), 4 + msg_len, have));
        self.pending = rest;
        Some(payload)
    }

    /// Gives out the next message: the type byte and the body of the next
    /// complete frame that is not empty. Empty frames on the way are
    /// dropped.
    pub fn next_message(&mut self) -> (message: Option<(u8, Vec<u8>)>)
        ensures
            final(self)@ == after_first_message(old(self)@),
            match first_message(old(self)@) {
                Some((kind, body, rest)) => message.is_some() && message.unwrap().0 == kind
                    && message.unwrap().1@ == body && final(self)@ == rest,
                None => message.is_none(),
            },
    {
        loop
            invariant
                first_message(self@) == first_message(old(self)@),
                after_first_message(self@) == after_first_message(old(self)@),
            decreases self@.len(),
        {
            let ghost before = self@;
            match self.next_frame() {
                None => {
                    return None;
                },
                Some(payload) => {
                    match split_message(payload.as_slice()) {
                        Some(message) => {
                            return Some(message);
                        },
                        None => {
                            assert(self@.len() < before.len());
                        },
                    }
                },
            }
        }
    }
}

/// Splits a payload into its type byte and its body; `None` for the empty
/// payload, which carries no message.
pub fn split_message(payload: &[u8]) -> (message: Option<(u8, Vec<u8>)>)
    ensures
        payload@.len() == 0 ==> message.is_none(),
        payload@.len() > 0 ==> message.is_some() && message.unwrap().0 == payload@[0]
            && message.unwrap().1@ == payload@.subrange(1, payload@.len() as int),
{
    if payload.len() == 0 {
        None
    } else {
        Some((payload[0], slice_to_vec(slice_subrange(payload, 1, payload.len()))))
    }
}

} // verus!
