//! The replay buffer: a fixed-capacity circular byte store that remembers the
//! most recent output and counts every byte ever written, so that a client
//! can ask for exactly the bytes it missed.

use vstd::prelude::*;
use vstd::slice::*;

verus! {

/// The last `n` items of `s`; all of `s` if it has no more than `n`.
pub open spec fn keep_last(s: Seq<u8>, n: nat) -> Seq<u8> {
    if s.len() <= n {
        s
    } else {
        s.subrange(s.len() - n, s.len() as int)
    }
}

/// Keeping the last `n` bytes after every write keeps the last `n` bytes of
/// everything written.
pub proof fn lemma_keep_last_of_stream(earlier: Seq<u8>, data: Seq<u8>, n: nat)
    ensures
        keep_last(keep_last(earlier, n) + data, n) == keep_last(earlier + data, n),
{
    assert(keep_last(keep_last(earlier, n) + data, n) =~= keep_last(earlier + data, n));
}

/// The position of the first newline of `s` at or after `i`.
pub open spec fn first_newline(s: Seq<u8>, i: int) -> Option<int>
    decreases s.len() - i,
{
    if i < 0 || i >= s.len() {
        None
    } else if s[i] == 0x0a {
        Some(i)
    } else {
        first_newline(s, i + 1)
    }
}

/// `s` aligned to a line start: what follows its first newline, unless `s`
/// begins with a newline or holds none, in which case `s` itself.
pub open spec fn sanitized(s: Seq<u8>) -> Seq<u8> {
    match first_newline(s, 0) {
        Some(k) => if k == 0 {
            s
        } else {
            s.subrange(k + 1, s.len() as int)
        },
        None => s,
    }
}

/// A found newline is the first one at or after the start of the search; if
/// none is found there is none.
pub proof fn lemma_first_newline(s: Seq<u8>, i: int)
    requires
        0 <= i,
    ensures
        match first_newline(s, i) {
            Some(k) => i <= k < s.len() && s[k] == 0x0a && forall|j: int|
                i <= j < k ==> s[j] != 0x0a,
            None => forall|j: int| i <= j < s.len() ==> s[j] != 0x0a,
        },
    decreases s.len() - i,
{
    if i < s.len() && s[i] != 0x0a {
        lemma_first_newline(s, i + 1);
    }
}

/// Drops a leading partial line: everything up to and including the first
/// newline, unless the bytes already begin with a newline or hold none.
pub fn sanitize_start(buf: Vec<u8>) -> (result: Vec<u8>)
    ensures
        result@ == sanitized(buf@),
{
    let mut idx: usize = 0;
    while idx < buf.len()
        invariant
            idx <= buf.len(),
            first_newline(buf@, 0) == first_newline(buf@, idx as int),
        decreases buf.len() - idx,
    {
        if buf[idx] == 0x0a {
            if idx == 0 {
                return buf;
            }
            return slice_to_vec(slice_subrange(buf.as_slice(), idx + 1, buf.len()));
        }
        idx += 1;
    }
    buf
}

/// A circular store of the most recent output bytes.
pub struct OutputBuffer {
    buffer: Vec<u8>,
    write_pos: usize,
    filled: bool,
    total_written: u64,
    max_size: usize,
}

/// What a delta read gives for a buffer that holds `contents` after `total`
/// bytes were written in all: nothing for a client that is caught up, `None`
/// for an offset whose bytes are overwritten, else the bytes from `offset` on.
pub open spec fn delta_of(contents: Seq<u8>, total: nat, offset: nat) -> Option<Seq<u8>> {
    if offset >= total {
        Some(Seq::empty())
    } else if offset < total - contents.len() {
        None
    } else {
        Some(contents.subrange(offset - (total - contents.len()), contents.len() as int))
    }
}

/// The contents, oldest first, of a circular store whose next byte goes to
/// `pos`: before the first wrap what lies before `pos`, afterwards the part
/// from `pos` on followed by the part before it.
pub open spec fn ring_view(store: Seq<u8>, pos: int, wrapped: bool) -> Seq<u8> {
    if wrapped {
        store.subrange(pos, store.len() as int) + store.subrange(0, pos)
    } else {
        store.subrange(0, pos)
    }
}

/// `store` with `data` laid over it from `at` on.
pub open spec fn overlay(store: Seq<u8>, at: int, data: Seq<u8>) -> Seq<u8> {
    store.subrange(0, at) + data + store.subrange(at + data.len(), store.len() as int)
}

/// Writing fewer bytes than the capacity into the room left before the end
/// of the store keeps the most recent bytes of the stream.
proof fn lemma_write_fit(store: Seq<u8>, pos: int, wrapped: bool, data: Seq<u8>)
    requires
        0 <= pos < store.len(),
        data.len() <= store.len() - pos,
        data.len() < store.len(),
    ensures
        pos + data.len() < store.len() ==> ring_view(
            overlay(store, pos, data),
            pos + data.len(),
            wrapped,
        ) == keep_last(ring_view(store, pos, wrapped) + data, store.len()),
        pos + data.len() == store.len() ==> ring_view(overlay(store, pos, data), 0, true)
            == keep_last(ring_view(store, pos, wrapped) + data, store.len()),
{
    let cap = store.len() as int;
    let n = data.len() as int;
    let after = overlay(store, pos, data);
    let before = ring_view(store, pos, wrapped) + data;
    assert(after.len() == cap);
    if pos + n < cap {
        if wrapped {
            assert(before.len() == cap + n);
            assert(ring_view(after, pos + n, true) =~= before.subrange(n, cap + n));
        } else {
            assert(ring_view(after, pos + n, false) =~= before);
        }
    } else {
        assert(ring_view(after, 0, true) =~= after);
        if wrapped {
            assert(before.len() == cap + n);
            assert(after =~= before.subrange(n, cap + n));
        } else {
            assert(after =~= before);
        }
    }
}

/// Writing fewer bytes than the capacity, but more than the room left before
/// the end of the store, keeps the most recent bytes of the stream.
#[verifier::rlimit(50)]
proof fn lemma_write_wrap(store: Seq<u8>, pos: int, wrapped: bool, data: Seq<u8>)
    requires
        0 <= pos < store.len(),
        store.len() - pos < data.len() < store.len(),
    ensures
        ring_view(
            overlay(
                overlay(store, pos, data.subrange(0, store.len() - pos)),
                0,
                data.subrange(store.len() - pos, data.len() as int),
            ),
            data.len() - (store.len() - pos),
            true,
        ) == keep_last(ring_view(store, pos, wrapped) + data, store.len()),
{
    let cap = store.len() as int;
    let n = data.len() as int;
    let space = cap - pos;
    let rest = n - space;
    let mid = overlay(store, pos, data.subrange(0, space));
    let after = overlay(mid, 0, data.subrange(space, n));
    let before = ring_view(store, pos, wrapped) + data;
    assert(mid.len() == cap);
    assert(after.len() == cap);
    let got = ring_view(after, rest, true);
    let want = keep_last(before, cap as nat);
    assert(got.len() == cap);
    if wrapped {
        assert(before.len() == cap + n);
        assert forall|k: int| 0 <= k < cap implies got[k] == want[k] by {
            if k < cap - rest {
                assert(got[k] == after[k + rest]);
            } else {
                assert(got[k] == after[k - (cap - rest)]);
            }
        }
    } else {
        assert(before.len() == pos + n);
        assert forall|k: int| 0 <= k < cap implies got[k] == want[k] by {
            if k < cap - rest {
                assert(got[k] == after[k + rest]);
            } else {
                assert(got[k] == after[k - (cap - rest)]);
            }
        }
    }
    assert(got =~= want);
}

impl View for OutputBuffer {
    type V = Seq<u8>;

    /// The bytes the buffer holds, oldest first.
    closed spec fn view(&self) -> Seq<u8> {
        ring_view(self.buffer@, self.write_pos as int, self.filled)
    }
}

impl OutputBuffer {
    /// The fixed number of bytes the buffer can hold.
    pub closed spec fn capacity(&self) -> nat {
        self.max_size as nat
    }

    /// The index in the store that the next byte goes to.
    pub closed spec fn position(&self) -> nat {
        self.write_pos as nat
    }

    /// Whether the store has been filled to its end at least once.
    pub closed spec fn wrapped(&self) -> bool {
        self.filled
    }

    /// The number of bytes ever written.
    pub closed spec fn total(&self) -> nat {
        self.total_written as nat
    }

    /// The number of bytes held, as the position and the wrap flag give it.
    pub open spec fn logical_size(&self) -> nat {
        if self.wrapped() {
            self.capacity()
        } else {
            self.position()
        }
    }

    /// The offset in the whole output stream of the oldest byte held.
    pub open spec fn start_offset(&self) -> int {
        self.total() - self.logical_size()
    }

    /// Validity of a buffer: the store has the stated capacity, the write
    /// position lies inside it, everything written is held until the store
    /// has wrapped, and no less than the capacity was written once it has.
    pub closed spec fn wf(&self) -> bool {
        &&& self.max_size > 0
        &&& self.buffer@.len() == self.max_size
        &&& self.write_pos < self.max_size
        &&& if self.filled {
            self.total_written >= self.max_size
        } else {
            self.total_written == self.write_pos
        }
    }

    /// The bytes selected for a full replay: the contents, aligned to a line
    /// start once the buffer has wrapped.
    pub open spec fn replay_view(&self) -> Seq<u8> {
        if self.wrapped() {
            sanitized(self@)
        } else {
            self@
        }
    }

    /// In every valid buffer the write position is inside the store, the
    /// number of bytes held is the capacity once wrapped and the write
    /// position before, and at least as many bytes were written as are held:
    /// all of them until the store has wrapped.
    pub proof fn lemma_invariants(self)
        requires
            self.wf(),
        ensures
            self.capacity() > 0,
            0 <= self.position() < self.capacity(),
            self@.len() == self.logical_size(),
            self.logical_size() == (if self.wrapped() {
                self.capacity()
            } else {
                self.position()
            }),
            self.total() >= self.logical_size(),
            !self.wrapped() ==> self.total() == self.logical_size(),
            self.total() <= u64::MAX,
            self.capacity() <= usize::MAX,
    {
    }

    /// An empty buffer of the given capacity.
    pub fn new(max_size: usize) -> (buf: OutputBuffer)
        requires
            max_size > 0,
        ensures
            buf.wf(),
            buf.capacity() == max_size,
            buf@ == Seq::<u8>::empty(),
            buf.total() == 0,
            buf.position() == 0,
            !buf.wrapped(),
    {
        OutputBuffer {
            buffer: vec![0u8; max_size],
            write_pos: 0,
            filled: false,
            total_written: 0,
            max_size,
        }
    }

    /// Copies `src[from..from + n]` into the store at `at`.
    fn copy_in(&mut self, at: usize, src: &[u8], from: usize, n: usize)
        requires
            at + n <= old(self).buffer@.len(),
            from + n <= src@.len(),
        ensures
            final(self).buffer@ == overlay(
                old(self).buffer@,
                at as int,
                src@.subrange(from as int, from + n),
            ),
            final(self).write_pos == old(self).write_pos,
            final(self).filled == old(self).filled,
            final(self).total_written == old(self).total_written,
            final(self).max_size == old(self).max_size,
    {
        let store_len: usize = self.buffer.len();
        let src_len: usize = src.len();
        let mut k: usize = 0;
        while k < n
            invariant
                k <= n,
                at + n <= store_len,
                from + n <= src_len,
                src_len == src@.len(),
                store_len == old(self).buffer@.len(),
                self.buffer@.len() == store_len,
                self.buffer@ == overlay(
                    old(self).buffer@,
                    at as int,
                    src@.subrange(from as int, from + k),
                ),
                self.write_pos == old(self).write_pos,
                self.filled == old(self).filled,
                self.total_written == old(self).total_written,
                self.max_size == old(self).max_size,
            decreases n - k,
        {
            let ghost before = self.buffer@;
            self.buffer[at + k] = src[from + k];
            proof {
                assert(self.buffer@ == before.update(at + k, src@[from + k]));
                assert(self.buffer@ =~= overlay(
                    old(self).buffer@,
                    at as int,
                    src@.subrange(from as int, from + k + 1),
                ));
            }
            k += 1;
        }
    }

    /// Appends `data` to the output stream. The counter of bytes written
    /// grows by the length of `data`, and the buffer then holds the most
    /// recent bytes of the stream, as many as its capacity allows. The
    /// counter has to stay within 64 bits.
    #[verifier::rlimit(50)]
    pub fn write(&mut self, data: &[u8])
        requires
            old(self).wf(),
            old(self).total() + data@.len() <= u64::MAX,
        ensures
            final(self).wf(),
            final(self).capacity() == old(self).capacity(),
            final(self).total() == old(self).total() + data@.len(),
            final(self)@ == keep_last(old(self)@ + data@, old(self).capacity()),
            final(self).position() == (if data@.len() >= old(self).capacity() {
                0nat
            } else {
                (old(self).position() + data@.len()) % old(self).capacity()
            }),
            final(self).wrapped() == (old(self).wrapped() || old(self).position() + data@.len()
                >= old(self).capacity()),
            data@.len() == old(self).capacity() ==> final(self).position() == 0
                && final(self).wrapped(),
            data@.len() >= old(self).capacity() ==> final(self)@ == data@.subrange(
                data@.len() - old(self).capacity(),
                data@.len() as int,
            ),
    {
        let len: usize = data.len();
        let cap: usize = self.max_size;
        let ghost old_view = self@;
        let ghost old_store = self.buffer@;
        let ghost was_filled = self.filled;
        let ghost wp = self.write_pos as int;
        self.total_written = self.total_written + len as u64;
        if len >= cap {
            let start: usize = len - cap;
            self.copy_in(0, data, start, cap);
            self.write_pos = 0;
            self.filled = true;
            proof {
                let tail = data@.subrange(start as int, len as int);
                assert(self.buffer@ =~= tail);
                assert(self@ =~= tail);
                assert(keep_last(old_view + data@, cap as nat) =~= tail);
            }
            return ;
        }
        proof {
            let c = cap as int;
            if wp + len < c {
                assert((wp + len) % c == wp + len) by (nonlinear_arith)
                    requires
                        0 <= wp + len < c,
                ;
            } else {
                assert((wp + len) % c == wp + len - c) by (nonlinear_arith)
                    requires
                        c <= wp + len < 2 * c,
                ;
            }
        }
        let space_left: usize = cap - self.write_pos;
        if len <= space_left {
            let at: usize = self.write_pos;
            self.copy_in(at, data, 0, len);
            proof {
                assert(data@.subrange(0, len as int) =~= data@);
                lemma_write_fit(old_store, wp, was_filled, data@);
            }
            if at + len >= cap {
                self.write_pos = 0;
                self.filled = true;
            } else {
                self.write_pos = at + len;
            }
        } else {
            let at: usize = self.write_pos;
            self.copy_in(at, data, 0, space_left);
            let remaining: usize = len - space_left;
            self.copy_in(0, data, space_left, remaining);
            self.write_pos = remaining;
            self.filled = true;
            proof {
                lemma_write_wrap(old_store, wp, was_filled, data@);
            }
        }
    }

    /// The number of bytes held.
    pub fn size(&self) -> (n: usize)
        requires
            self.wf(),
        ensures
            n == self.logical_size(),
            n == self@.len(),
    {
        if self.filled {
            self.max_size
        } else {
            self.write_pos
        }
    }

    /// The number of bytes ever written.
    pub fn total_written(&self) -> (n: u64)
        ensures
            n == self.total(),
    {
        self.total_written
    }

    /// Whether the store has been filled to its end at least once.
    pub fn filled(&self) -> (b: bool)
        ensures
            b == self.wrapped(),
    {
        self.filled
    }

    /// The index in the store that the next byte goes to.
    pub fn write_pos(&self) -> (p: usize)
        ensures
            p == self.position(),
    {
        self.write_pos
    }

    /// The contents in stream order, exactly as stored.
    pub fn read_raw(&self) -> (result: Vec<u8>)
        requires
            self.wf(),
        ensures
            result@ == self@,
    {
        if !self.filled {
            return slice_to_vec(slice_subrange(self.buffer.as_slice(), 0, self.write_pos));
        }
        let mut result: Vec<u8> = Vec::with_capacity(self.max_size);
        let store = self.buffer.as_slice();
        result.extend_from_slice(slice_subrange(store, self.write_pos, self.max_size));
        result.extend_from_slice(slice_subrange(store, 0, self.write_pos));
        assert(result@ =~= self@);
        result
    }

    /// The bytes for a full replay: the contents in stream order; once the
    /// buffer has wrapped, without a leading partial line.
    pub fn read(&self) -> (result: Vec<u8>)
        requires
            self.wf(),
        ensures
            result@ == self.replay_view(),
    {
        let raw = self.read_raw();
        if self.filled {
            sanitize_start(raw)
        } else {
            raw
        }
    }

    /// The bytes from stream offset `offset` to the end of the stream.
    /// Empty for an offset at or beyond the end; `None` when bytes from
    /// `offset` on have already been overwritten.
    pub fn read_from(&self, offset: u64) -> (result: Option<Vec<u8>>)
        requires
            self.wf(),
        ensures
            match delta_of(self@, self.total(), offset as nat) {
                Some(bytes) => result.is_some() && result.unwrap()@ == bytes,
                None => result.is_none(),
            },
            offset >= self.total() ==> result.is_some() && result.unwrap()@.len() == 0,
            self.start_offset() <= offset <= self.total() ==> result.is_some() && result.unwrap()@
                == self@.subrange(offset - self.start_offset(), self@.len() as int)
                && result.unwrap()@.len() == self.total() - offset,
            offset < self.start_offset() ==> result.is_none(),
    {
        if offset >= self.total_written {
            assert(self@.subrange(self@.len() as int, self@.len() as int) =~= Seq::<u8>::empty());
            return Some(Vec::new());
        }
        let size: usize = self.size();
        let buffer_start: u64 = self.total_written - size as u64;
        if offset < buffer_start {
            return None;
        }
        let skip_bytes: usize = (offset - buffer_start) as usize;
        let raw = self.read_raw();
        Some(slice_to_vec(slice_subrange(raw.as_slice(), skip_bytes, raw.len())))
    }
}

/// A read from the offset that a client holds after it has seen everything
/// is empty.
pub proof fn lemma_read_from_caught_up(buf: OutputBuffer)
    requires
        buf.wf(),
    ensures
        delta_of(buf@, buf.total(), buf.total()) == Some(Seq::<u8>::empty()),
{
}

/// A read from an offset inside the range that the buffer still holds gives
/// the tail of the contents that starts at that offset: as many bytes as were
/// written since.
pub proof fn lemma_read_from_in_range(buf: OutputBuffer, offset: nat)
    requires
        buf.wf(),
        buf.total() - buf.logical_size() <= offset <= buf.total(),
    ensures
        delta_of(buf@, buf.total(), offset).is_some(),
        delta_of(buf@, buf.total(), offset).unwrap() == buf@.subrange(
            offset - buf.start_offset(),
            buf@.len() as int,
        ),
        delta_of(buf@, buf.total(), offset).unwrap().len() == buf.total() - offset,
{
    buf.lemma_invariants();
    if offset >= buf.total() {
        assert(buf@.subrange(buf@.len() as int, buf@.len() as int) =~= Seq::<u8>::empty());
    }
}

/// A read from an offset older than the oldest byte held reports that the
/// data is gone.
pub proof fn lemma_read_from_too_old(buf: OutputBuffer, offset: nat)
    requires
        buf.wf(),
        offset < buf.total() - buf.logical_size(),
    ensures
        delta_of(buf@, buf.total(), offset).is_none(),
{
    buf.lemma_invariants();
}

} // verus!
