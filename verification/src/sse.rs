//! Frame splitting for the event-stream wire format.
//!
//! The response body of a streaming completion request is a sequence of
//! frames, each terminated by a blank line.  Bytes arrive from the network in
//! arbitrarily sized slices, so the splitter buffers them and hands out one
//! complete frame at a time: the text up to (and not including) the line feed
//! that is followed by a blank line.  Bytes after the last complete frame stay
//! buffered until more data arrives; when the stream ends first, they are
//! dropped with the splitter, never delivered as a partial frame.

use vstd::prelude::*;

verus! {

/// Line feed byte.
pub const LF: u8 = 10;

/// Carriage return byte.
pub const CR: u8 = 13;

/// A frame terminator starts at index `i` of `b`: the line feed ending the
/// frame's last field line, followed immediately by a blank line, which is
/// either a bare line feed or a carriage return and a line feed.
pub open spec fn boundary_at(b: Seq<u8>, i: int) -> bool {
    &&& 0 <= i
    &&& i + 1 < b.len()
    &&& b[i] == LF
    &&& (b[i + 1] == LF || (b[i + 1] == CR && i + 2 < b.len() && b[i + 2] == LF))
}

/// How many bytes the frame terminator starting at `i` occupies.
pub open spec fn boundary_len(b: Seq<u8>, i: int) -> int {
    if b[i + 1] == LF {
        2
    } else {
        3
    }
}

/// The index of the first frame terminator at or after `i`, if any.
pub open spec fn first_boundary_from(b: Seq<u8>, i: int) -> Option<int>
    decreases b.len() - i,
{
    if i + 1 >= b.len() {
        None
    } else if boundary_at(b, i) {
        Some(i)
    } else {
        first_boundary_from(b, i + 1)
    }
}

/// What `first_boundary_from` returns: the earliest boundary at or after `i`,
/// lying wholly inside `b`; or none, and then no boundary exists at or after
/// `i`.
pub proof fn lemma_first_boundary_from(b: Seq<u8>, i: int)
    requires
        0 <= i,
    ensures
        match first_boundary_from(b, i) {
            Some(j) => {
                &&& i <= j
                &&& boundary_at(b, j)
                &&& j + boundary_len(b, j) <= b.len()
                &&& forall|k: int| i <= k < j ==> !boundary_at(b, k)
            },
            None => forall|k: int| i <= k ==> !boundary_at(b, k),
        },
    decreases b.len() - i,
{
    if i + 1 >= b.len() {
    } else if boundary_at(b, i) {
    } else {
        lemma_first_boundary_from(b, i + 1);
    }
}

/// The earliest boundary is unchanged when the scan starts anywhere in the
/// boundary-free prefix before it.
pub proof fn lemma_first_boundary_exact(b: Seq<u8>, i: int, j: int)
    requires
        0 <= i <= j,
        boundary_at(b, j),
        forall|k: int| i <= k < j ==> !boundary_at(b, k),
    ensures
        first_boundary_from(b, i) == Some(j),
    decreases j - i,
{
    if i < j {
        lemma_first_boundary_exact(b, i + 1, j);
    }
}

/// When no index carries a boundary, the scan finds none.
pub proof fn lemma_first_boundary_none(b: Seq<u8>, i: int)
    requires
        0 <= i,
        forall|k: int| i <= k ==> !boundary_at(b, k),
    ensures
        first_boundary_from(b, i) is None,
{
    lemma_first_boundary_from(b, i);
    if first_boundary_from(b, i) is Some {
        let j = first_boundary_from(b, i)->Some_0;
        assert(!boundary_at(b, j));
    }
}

/// The complete frames contained in `b`, in order: each one the text before
/// the earliest remaining frame terminator.
pub open spec fn frames_of(b: Seq<u8>) -> Seq<Seq<u8>>
    decreases b.len(),
    via frames_of_dec
{
    match first_boundary_from(b, 0) {
        None => Seq::empty(),
        Some(i) => seq![b.subrange(0, i)] + frames_of(b.skip(i + boundary_len(b, i))),
    }
}

#[via_fn]
proof fn frames_of_dec(b: Seq<u8>) {
    lemma_first_boundary_from(b, 0);
}

/// The bytes left in `b` after every complete frame has been split off.
pub open spec fn rest_of(b: Seq<u8>) -> Seq<u8>
    decreases b.len(),
    via rest_of_dec
{
    match first_boundary_from(b, 0) {
        None => b,
        Some(i) => rest_of(b.skip(i + boundary_len(b, i))),
    }
}

#[via_fn]
proof fn rest_of_dec(b: Seq<u8>) {
    lemma_first_boundary_from(b, 0);
}

/// The leftover never contains a boundary.
pub proof fn lemma_rest_has_no_boundary(b: Seq<u8>)
    ensures
        first_boundary_from(rest_of(b), 0) is None,
    decreases b.len(),
{
    lemma_first_boundary_from(b, 0);
    match first_boundary_from(b, 0) {
        None => {},
        Some(i) => {
            lemma_rest_has_no_boundary(b.skip(i + boundary_len(b, i)));
        },
    }
}

/// Boundaries that lie wholly inside a prefix are boundaries of any
/// extension, and conversely.
proof fn lemma_boundary_extend(a: Seq<u8>, c: Seq<u8>, k: int)
    requires
        0 <= k,
        k + 3 <= a.len() || (k + 2 <= a.len() && a[k + 1] == LF),
    ensures
        boundary_at(a + c, k) == boundary_at(a, k),
{
    assert(forall|m: int| 0 <= m < a.len() ==> (a + c)[m] == a[m]);
}

/// The earliest boundary of a buffer with a complete frame is still the
/// earliest boundary after more bytes arrive, and the frame it delimits is
/// unchanged.
proof fn lemma_first_boundary_append(a: Seq<u8>, c: Seq<u8>, i: int)
    requires
        first_boundary_from(a, 0) == Some(i),
    ensures
        first_boundary_from(a + c, 0) == Some(i),
        boundary_len(a + c, i) == boundary_len(a, i),
        (a + c).subrange(0, i) == a.subrange(0, i),
        (a + c).skip(i + boundary_len(a, i)) == a.skip(i + boundary_len(a, i)) + c,
{
    lemma_first_boundary_from(a, 0);
    let bl = boundary_len(a, i);
    assert(boundary_at(a + c, i) && boundary_len(a + c, i) == bl) by {
        assert((a + c)[i] == a[i]);
        assert((a + c)[i + 1] == a[i + 1]);
        if a[i + 1] != LF {
            assert((a + c)[i + 2] == a[i + 2]);
        }
    }
    assert forall|k: int| 0 <= k < i implies !boundary_at(a + c, k) by {
        if boundary_at(a + c, k) {
            // Every byte the boundary shape at `k` inspects lies inside `a`,
            // because `i` itself starts a boundary inside `a`.
            assert(i + 1 < a.len());
            assert((a + c)[k] == a[k]);
            assert((a + c)[k + 1] == a[k + 1]);
            if (a + c)[k + 1] == CR {
                assert(k + 2 < a.len());
                assert((a + c)[k + 2] == a[k + 2]);
            }
            assert(boundary_at(a, k));
        }
    }
    lemma_first_boundary_exact(a + c, 0, i);
    assert((a + c).subrange(0, i) =~= a.subrange(0, i));
    assert((a + c).skip(i + bl) =~= a.skip(i + bl) + c);
}

/// Chunk-boundary independence, one step: appending bytes to a buffer yields
/// the frames the buffer already held, then whatever frames the leftover
/// forms together with the new bytes.  Feeding a body in any number of slices
/// therefore yields the same frames as feeding it whole.
pub proof fn lemma_split_append(a: Seq<u8>, c: Seq<u8>)
    ensures
        frames_of(a + c) == frames_of(a) + frames_of(rest_of(a) + c),
        rest_of(a + c) == rest_of(rest_of(a) + c),
    decreases a.len(),
{
    lemma_first_boundary_from(a, 0);
    match first_boundary_from(a, 0) {
        None => {
            assert(frames_of(a) == Seq::<Seq<u8>>::empty());
            assert(rest_of(a) == a);
            assert(frames_of(a + c) =~= frames_of(a) + frames_of(rest_of(a) + c));
        },
        Some(i) => {
            let bl = boundary_len(a, i);
            let a2 = a.skip(i + bl);
            lemma_first_boundary_append(a, c, i);
            assert(a2.len() < a.len());
            lemma_split_append(a2, c);
            assert(frames_of(a + c) =~= frames_of(a) + frames_of(rest_of(a) + c));
        },
    }
}

/// The concatenation of a sequence of byte slices.
pub open spec fn concat_chunks(chunks: Seq<Seq<u8>>) -> Seq<u8>
    decreases chunks.len(),
{
    if chunks.len() == 0 {
        Seq::empty()
    } else {
        chunks[0] + concat_chunks(chunks.skip(1))
    }
}

/// The frames obtained by feeding `chunks` one at a time into a splitter that
/// starts with `carry` buffered, draining complete frames after each feed.
pub open spec fn frames_fed(carry: Seq<u8>, chunks: Seq<Seq<u8>>) -> Seq<Seq<u8>>
    decreases chunks.len(),
{
    if chunks.len() == 0 {
        Seq::empty()
    } else {
        frames_of(carry + chunks[0]) + frames_fed(rest_of(carry + chunks[0]), chunks.skip(1))
    }
}

/// The buffer left after feeding `chunks` one at a time, starting from
/// `carry`.
pub open spec fn rest_fed(carry: Seq<u8>, chunks: Seq<Seq<u8>>) -> Seq<u8>
    decreases chunks.len(),
{
    if chunks.len() == 0 {
        carry
    } else {
        rest_fed(rest_of(carry + chunks[0]), chunks.skip(1))
    }
}

/// Chunk-boundary independence: however a byte stream is cut into slices,
/// feeding the slices one at a time yields exactly the frames of the whole
/// stream, with the same leftover.
pub proof fn lemma_chunking_independent(carry: Seq<u8>, chunks: Seq<Seq<u8>>)
    requires
        first_boundary_from(carry, 0) is None,
    ensures
        frames_fed(carry, chunks) == frames_of(carry + concat_chunks(chunks)),
        rest_fed(carry, chunks) == rest_of(carry + concat_chunks(chunks)),
    decreases chunks.len(),
{
    if chunks.len() == 0 {
        assert(carry + concat_chunks(chunks) =~= carry);
        assert(frames_of(carry) == Seq::<Seq<u8>>::empty());
        assert(rest_of(carry) == carry);
    } else {
        let b1 = carry + chunks[0];
        lemma_rest_has_no_boundary(b1);
        lemma_chunking_independent(rest_of(b1), chunks.skip(1));
        lemma_split_append(b1, concat_chunks(chunks.skip(1)));
        assert(b1 + concat_chunks(chunks.skip(1)) =~= carry + concat_chunks(chunks));
    }
}

/// Chunk-boundary independence, from a fresh splitter: feeding a body as one
/// slice or as arbitrarily many yields the same ordered frames.
pub proof fn lemma_chunk_boundary_independence(chunks: Seq<Seq<u8>>)
    ensures
        frames_fed(Seq::empty(), chunks) == frames_of(concat_chunks(chunks)),
        rest_fed(Seq::empty(), chunks) == rest_of(concat_chunks(chunks)),
{
    lemma_chunking_independent(Seq::empty(), chunks);
    assert(Seq::<u8>::empty() + concat_chunks(chunks) =~= concat_chunks(chunks));
}

/// Holds a growing byte buffer of not-yet-framed response data and splits
/// complete frames off its front.
pub struct SSEIterator {
    buffer: Vec<u8>,
}

impl SSEIterator {
    /// The bytes currently buffered.
    pub closed spec fn buf(&self) -> Seq<u8> {
        self.buffer@
    }

    /// Creates a splitter with an empty buffer.
    pub fn new() -> (s: Self)
        ensures
            s.buf() == Seq::<u8>::empty(),
    {
        SSEIterator { buffer: Vec::new() }
    }

    /// Appends newly arrived bytes to the internal buffer.
    pub fn push(&mut self, bytes: Vec<u8>)
        ensures
            final(self).buf() == old(self).buf() + bytes@,
    {
        let mut tail = bytes;
        self.buffer.append(&mut tail);
    }
}

impl Default for SSEIterator {
    /// A splitter with an empty buffer.
    fn default() -> (s: Self)
        ensures
            s.buf() == Seq::<u8>::empty(),
    {
        SSEIterator::new()
    }
}

impl SSEIterator {
    /// Finds the earliest frame terminator in the buffer, returning its index
    /// and byte length.
    fn find_boundary(&self) -> (r: Option<(usize, usize)>)
        ensures
            match r {
                Some((i, l)) => first_boundary_from(self.buf(), 0) == Some(i as int)
                    && l == boundary_len(self.buf(), i as int),
                None => first_boundary_from(self.buf(), 0) is None,
            },
    {
        let n = self.buffer.len();
        let last = if n == 0 {
            0
        } else {
            n - 1
        };
        let mut i: usize = 0;
        while i < last
            invariant
                n == self.buf().len(),
                last == if n == 0 {
                    0int
                } else {
                    n - 1
                },
                0 <= i <= last,
                forall|k: int| 0 <= k < i ==> !boundary_at(self.buf(), k),
            decreases last - i,
        {
            if self.buffer[i] == LF {
                if self.buffer[i + 1] == LF {
                    proof {
                        lemma_first_boundary_exact(self.buf(), 0, i as int);
                    }
                    return Some((i, 2));
                }
                if self.buffer[i + 1] == CR && i + 2 < n {
                    if self.buffer[i + 2] == LF {
                        proof {
                            lemma_first_boundary_exact(self.buf(), 0, i as int);
                        }
                        return Some((i, 3));
                    }
                }
            }
            proof {
                assert(!boundary_at(self.buf(), i as int));
            }
            i = i + 1;
        }
        proof {
            assert forall|k: int| 0 <= k implies !boundary_at(self.buf(), k) by {
                if boundary_at(self.buf(), k) {
                    assert(k + 1 < n);
                    assert(k < last);
                }
            }
            lemma_first_boundary_none(self.buf(), 0);
        }
        None
    }

    /// Splits the earliest complete frame off the front of the buffer, or
    /// returns nothing when no frame terminator has arrived yet; in that case
    /// the buffer is unchanged.
    pub fn next_frame(&mut self) -> (r: Option<Vec<u8>>)
        ensures
            match r {
                Some(f) => {
                    &&& frames_of(old(self).buf()).len() > 0
                    &&& f@ == frames_of(old(self).buf())[0]
                    &&& frames_of(old(self).buf()) == seq![f@] + frames_of(final(self).buf())
                    &&& rest_of(old(self).buf()) == rest_of(final(self).buf())
                    &&& final(self).buf().len() < old(self).buf().len()
                },
                None => {
                    &&& *final(self) == *old(self)
                    &&& frames_of(old(self).buf()) == Seq::<Seq<u8>>::empty()
                    &&& rest_of(old(self).buf()) == old(self).buf()
                },
            },
    {
        let ghost b0 = self.buf();
        match self.find_boundary() {
            None => None,
            Some((i, l)) => {
                let total = self.buffer.len();
                proof {
                    lemma_first_boundary_from(b0, 0);
                    assert(i + l <= total);
                }
                let frame = vstd::slice::slice_to_vec(
                    vstd::slice::slice_subrange(self.buffer.as_slice(), 0, i),
                );
                let rest = vstd::slice::slice_to_vec(
                    vstd::slice::slice_subrange(self.buffer.as_slice(), i + l, total),
                );
                self.buffer = rest;
                proof {
                    assert(self.buf() =~= b0.skip(i + l as int));
                    assert(frames_of(b0) == seq![frame@] + frames_of(self.buf()));
                    assert(rest_of(b0) == rest_of(self.buf()));
                }
                Some(frame)
            },
        }
    }

    /// Feeds newly arrived bytes and hands out every frame they complete, in
    /// order; no byte ever lands in two frames, and bytes after the last
    /// frame terminator stay buffered.
    pub fn feed(&mut self, bytes: Vec<u8>) -> (r: Vec<Vec<u8>>)
        ensures
            r.deep_view() == frames_of(old(self).buf() + bytes@),
            final(self).buf() == rest_of(old(self).buf() + bytes@),
    {
        self.push(bytes);
        self.take_frames()
    }

    /// Splits off every complete frame now in the buffer, in order, leaving
    /// only the trailing bytes that still wait for their terminator.
    pub fn take_frames(&mut self) -> (r: Vec<Vec<u8>>)
        ensures
            r.deep_view() == frames_of(old(self).buf()),
            final(self).buf() == rest_of(old(self).buf()),
    {
        let mut out: Vec<Vec<u8>> = Vec::new();
        loop
            invariant
                out.deep_view() + frames_of(self.buf()) == frames_of(old(self).buf()),
                rest_of(self.buf()) == rest_of(old(self).buf()),
            ensures
                frames_of(self.buf()) == Seq::<Seq<u8>>::empty(),
                out.deep_view() == frames_of(old(self).buf()),
                self.buf() == rest_of(old(self).buf()),
            decreases self.buf().len(),
        {
            match self.next_frame() {
                None => {
                    proof {
                        assert(out.deep_view() + frames_of(self.buf()) =~= out.deep_view());
                    }
                    break ;
                },
                Some(f) => {
                    let ghost prev = out.deep_view();
                    let ghost fv = f@;
                    out.push(f);
                    proof {
                        assert(out.deep_view() =~~= prev.push(fv));
                        assert(out.deep_view() + frames_of(self.buf()) =~= frames_of(
                            old(self).buf(),
                        ));
                    }
                },
            }
        }
        out
    }
}

} // verus!
