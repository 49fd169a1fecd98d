use vstd::prelude::*;

verus! {

/// Size of the buffer through which a span is copied: 1 MiB.
pub const COPY_BUFFER_SIZE: usize = 1048576;

/// `x` held to at most the length of `src`.
pub open spec fn clamp_to(src: Seq<u8>, x: int) -> int {
    if x < 0 {
        0
    } else if x > src.len() {
        src.len() as int
    } else {
        x
    }
}

/// What one read of at most `n` bytes at offset `pos` of `src` returns: the
/// bytes there, fewer at the end, none past it.
pub open spec fn read_at(src: Seq<u8>, pos: int, n: int) -> Seq<u8> {
    src.subrange(clamp_to(src, pos), clamp_to(src, pos + n))
}

/// The bytes that a copy of `remaining` bytes from offset `pos` writes when it
/// reads through a buffer of `bufsize` bytes: each round asks for the smaller
/// of the buffer and what remains, and a read that returns nothing ends it.
pub open spec fn chunked_copy(src: Seq<u8>, pos: int, remaining: int, bufsize: int) -> Seq<u8>
    decreases remaining,
{
    if remaining <= 0 || bufsize <= 0 {
        Seq::empty()
    } else {
        let chunk = if bufsize < remaining { bufsize } else { remaining };
        let got = read_at(src, pos, chunk);
        if got.len() == 0 {
            Seq::empty()
        } else {
            got + chunked_copy(src, pos + got.len(), remaining - got.len(), bufsize)
        }
    }
}

/// The progress of a bounded copy: how many bytes are still to be copied.
#[derive(Clone, Copy, Debug, PartialEq, Eq, Structural)]
pub struct CopyProgress {
    pub remaining: u64,
}

impl CopyProgress {
    /// A copy of `length` bytes that has not started.
    pub fn new(length: u64) -> (r: CopyProgress)
        ensures
            r.remaining == length,
    {
        CopyProgress { remaining: length }
    }

    /// Whether every requested byte has been copied.
    pub fn is_done(&self) -> (r: bool)
        ensures
            r == (self.remaining == 0),
    {
        self.remaining == 0
    }

    /// How many bytes the next read asks for: the smaller of the buffer's
    /// size and what remains.
    pub fn next_request(&self, bufsize: usize) -> (r: usize)
        ensures
            r as int == if (bufsize as int) < self.remaining as int {
                bufsize as int
            } else {
                self.remaining as int
            },
    {
        if (bufsize as u64) < self.remaining {
            bufsize
        } else {
            self.remaining as usize
        }
    }

    /// Records a read that returned `bytes_read` bytes, and says whether the
    /// copy goes on. A read of nothing is an early end of the input: the copy
    /// stops short, with no error. The count is lowered with saturation.
    pub fn record_read(&mut self, bytes_read: usize) -> (go_on: bool)
        ensures
            bytes_read == 0 ==> final(self).remaining == old(self).remaining && !go_on,
            bytes_read > 0 ==> final(self).remaining == (if bytes_read as int
                >= old(self).remaining as int {
                0
            } else {
                old(self).remaining - bytes_read
            }) && go_on == (final(self).remaining > 0),
    {
        if bytes_read == 0 {
            return false;
        }
        self.remaining = self.remaining.saturating_sub(bytes_read as u64);
        self.remaining > 0
    }
}

/// Appends to `out` what one read of at most `n` bytes at offset `pos` of
/// `src` returns, and gives their number.
fn read_into(src: &[u8], pos: u64, n: usize, out: &mut Vec<u8>) -> (r: usize)
    ensures
        final(out)@ == old(out)@ + read_at(src@, pos as int, n as int),
        r == read_at(src@, pos as int, n as int).len(),
{
    let len: usize = src.len();
    if pos >= len as u64 {
        proof {
            assert(read_at(src@, pos as int, n as int) =~= Seq::<u8>::empty());
            assert(out@ + Seq::<u8>::empty() =~= out@);
        }
        return 0;
    }
    let from: usize = pos as usize;
    let to: usize = if n < len - from {
        from + n
    } else {
        len
    };
    let mut k: usize = from;
    while k < to
        invariant
            from <= k <= to <= len,
            len == src@.len(),
            from == pos,
            out@ == old(out)@ + src@.subrange(from as int, k as int),
        decreases to - k,
    {
        out.push(src[k]);
        proof {
            assert(src@.subrange(from as int, k + 1) =~= src@.subrange(from as int, k as int).push(
                src@[k as int],
            ));
        }
        k = k + 1;
    }
    proof {
        assert(read_at(src@, pos as int, n as int) =~= src@.subrange(from as int, to as int));
    }
    to - from
}

/// Copies `length` bytes of `src` from offset `start` through a buffer of
/// `bufsize` bytes, as a streaming copy from a file does: the result holds
/// the bytes of `[start, start + length)`, fewer where `src` ends first, and
/// none with a buffer of no size.
pub fn copy_part(src: &[u8], start: u64, length: u64, bufsize: usize) -> (r: Vec<u8>)
    ensures
        r@ == chunked_copy(src@, start as int, length as int, bufsize as int),
        bufsize > 0 ==> r@ == read_at(src@, start as int, length as int),
        bufsize == 0 ==> r@.len() == 0,
{
    let mut out: Vec<u8> = Vec::new();
    let mut progress = CopyProgress::new(length);
    let mut pos: u64 = start;
    let src_len: usize = src.len();
    while !progress.is_done()
        invariant_except_break
            src_len == src@.len(),
            out@ + chunked_copy(src@, pos as int, progress.remaining as int, bufsize as int)
                == chunked_copy(src@, start as int, length as int, bufsize as int),
        ensures
            out@ == chunked_copy(src@, start as int, length as int, bufsize as int),
        decreases progress.remaining,
    {
        let ghost before = out@;
        let ghost rem = progress.remaining;
        let chunk = progress.next_request(bufsize);
        let got = read_into(src, pos, chunk, &mut out);
        let go_on = progress.record_read(got);
        if got == 0 {
            proof {
                assert(before + Seq::<u8>::empty() =~= before);
            }
            assert(out@ =~= before);
            break;
        }
        proof {
            assert(pos + got <= src@.len());
            let tail = chunked_copy(src@, pos + got, progress.remaining as int, bufsize as int);
            assert(before + (read_at(src@, pos as int, chunk as int) + tail) =~= out@ + tail);
        }
        pos = pos + got as u64;
        if !go_on {
            proof {
                assert(out@ + Seq::<u8>::empty() =~= out@);
            }
            break;
        }
    }
    proof {
        if bufsize > 0 {
            lemma_chunked_copy_window(src@, start as int, length as int, bufsize as int);
        }
    }
    out
}

/// The bytes of `src` in `[pos, pos + remaining)`, held to its length.
pub proof fn lemma_chunked_copy_window(src: Seq<u8>, pos: int, remaining: int, bufsize: int)
    requires
        bufsize > 0,
        pos >= 0,
        remaining >= 0,
    ensures
        chunked_copy(src, pos, remaining, bufsize) == read_at(src, pos, remaining),
    decreases remaining,
{
    if remaining > 0 {
        let chunk = if bufsize < remaining { bufsize } else { remaining };
        let got = read_at(src, pos, chunk);
        if got.len() > 0 {
            lemma_chunked_copy_window(src, pos + got.len(), remaining - got.len(), bufsize);
            assert(got + read_at(src, pos + got.len(), remaining - got.len()) =~= read_at(
                src,
                pos,
                remaining,
            ));
        } else {
            assert(read_at(src, pos, remaining) =~= Seq::<u8>::empty());
        }
    } else {
        assert(read_at(src, pos, remaining) =~= Seq::<u8>::empty());
    }
}

/// A bounded copy writes the same bytes whatever the buffer's size: the bytes
/// of the source from `pos` on, `remaining` of them or as many as there are.
pub proof fn lemma_copy_independent_of_buffer(
    src: Seq<u8>,
    pos: int,
    remaining: int,
    bufsize_a: int,
    bufsize_b: int,
)
    requires
        bufsize_a > 0,
        bufsize_b > 0,
        pos >= 0,
        remaining >= 0,
    ensures
        chunked_copy(src, pos, remaining, bufsize_a) == chunked_copy(src, pos, remaining, bufsize_b),
        chunked_copy(src, pos, remaining, bufsize_a) == read_at(src, pos, remaining),
{
    lemma_chunked_copy_window(src, pos, remaining, bufsize_a);
    lemma_chunked_copy_window(src, pos, remaining, bufsize_b);
}

} // verus!
