use vstd::prelude::*;
use crate::copy::{chunked_copy, copy_part, lemma_chunked_copy_window, read_at, COPY_BUFFER_SIZE};
use crate::markers::{
    contains, end_marker, find_end_marker, find_start_marker, first_offset, is_first_occurrence,
    lemma_first_occurrence_unique, occurs_at, start_marker,
};

verus! {

/// Number of bytes copied for markers found at `start` and `end`. An end
/// marker that comes before the start marker gives an empty span.
pub open spec fn span_length(start: int, end: int) -> int {
    if end >= start {
        end - start
    } else {
        0
    }
}

/// The bytes extracted from `data` for markers found at `start` and `end`.
pub open spec fn extracted(data: Seq<u8>, start: int, end: int) -> Seq<u8> {
    data.subrange(start, start + span_length(start, end))
}

/// Where the embedded archive lies in one input file: the offsets of the
/// first start marker and of the first end marker.
#[derive(Clone, Copy, Debug, PartialEq, Eq, Structural)]
pub struct ExtractionSpan {
    pub start: u64,
    pub end: u64,
}

impl ExtractionSpan {
    /// Number of bytes to copy from `start`: `end - start`, or zero where the
    /// end marker comes first.
    pub fn length(&self) -> (r: u64)
        ensures
            r == span_length(self.start as int, self.end as int),
    {
        if self.end >= self.start {
            self.end - self.start
        } else {
            0
        }
    }
}

/// The span of `data` that holds the embedded archive, or `None` where
/// either marker is missing (such a file is no candidate, and nothing is
/// extracted from it).
pub fn plan_extraction(data: &[u8]) -> (r: Option<ExtractionSpan>)
    ensures
        r is None <==> (!contains(data@, start_marker()) || !contains(data@, end_marker())),
        r matches Some(sp) ==> is_first_occurrence(data@, start_marker(), sp.start as int)
            && is_first_occurrence(data@, end_marker(), sp.end as int) && sp.start == first_offset(
            data@,
            start_marker(),
        ) && sp.end == first_offset(data@, end_marker()),
{
    let start = match find_start_marker(data) {
        Some(i) => i,
        None => return None,
    };
    let end = match find_end_marker(data) {
        Some(i) => i,
        None => {
            proof {
                assert(contains(data@, start_marker())) by {
                    assert(occurs_at(data@, start_marker(), start as int));
                }
            }
            return None;
        }
    };
    proof {
        assert(occurs_at(data@, start_marker(), start as int));
        assert(occurs_at(data@, end_marker(), end as int));
        lemma_first_occurrence_unique(data@, start_marker(), start as int);
        lemma_first_occurrence_unique(data@, end_marker(), end as int);
    }
    Some(ExtractionSpan { start: start as u64, end: end as u64 })
}

/// The archive embedded in `data`: the bytes from the first start marker up
/// to the first end marker, copied through a buffer of `COPY_BUFFER_SIZE`
/// bytes. Empty where the end marker comes first; `None` where either marker
/// is missing.
pub fn extract_archive(data: &[u8]) -> (r: Option<Vec<u8>>)
    ensures
        r is None <==> (!contains(data@, start_marker()) || !contains(data@, end_marker())),
        r matches Some(bytes) ==> bytes@ == extracted(
            data@,
            first_offset(data@, start_marker()),
            first_offset(data@, end_marker()),
        ),
{
    match plan_extraction(data) {
        None => None,
        Some(sp) => {
            let bytes = copy_part(data, sp.start, sp.length(), COPY_BUFFER_SIZE);
            proof {
                assert(occurs_at(data@, end_marker(), sp.end as int));
                assert(bytes@ =~= extracted(data@, sp.start as int, sp.end as int));
            }
            Some(bytes)
        },
    }
}

/// For markers found at `start` and at a later `end`, a bounded copy of
/// `end - start` bytes from `start` writes exactly the bytes of
/// `[start, end)`, whatever the buffer's size.
pub proof fn lemma_exact_span(data: Seq<u8>, start: int, end: int, bufsize: int)
    requires
        is_first_occurrence(data, start_marker(), start),
        is_first_occurrence(data, end_marker(), end),
        start < end,
        bufsize > 0,
    ensures
        chunked_copy(data, start, end - start, bufsize) == data.subrange(start, end),
        extracted(data, start, end) == data.subrange(start, end),
{
    lemma_chunked_copy_window(data, start, end - start, bufsize);
    assert(occurs_at(data, end_marker(), end));
    assert(read_at(data, start, end - start) =~= data.subrange(start, end));
}

/// An end marker found before the start marker gives an empty extraction,
/// whatever the buffer's size.
pub proof fn lemma_backwards_span_is_empty(data: Seq<u8>, start: int, end: int, bufsize: int)
    requires
        is_first_occurrence(data, start_marker(), start),
        is_first_occurrence(data, end_marker(), end),
        end < start,
    ensures
        span_length(start, end) == 0,
        extracted(data, start, end) == Seq::<u8>::empty(),
        chunked_copy(data, start, span_length(start, end), bufsize) == Seq::<u8>::empty(),
{
    assert(extracted(data, start, end) =~= Seq::<u8>::empty());
}

} // verus!
