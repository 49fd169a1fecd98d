use vstd::prelude::*;

verus! {

/// `marker` stands in `data` at byte offset `i`.
pub open spec fn occurs_at(data: Seq<u8>, marker: Seq<u8>, i: int) -> bool {
    &&& 0 <= i
    &&& i + marker.len() <= data.len()
    &&& data.subrange(i, i + marker.len()) == marker
}

/// `i` is the offset of the first occurrence of `marker` in `data`.
pub open spec fn is_first_occurrence(data: Seq<u8>, marker: Seq<u8>, i: int) -> bool {
    &&& occurs_at(data, marker, i)
    &&& forall|j: int| 0 <= j < i ==> !occurs_at(data, marker, j)
}

/// `marker` occurs somewhere in `data`.
pub open spec fn contains(data: Seq<u8>, marker: Seq<u8>) -> bool {
    exists|i: int| occurs_at(data, marker, i)
}

/// The offset of the first occurrence of `marker` in `data`; meaningful where
/// `marker` occurs there.
pub open spec fn first_offset(data: Seq<u8>, marker: Seq<u8>) -> int {
    choose|i: int| is_first_occurrence(data, marker, i)
}

/// A marker has one first occurrence.
pub proof fn lemma_first_occurrence_unique(data: Seq<u8>, marker: Seq<u8>, i: int)
    requires
        is_first_occurrence(data, marker, i),
    ensures
        first_offset(data, marker) == i,
{
    let j = first_offset(data, marker);
    assert(is_first_occurrence(data, marker, j));
    if j < i {
        assert(!occurs_at(data, marker, j));
    } else if i < j {
        assert(!occurs_at(data, marker, i));
    }
}

/// The signature that opens the embedded archive: `AFS2`.
pub open spec fn start_marker() -> Seq<u8> {
    seq![0x41u8, 0x46u8, 0x53u8, 0x32u8]
}

/// The signature that opens the metadata table after the archive: `@UTF`.
pub open spec fn end_marker() -> Seq<u8> {
    seq![0x40u8, 0x55u8, 0x54u8, 0x46u8]
}

fn matches_at(data: &[u8], marker: &[u8], i: usize) -> (r: bool)
    requires
        i + marker@.len() <= data@.len(),
    ensures
        r == occurs_at(data@, marker@, i as int),
{
    let n: usize = data.len();
    let mut k: usize = 0;
    while k < marker.len()
        invariant
            n == data@.len(),
            k <= marker@.len(),
            i + marker@.len() <= data@.len(),
            forall|t: int| 0 <= t < k ==> data@[i + t] == marker@[t],
        decreases marker@.len() - k,
    {
        if data[i + k] != marker[k] {
            proof {
                assert(data@.subrange(i as int, i + marker@.len())[k as int] != marker@[k as int]);
            }
            return false;
        }
        k = k + 1;
    }
    proof {
        assert(data@.subrange(i as int, i + marker@.len()) =~= marker@);
    }
    true
}

/// Offset of the first occurrence of `marker` in `data`, or `None` where it
/// does not occur. A marker longer than `data` never occurs.
pub fn find_marker(data: &[u8], marker: &[u8]) -> (r: Option<usize>)
    requires
        marker@.len() > 0,
    ensures
        match r {
            Some(i) => is_first_occurrence(data@, marker@, i as int),
            None => !contains(data@, marker@),
        },
{
    if marker.len() > data.len() {
        return None;
    }
    let last: usize = data.len() - marker.len();
    let mut i: usize = 0;
    while i <= last
        invariant
            last + marker@.len() == data@.len(),
            data@.len() <= usize::MAX,
            marker@.len() > 0,
            forall|j: int| 0 <= j < i ==> !occurs_at(data@, marker@, j),
        decreases last + 1 - i,
    {
        if matches_at(data, marker, i) {
            return Some(i);
        }
        i = i + 1;
    }
    None
}

/// Offset of the first `AFS2` in `data`, if any.
pub fn find_start_marker(data: &[u8]) -> (r: Option<usize>)
    ensures
        match r {
            Some(i) => is_first_occurrence(data@, start_marker(), i as int),
            None => !contains(data@, start_marker()),
        },
{
    let marker: [u8; 4] = [0x41, 0x46, 0x53, 0x32];
    proof {
        assert(marker@ =~= start_marker());
    }
    find_marker(data, &marker)
}

/// Offset of the first `@UTF` in `data`, if any.
pub fn find_end_marker(data: &[u8]) -> (r: Option<usize>)
    ensures
        match r {
            Some(i) => is_first_occurrence(data@, end_marker(), i as int),
            None => !contains(data@, end_marker()),
        },
{
    let marker: [u8; 4] = [0x40, 0x55, 0x54, 0x46];
    proof {
        assert(marker@ =~= end_marker());
    }
    find_marker(data, &marker)
}

} // verus!
