use awb_extract::{
    extract_archive, find_end_marker, find_marker, find_start_marker, plan_extraction,
    ExtractionSpan,
};

fn file_with_markers(len: usize, start: Option<usize>, end: Option<usize>) -> Vec<u8> {
    let mut data: Vec<u8> = (0..len).map(|i| (i % 251) as u8 & 0x1f).collect();
    if let Some(s) = start {
        data[s..s + 4].copy_from_slice(b"AFS2");
    }
    if let Some(e) = end {
        data[e..e + 4].copy_from_slice(b"@UTF");
    }
    data
}

#[test]
fn find_marker_gives_first_occurrence() {
    let data = b"xxABCyyABCzz";
    assert_eq!(find_marker(data, b"ABC"), Some(2));
    assert_eq!(find_marker(data, b"ABD"), None);
}

#[test]
fn find_marker_at_both_ends() {
    assert_eq!(find_marker(b"AFS2tail", b"AFS2"), Some(0));
    assert_eq!(find_marker(b"headAFS2", b"AFS2"), Some(4));
}

#[test]
fn find_marker_longer_than_data() {
    assert_eq!(find_marker(b"AF", b"AFS2"), None);
    assert_eq!(find_marker(b"", b"AFS2"), None);
}

#[test]
fn start_and_end_markers_found() {
    let data = b"..AFS2....@UTF..AFS2";
    assert_eq!(find_start_marker(data), Some(2));
    assert_eq!(find_end_marker(data), Some(10));
}

#[test]
fn markers_are_case_sensitive() {
    assert_eq!(find_start_marker(b"afs2 @utf"), None);
    assert_eq!(find_end_marker(b"afs2 @utf"), None);
}

#[test]
fn no_start_marker_extracts_nothing() {
    let data = file_with_markers(1000, None, Some(500));
    assert_eq!(plan_extraction(&data), None);
    assert_eq!(extract_archive(&data), None);
}

#[test]
fn empty_file_extracts_nothing() {
    assert_eq!(plan_extraction(&[]), None);
    assert_eq!(extract_archive(&[]), None);
}

#[test]
fn no_end_marker_extracts_nothing() {
    let data = file_with_markers(1000, Some(10), None);
    assert_eq!(plan_extraction(&data), None);
    assert_eq!(extract_archive(&data), None);
}

#[test]
fn span_of_ten_kilobyte_file() {
    let data = file_with_markers(10 * 1024, Some(100), Some(5000));
    let span = plan_extraction(&data).unwrap();
    assert_eq!(span, ExtractionSpan { start: 100, end: 5000 });
    assert_eq!(span.length(), 4900);
    let bytes = extract_archive(&data).unwrap();
    assert_eq!(bytes.len(), 4900);
    assert_eq!(&bytes[..], &data[100..5000]);
    assert_eq!(&bytes[..4], b"AFS2");
}

#[test]
fn only_first_markers_count() {
    let mut data = file_with_markers(300, Some(20), Some(100));
    data[150..154].copy_from_slice(b"AFS2");
    data[200..204].copy_from_slice(b"@UTF");
    assert_eq!(plan_extraction(&data), Some(ExtractionSpan { start: 20, end: 100 }));
    assert_eq!(extract_archive(&data).unwrap(), data[20..100].to_vec());
}

#[test]
fn adjacent_markers_give_four_bytes() {
    let data = b"AFS2@UTF".to_vec();
    assert_eq!(extract_archive(&data).unwrap(), b"AFS2".to_vec());
}

#[test]
fn backwards_span_gives_empty_archive() {
    let data = file_with_markers(400, Some(300), Some(50));
    let span = plan_extraction(&data).unwrap();
    assert_eq!(span, ExtractionSpan { start: 300, end: 50 });
    assert_eq!(span.length(), 0);
    assert_eq!(extract_archive(&data), Some(Vec::new()));
}

#[test]
fn extraction_twice_is_identical() {
    let data = file_with_markers(2048, Some(7), Some(1500));
    let first = extract_archive(&data).unwrap();
    let second = extract_archive(&data).unwrap();
    assert_eq!(first, second);
    assert_eq!(first, data[7..1500].to_vec());
}

#[test]
fn span_larger_than_copy_buffer() {
    let len = 3 * 1024 * 1024;
    let data = file_with_markers(len, Some(1), Some(len - 4));
    let bytes = extract_archive(&data).unwrap();
    assert_eq!(bytes.len(), len - 5);
    assert_eq!(&bytes[..], &data[1..len - 4]);
}
