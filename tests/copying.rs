use awb_extract::{copy_part, CopyProgress, COPY_BUFFER_SIZE};

fn sample(len: usize) -> Vec<u8> {
    (0..len).map(|i| (i * 7 % 256) as u8).collect()
}

#[test]
fn copy_buffer_is_one_mebibyte() {
    assert_eq!(COPY_BUFFER_SIZE, 1024 * 1024);
}

#[test]
fn copy_is_independent_of_buffer_size() {
    let src = sample(1000);
    let expected = src[100..900].to_vec();
    for bufsize in [1usize, 3, 7, 64, 799, 800, 801, 4096, COPY_BUFFER_SIZE] {
        assert_eq!(copy_part(&src, 100, 800, bufsize), expected);
    }
}

#[test]
fn copy_stops_short_at_end_of_input() {
    let src = sample(100);
    assert_eq!(copy_part(&src, 60, 1000, 16), src[60..].to_vec());
}

#[test]
fn copy_from_past_the_end_is_empty() {
    let src = sample(100);
    assert_eq!(copy_part(&src, 100, 10, 16), Vec::<u8>::new());
    assert_eq!(copy_part(&src, 5000, 10, 16), Vec::<u8>::new());
}

#[test]
fn copy_of_nothing_is_empty() {
    let src = sample(100);
    assert_eq!(copy_part(&src, 10, 0, 16), Vec::<u8>::new());
}

#[test]
fn copy_with_no_buffer_is_empty() {
    let src = sample(100);
    assert_eq!(copy_part(&src, 10, 20, 0), Vec::<u8>::new());
}

#[test]
fn progress_requests_smaller_of_buffer_and_remaining() {
    let p = CopyProgress::new(10);
    assert_eq!(p.next_request(4), 4);
    assert_eq!(p.next_request(10), 10);
    assert_eq!(p.next_request(64), 10);
    let big = CopyProgress::new(u64::MAX);
    assert_eq!(big.next_request(COPY_BUFFER_SIZE), COPY_BUFFER_SIZE);
}

#[test]
fn progress_counts_down_and_finishes() {
    let mut p = CopyProgress::new(10);
    assert!(!p.is_done());
    assert!(p.record_read(4));
    assert_eq!(p.remaining, 6);
    assert!(!p.record_read(6));
    assert_eq!(p.remaining, 0);
    assert!(p.is_done());
}

#[test]
fn progress_saturates_on_overlong_read() {
    let mut p = CopyProgress::new(3);
    assert!(!p.record_read(8));
    assert_eq!(p.remaining, 0);
}

#[test]
fn progress_stops_on_empty_read() {
    let mut p = CopyProgress::new(10);
    assert!(!p.record_read(0));
    assert_eq!(p.remaining, 10);
    assert!(!p.is_done());
}
