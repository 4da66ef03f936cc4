use tracing_samply::marker::{format_marker_line, marker_file_name};

#[test]
fn marker_line_has_start_end_and_name() {
    assert_eq!(format_marker_line(12, 345, b"info_span"), b"12 345 info_span\n".to_vec());
}

#[test]
fn marker_line_with_zero_and_largest_timestamps() {
    assert_eq!(
        format_marker_line(0, u64::MAX, b"x"),
        b"0 18446744073709551615 x\n".to_vec()
    );
}

#[test]
fn marker_line_digits_carry_across_tens() {
    assert_eq!(format_marker_line(9, 10, b"a b"), b"9 10 a b\n".to_vec());
    assert_eq!(format_marker_line(100, 1000, b"s"), b"100 1000 s\n".to_vec());
}

#[test]
fn marker_file_name_of_thread() {
    assert_eq!(marker_file_name(42, Some(7)), b"marker-42-7.txt".to_vec());
}

#[test]
fn marker_file_name_without_thread() {
    assert_eq!(marker_file_name(42, None), b"marker-42.txt".to_vec());
}

#[test]
fn marker_file_names_of_two_threads_differ() {
    let a = marker_file_name(1234, Some(1235));
    let b = marker_file_name(1234, Some(1236));
    assert_ne!(a, b);
    assert_eq!(a, b"marker-1234-1235.txt".to_vec());
    assert_eq!(b, b"marker-1234-1236.txt".to_vec());
}

fn is_format_line(line: &[u8]) -> bool {
    // ^\d+ \d+ \S.*\n$
    let n = line.len();
    if n == 0 || line[n - 1] != b'\n' {
        return false;
    }
    let body = &line[..n - 1];
    if body.contains(&b'\n') {
        return false;
    }
    let mut parts = body.splitn(3, |c| *c == b' ');
    let a = parts.next().unwrap_or(b"");
    let b = parts.next().unwrap_or(b"");
    let rest = match parts.next() {
        Some(r) => r,
        None => return false,
    };
    !a.is_empty()
        && a.iter().all(|c| c.is_ascii_digit())
        && !b.is_empty()
        && b.iter().all(|c| c.is_ascii_digit())
        && !rest.is_empty()
        && !rest[0].is_ascii_whitespace()
}

#[test]
fn marker_lines_match_the_line_format() {
    let mut contents: Vec<u8> = Vec::new();
    let records: [(u64, u64, &[u8]); 3] = [(1, 2, b"a"), (30, 30, b"other span"), (7, 900, b"z")];
    for (s, e, name) in records {
        let line = format_marker_line(s, e, name);
        assert!(is_format_line(&line));
        contents.extend_from_slice(&line);
    }
    assert_eq!(contents.iter().filter(|c| **c == b'\n').count(), 3);
    assert_eq!(contents.last(), Some(&b'\n'));
}
