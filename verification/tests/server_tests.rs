use fileserve::handler::{build_response, finish_request, not_found_response};
use fileserve::lifecycle::Coordinator;
use fileserve::logfmt::{format_log_line, u64_digits};
use fileserve::parse::{base_name, extract_path, resolve_path};

fn bytes(s: &str) -> Vec<u8> {
    s.as_bytes().to_vec()
}

#[test]
fn request_line_yields_path() {
    let line = bytes("GET /index.html HTTP/1.1");
    let path = extract_path(&line).expect("line has two tokens");
    assert_eq!(path, bytes("/index.html"));
}

#[test]
fn request_line_missing_path_is_rejected() {
    assert!(extract_path(&bytes("GET")).is_none());
    assert!(extract_path(&bytes("")).is_none());
    assert!(extract_path(&bytes("   \t  ")).is_none());
}

#[test]
fn request_line_with_extra_whitespace() {
    let line = bytes("GET   /a.txt  HTTP/1.1\r\n");
    let path = extract_path(&line).expect("line has two tokens");
    assert_eq!(path, bytes("/a.txt"));
    let line2 = bytes("  GET /b ");
    assert_eq!(extract_path(&line2).unwrap(), bytes("/b"));
}

#[test]
fn resolving_drops_leading_delimiter() {
    assert_eq!(resolve_path(&bytes("/index.html")), bytes("index.html"));
    assert_eq!(resolve_path(&bytes("/a/b.txt")), bytes("a/b.txt"));
    assert_eq!(resolve_path(&bytes("/")), bytes(""));
    assert_eq!(resolve_path(&bytes("x")), bytes(""));
}

#[test]
fn base_name_is_suffix_after_last_slash() {
    assert_eq!(base_name(&bytes("index.html")), bytes("index.html"));
    assert_eq!(base_name(&bytes("a/b/c.txt")), bytes("c.txt"));
    assert_eq!(base_name(&bytes("dir/")), bytes(""));
    assert_eq!(base_name(&bytes("")), bytes(""));
}

#[test]
fn served_file_bytes_pass_through_unframed() {
    let contents = bytes("0123456789");
    let response = build_response(Some(contents.clone()));
    assert_eq!(response, contents);
}

#[test]
fn missing_file_gets_exact_not_found_line() {
    assert_eq!(
        build_response(None),
        bytes("HTTP/1.1 404 Not Found\r\n\r\n")
    );
    assert_eq!(not_found_response(), bytes("HTTP/1.1 404 Not Found\r\n\r\n"));
}

#[test]
fn missing_file_produces_no_log_line() {
    let name = bytes("missing.txt");
    let (response, log) = finish_request(None, &name, 0, 0, 0);
    assert_eq!(response, bytes("HTTP/1.1 404 Not Found\r\n\r\n"));
    assert!(log.is_none());
}

#[test]
fn served_file_produces_one_well_formed_log_line() {
    let contents = bytes("0123456789");
    let name = bytes("index.html");
    let (response, log) = finish_request(
        Some(contents.clone()),
        &name,
        10,
        1_760_000_000_000_000_000,
        1_760_000_000_000_000_000 - 2_000_000_000_000_000,
    );
    assert_eq!(response, contents);
    let line = log.expect("a served file is logged");
    assert_eq!(*line.last().unwrap(), b'\n');
    let body = &line[..line.len() - 1];
    assert!(!body.contains(&b'\n'));
    let fields: Vec<&[u8]> = body.split(|b| *b == b'\t').collect();
    assert_eq!(fields.len(), 5);
    assert_eq!(fields[0].first(), Some(&b'['));
    assert_eq!(fields[0].last(), Some(&b']'));
    assert_eq!(fields[1], bytes("index.html").as_slice());
    assert_eq!(fields[2], bytes("10").as_slice());
    assert_eq!(fields[3], bytes("0.1760").as_slice());
    assert_eq!(fields[4], bytes("0.0002").as_slice());
}

#[test]
fn log_line_format_is_exact() {
    let ts = bytes("2024-05-06 07:08:09");
    let name = bytes("index.html");
    let end: u64 = 1_760_000_000_000_000_000;
    let start: u64 = end - 2_000_000_000_000_000;
    let line = format_log_line(&ts, &name, 10, end, start);
    assert_eq!(
        line,
        bytes("[2024-05-06 07:08:09]\tindex.html\t10\t0.1760\t0.0002\n")
    );
}

#[test]
fn log_line_zero_times() {
    let ts = bytes("1970-01-01 00:00:00");
    let line = format_log_line(&ts, &bytes("a"), 0, 0, 0);
    assert_eq!(line, bytes("[1970-01-01 00:00:00]\ta\t0\t0.0000\t0.0000\n"));
}

#[test]
fn log_line_carries_integer_part() {
    let ts = bytes("t");
    let end: u64 = 10_000 * 1_000_000_000_000_000 - 500_000_000_000_000;
    let line = format_log_line(&ts, &bytes("f"), 1, end, end);
    assert_eq!(line, bytes("[t]\tf\t1\t1.0000\t0.0000\n"));
}

#[test]
fn log_line_clock_gone_backwards_counts_zero() {
    let ts = bytes("t");
    let line = format_log_line(&ts, &bytes("f"), 1, 5, 1_000_000_000_000_000_000);
    assert_eq!(line, bytes("[t]\tf\t1\t0.0000\t0.0000\n"));
}

#[test]
fn decimal_digits_are_exact() {
    assert_eq!(u64_digits(0), bytes("0"));
    assert_eq!(u64_digits(7), bytes("7"));
    assert_eq!(u64_digits(10), bytes("10"));
    assert_eq!(u64_digits(1_234_567_890), bytes("1234567890"));
    assert_eq!(u64_digits(u64::MAX), bytes("18446744073709551615"));
}

#[test]
fn repeated_request_same_body_and_fields() {
    let contents = bytes("payload");
    let first = build_response(Some(contents.clone()));
    let second = build_response(Some(contents.clone()));
    assert_eq!(first, second);
    let l1 = format_log_line(&bytes("2024-01-01 00:00:01"), &bytes("f.txt"), 7, 100, 50);
    let l2 = format_log_line(&bytes("2024-01-01 00:00:02"), &bytes("f.txt"), 7, 300, 200);
    let f1: Vec<&[u8]> = l1[..l1.len() - 1].split(|b| *b == b'\t').collect();
    let f2: Vec<&[u8]> = l2[..l2.len() - 1].split(|b| *b == b'\t').collect();
    assert_eq!(f1[1], f2[1]);
    assert_eq!(f1[2], f2[2]);
    assert_ne!(f1[0], f2[0]);
}

#[test]
fn appended_log_lines_read_back_unmerged() {
    let l1 = format_log_line(&bytes("2024-01-01 00:00:01"), &bytes("a.txt"), 1, 100, 50);
    let l2 = format_log_line(&bytes("2024-01-01 00:00:02"), &bytes("b.txt"), 2, 200, 100);
    let l3 = format_log_line(&bytes("2024-01-01 00:00:03"), &bytes("c.txt"), 3, 300, 150);
    let mut log: Vec<u8> = Vec::new();
    log.extend_from_slice(&l1);
    log.extend_from_slice(&l2);
    log.extend_from_slice(&l3);
    let recovered: Vec<Vec<u8>> = log
        .split_inclusive(|b| *b == b'\n')
        .map(|piece| piece.to_vec())
        .collect();
    assert_eq!(recovered, vec![l1, l2, l3]);
}

#[test]
fn coordinator_drains_before_exit() {
    let mut c = Coordinator::new();
    assert!(!c.may_exit());
    c.register();
    c.register();
    c.register();
    assert!(!c.may_exit());
    c.signal();
    assert!(!c.may_exit());
    c.worker_done();
    c.worker_done();
    assert!(!c.may_exit());
    c.worker_done();
    assert!(c.may_exit());
}

#[test]
fn coordinator_waits_for_pre_signal_workers() {
    let mut c = Coordinator::new();
    c.register();
    c.signal();
    c.register();
    c.worker_done();
    assert!(!c.may_exit());
    c.worker_done();
    assert!(c.may_exit());
}
