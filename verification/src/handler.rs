//! The request handler's decisions.
//!
//! Given the outcome of the file-system lookup for a resolved target,
//! the handler either answers with the not-found status line or with the
//! file's bytes exactly as read, with no framing around them; a log line
//! is produced for a served file and for nothing else.

use vstd::prelude::*;
use crate::logfmt::{
    clean_field, dec_digits, lemma_log_line_fields, line_has_fields, log_fields, log_line,
    log_line_now,
};

verus! {

/// The bytes of the not-found response: `HTTP/1.1 404 Not Found\r\n\r\n`.
pub open spec fn not_found_bytes() -> Seq<u8> {
    seq![
        72u8, 84, 84, 80, 47, 49, 46, 49, 32, 52, 48, 52, 32, 78, 111, 116, 32, 70, 111, 117, 110,
        100, 13, 10, 13, 10,
    ]
}

/// The view of an optional byte buffer.
pub open spec fn option_view(f: Option<Vec<u8>>) -> Option<Seq<u8>> {
    match f {
        Some(c) => Some(c@),
        None => None,
    }
}

/// What the client receives: the file's bytes themselves when the file
/// was found, the not-found status line when it was not.
pub open spec fn response_bytes(file: Option<Seq<u8>>) -> Seq<u8> {
    match file {
        Some(c) => c,
        None => not_found_bytes(),
    }
}

/// The not-found response, byte for byte.
pub fn not_found_response() -> (r: Vec<u8>)
    ensures
        r@ == not_found_bytes(),
{
    let mut out: Vec<u8> = Vec::new();
    out.push(72);
    out.push(84);
    out.push(84);
    out.push(80);
    out.push(47);
    out.push(49);
    out.push(46);
    out.push(49);
    out.push(32);
    out.push(52);
    out.push(48);
    out.push(52);
    out.push(32);
    out.push(78);
    out.push(111);
    out.push(116);
    out.push(32);
    out.push(70);
    out.push(111);
    out.push(117);
    out.push(110);
    out.push(100);
    out.push(13);
    out.push(10);
    out.push(13);
    out.push(10);
    assert(out@ =~= not_found_bytes());
    out
}

/// Build the response for a lookup outcome: the file's own bytes when it
/// exists, the not-found status line otherwise.
pub fn build_response(file: Option<Vec<u8>>) -> (r: Vec<u8>)
    ensures
        r@ == response_bytes(option_view(file)),
{
    match file {
        Some(c) => c,
        None => not_found_response(),
    }
}

/// Decide both halves of a finished request: the bytes to send back and
/// the log line to append.  A served file yields its own bytes and
/// exactly one log line carrying its base name and size; a missing file
/// yields the not-found response and no log line.
pub fn finish_request(
    file: Option<Vec<u8>>,
    name: &Vec<u8>,
    size: u64,
    end_nanos: u64,
    start_nanos: u64,
) -> (r: (Vec<u8>, Option<Vec<u8>>))
    ensures
        r.0@ == response_bytes(option_view(file)),
        match file {
            None => r.1 is None,
            Some(_) => match r.1 {
                Some(line) => exists|ts: Seq<u8>|
                    clean_field(ts) && line@ == log_line(
                        ts,
                        name@,
                        size as nat,
                        end_nanos as nat,
                        start_nanos as nat,
                    ),
                None => false,
            },
        },
{
    match file {
        Some(c) => {
            let line = log_line_now(name, size, end_nanos, start_nanos);
            (c, Some(line))
        },
        None => (not_found_response(), None),
    }
}

/// Law: requesting the same file twice yields identical response
/// bodies, and two well-shaped log lines that agree on the name and
/// size fields — only the timestamp and time fields may differ.
pub proof fn lemma_repeat_request(
    contents: Seq<u8>,
    name: Seq<u8>,
    size: nat,
    ts1: Seq<u8>,
    end1: nat,
    start1: nat,
    ts2: Seq<u8>,
    end2: nat,
    start2: nat,
)
    requires
        clean_field(name),
        clean_field(ts1),
        clean_field(ts2),
    ensures
        response_bytes(Some(contents)) == contents,
        line_has_fields(
            log_line(ts1, name, size, end1, start1),
            log_fields(ts1, name, size, end1, start1),
        ),
        line_has_fields(
            log_line(ts2, name, size, end2, start2),
            log_fields(ts2, name, size, end2, start2),
        ),
        log_fields(ts1, name, size, end1, start1)[1] == log_fields(
            ts2,
            name,
            size,
            end2,
            start2,
        )[1],
        log_fields(ts1, name, size, end1, start1)[2] == log_fields(
            ts2,
            name,
            size,
            end2,
            start2,
        )[2],
        log_fields(ts1, name, size, end1, start1)[1] == name,
        log_fields(ts1, name, size, end1, start1)[2] == dec_digits(size),
{
    lemma_log_line_fields(ts1, name, size, end1, start1);
    lemma_log_line_fields(ts2, name, size, end2, start2);
}

} // verus!
