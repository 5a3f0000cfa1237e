//! Parsing of the request line.
//!
//! A request is a single line of bytes; its whitespace-delimited tokens
//! are `METHOD PATH ...`, and only the second token (the path) is
//! consumed.  The path is then resolved to a file-system target by
//! dropping its leading delimiter byte, and the base name of a target is
//! the part after its last `/`.

use vstd::prelude::*;

verus! {

/// The bytes treated as whitespace when the request line is split into
/// tokens: space, tab, carriage return and line feed.
pub open spec fn is_ws(b: u8) -> bool {
    b == 32 || b == 9 || b == 13 || b == 10
}

/// Index of the first non-whitespace byte at or after `i`, or `s.len()`
/// if every byte from `i` on is whitespace.
pub open spec fn skip_ws_from(s: Seq<u8>, i: int) -> int
    decreases s.len() - i,
{
    if i < 0 || i >= s.len() || !is_ws(s[i]) {
        i
    } else {
        skip_ws_from(s, i + 1)
    }
}

/// Index just past the token that starts at `i`: the first index at or
/// after `i` holding whitespace, or `s.len()` if none does.
pub open spec fn token_end_from(s: Seq<u8>, i: int) -> int
    decreases s.len() - i,
{
    if i < 0 || i >= s.len() || is_ws(s[i]) {
        i
    } else {
        token_end_from(s, i + 1)
    }
}

/// Start of the second whitespace-delimited token of `s`, or `s.len()`
/// if `s` has fewer than two tokens.
pub open spec fn path_start(s: Seq<u8>) -> int {
    skip_ws_from(s, token_end_from(s, skip_ws_from(s, 0)))
}

/// End of the second whitespace-delimited token of `s`.
pub open spec fn path_end(s: Seq<u8>) -> int {
    token_end_from(s, path_start(s))
}

/// Whether `s` has a second whitespace-delimited token, i.e. whether a
/// path can be extracted from the request line.
pub open spec fn has_path(s: Seq<u8>) -> bool {
    path_start(s) < s.len()
}

/// The second whitespace-delimited token of `s`: the requested path.
pub open spec fn path_token(s: Seq<u8>) -> Seq<u8> {
    s.subrange(path_start(s), path_end(s))
}

proof fn lemma_skip_ws_bounds(s: Seq<u8>, i: int)
    requires
        0 <= i <= s.len(),
    ensures
        i <= skip_ws_from(s, i) <= s.len(),
    decreases s.len() - i,
{
    if i < s.len() && is_ws(s[i]) {
        lemma_skip_ws_bounds(s, i + 1);
    }
}

proof fn lemma_token_end_bounds(s: Seq<u8>, i: int)
    requires
        0 <= i <= s.len(),
    ensures
        i <= token_end_from(s, i) <= s.len(),
    decreases s.len() - i,
{
    if i < s.len() && !is_ws(s[i]) {
        lemma_token_end_bounds(s, i + 1);
    }
}

proof fn lemma_skip_ws_stops(s: Seq<u8>, i: int)
    requires
        0 <= i <= s.len(),
    ensures
        skip_ws_from(s, i) < s.len() ==> !is_ws(s[skip_ws_from(s, i)]),
    decreases s.len() - i,
{
    if i < s.len() && is_ws(s[i]) {
        lemma_skip_ws_stops(s, i + 1);
    }
}

/// The token boundaries of the second token are well placed, and when a
/// path exists it is non-empty.
pub proof fn lemma_path_bounds(s: Seq<u8>)
    ensures
        0 <= path_start(s) <= path_end(s) <= s.len(),
        has_path(s) ==> path_start(s) < path_end(s),
        has_path(s) ==> path_token(s).len() >= 1,
{
    lemma_skip_ws_bounds(s, 0);
    lemma_token_end_bounds(s, skip_ws_from(s, 0));
    lemma_skip_ws_bounds(s, token_end_from(s, skip_ws_from(s, 0)));
    lemma_token_end_bounds(s, path_start(s));
    if has_path(s) {
        lemma_skip_ws_stops(s, token_end_from(s, skip_ws_from(s, 0)));
        assert(!is_ws(s[path_start(s)]));
        assert(token_end_from(s, path_start(s)) >= path_start(s) + 1) by {
            assert(token_end_from(s, path_start(s)) == token_end_from(s, path_start(s) + 1));
            lemma_token_end_bounds(s, path_start(s) + 1);
        }
    }
}

/// The file-system target of a requested path: the path with its single
/// leading delimiter byte dropped.
pub open spec fn resolved_target(path: Seq<u8>) -> Seq<u8> {
    path.skip(1)
}

/// Index just after the last `/` of `s` when scanning down from `i`, or
/// `0` if no `/` stands below `i`.
pub open spec fn after_last_slash(s: Seq<u8>, i: int) -> int
    decreases i,
{
    if i <= 0 || i > s.len() {
        0
    } else if s[i - 1] == 47 {
        i
    } else {
        after_last_slash(s, i - 1)
    }
}

/// The base name of a path: the part after its last `/`, or the whole
/// path if it holds none.
pub open spec fn base_name_of(s: Seq<u8>) -> Seq<u8> {
    s.skip(after_last_slash(s, s.len() as int))
}

fn is_ws_byte(b: u8) -> (r: bool)
    ensures
        r == is_ws(b),
{
    b == 32 || b == 9 || b == 13 || b == 10
}

/// Extract the requested path from a request line: the second
/// whitespace-delimited token.  Returns `None` exactly when the line
/// holds fewer than two tokens (the undefined-request-format case).
pub fn extract_path(line: &Vec<u8>) -> (r: Option<Vec<u8>>)
    ensures
        match r {
            Some(p) => has_path(line@) && p@ == path_token(line@) && p@.len() >= 1,
            None => !has_path(line@),
        },
{
    proof {
        lemma_path_bounds(line@);
    }
    let n = line.len();
    let mut i: usize = 0;
    while i < n && is_ws_byte(line[i])
        invariant
            0 <= i <= n,
            n == line@.len(),
            skip_ws_from(line@, 0) == skip_ws_from(line@, i as int),
        decreases n - i,
    {
        i = i + 1;
    }
    assert(skip_ws_from(line@, 0) == i as int);
    while i < n && !is_ws_byte(line[i])
        invariant
            0 <= i <= n,
            n == line@.len(),
            token_end_from(line@, skip_ws_from(line@, 0)) == token_end_from(line@, i as int),
        decreases n - i,
    {
        i = i + 1;
    }
    assert(token_end_from(line@, skip_ws_from(line@, 0)) == i as int);
    while i < n && is_ws_byte(line[i])
        invariant
            0 <= i <= n,
            n == line@.len(),
            path_start(line@) == skip_ws_from(line@, i as int),
        decreases n - i,
    {
        i = i + 1;
    }
    assert(path_start(line@) == i as int);
    if i >= n {
        return None;
    }
    let start = i;
    while i < n && !is_ws_byte(line[i])
        invariant
            start <= i <= n,
            n == line@.len(),
            path_end(line@) == token_end_from(line@, i as int),
            start as int == path_start(line@),
        decreases n - i,
    {
        i = i + 1;
    }
    assert(path_end(line@) == i as int);
    let mut out: Vec<u8> = Vec::new();
    let mut j: usize = start;
    while j < i
        invariant
            start <= j <= i <= n,
            n == line@.len(),
            out@ == line@.subrange(start as int, j as int),
        decreases i - j,
    {
        let b = line[j];
        out.push(b);
        assert(line@.subrange(start as int, j + 1 as int) =~= line@.subrange(
            start as int,
            j as int,
        ).push(b));
        j = j + 1;
    }
    assert(out@ == path_token(line@));
    Some(out)
}

/// Resolve a requested path to its file-system target by dropping the
/// leading delimiter byte.
pub fn resolve_path(path: &Vec<u8>) -> (r: Vec<u8>)
    requires
        path@.len() >= 1,
    ensures
        r@ == resolved_target(path@),
{
    let n = path.len();
    let mut out: Vec<u8> = Vec::new();
    let mut j: usize = 1;
    while j < n
        invariant
            1 <= j <= n,
            n == path@.len(),
            out@ == path@.subrange(1, j as int),
        decreases n - j,
    {
        let b = path[j];
        out.push(b);
        assert(path@.subrange(1, j + 1 as int) =~= path@.subrange(1, j as int).push(b));
        j = j + 1;
    }
    assert(out@ =~= path@.skip(1));
    out
}

/// The base name of a target path: the part after its last `/`.
pub fn base_name(path: &Vec<u8>) -> (r: Vec<u8>)
    ensures
        r@ == base_name_of(path@),
{
    let n = path.len();
    let mut i: usize = n;
    while i > 0 && path[i - 1] != 47
        invariant
            0 <= i <= n,
            n == path@.len(),
            after_last_slash(path@, n as int) == after_last_slash(path@, i as int),
        decreases i,
    {
        i = i - 1;
    }
    assert(after_last_slash(path@, n as int) == i as int);
    let mut out: Vec<u8> = Vec::new();
    let mut j: usize = i;
    while j < n
        invariant
            i <= j <= n,
            n == path@.len(),
            out@ == path@.subrange(i as int, j as int),
        decreases n - j,
    {
        let b = path[j];
        out.push(b);
        assert(path@.subrange(i as int, j + 1 as int) =~= path@.subrange(i as int, j as int).push(
            b,
        ));
        j = j + 1;
    }
    assert(out@ =~= base_name_of(path@));
    out
}

} // verus!
