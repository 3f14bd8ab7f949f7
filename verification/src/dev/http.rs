//! The development viewer's HTTP requests and responses as bytes: where a request's headers
//! end, what its head says, and the head of a response.
use vstd::prelude::*;
use vstd::string::StringSliceAdditionalSpecFns;

use crate::dev::protocol::BROWSER_INPUT_MAX_BYTES;
use crate::dev::server::{parse_u64, parse_u64_spec, HTTP_HEADER_MAX_BYTES};
use crate::text::{decimal, extend_bytes, owned, push_decimal};
use vstd::utf8::valid_utf8;

verus! {

// ---------------------------------------------------------------------------------------------
// The end of the headers

/// Whether the blank line `\r\n\r\n` starts at `q`.
pub open spec fn blank_line_at(b: Seq<u8>, q: int) -> bool {
    0 <= q && q + 4 <= b.len() && b[q] == 13 && b[q + 1] == 10 && b[q + 2] == 13 && b[q + 3] == 10
}

/// The first position at or after `i` where a blank line starts.
pub open spec fn first_blank_line(b: Seq<u8>, i: int) -> Option<int>
    decreases b.len() - i,
{
    if i < 0 || i + 4 > b.len() {
        None
    } else if blank_line_at(b, i) {
        Some(i)
    } else {
        first_blank_line(b, i + 1)
    }
}

/// Where a request's headers end: just after the first blank line, if there is one.
pub open spec fn headers_end(b: Seq<u8>) -> Option<int> {
    match first_blank_line(b, 0) {
        Some(q) => Some(q + 4),
        None => None,
    }
}

/// Where a request's headers end, as `headers_end` says.
pub fn header_end(request: &[u8]) -> (end: Option<usize>)
    ensures
        match (end, headers_end(request@)) {
            (Some(e), Some(s)) => e == s,
            (None, None) => true,
            _ => false,
        },
{
    let mut i: usize = 0;
    while i < request.len() && request.len() - i >= 4
        invariant
            i <= request@.len(),
            first_blank_line(request@, 0) == first_blank_line(request@, i as int),
        decreases request.len() - i,
    {
        if request[i] == 13 && request[i + 1] == 10 && request[i + 2] == 13 && request[i + 3] == 10 {
            return Some(i + 4);
        }
        i += 1;
    }
    None
}

// ---------------------------------------------------------------------------------------------
// Whitespace, words and lines

/// The length of the whitespace character (as `char::is_whitespace` says) whose UTF-8 encoding
/// starts at `i`, or 0 where none does.
pub open spec fn whitespace_len(b: Seq<u8>, i: int) -> int {
    if i < 0 || i >= b.len() {
        0
    } else if (9 <= b[i] && b[i] <= 13) || b[i] == 32 {
        1
    } else if b[i] == 0xC2 && i + 1 < b.len() && (b[i + 1] == 0x85 || b[i + 1] == 0xA0) {
        2
    } else if i + 2 < b.len() && ((b[i] == 0xE1 && b[i + 1] == 0x9A && b[i + 2] == 0x80) || (b[i] == 0xE2
        && b[i + 1] == 0x80 && ((0x80 <= b[i + 2] && b[i + 2] <= 0x8A) || b[i + 2] == 0xA8 || b[i + 2] == 0xA9
        || b[i + 2] == 0xAF)) || (b[i] == 0xE2 && b[i + 1] == 0x81 && b[i + 2] == 0x9F) || (b[i] == 0xE3
        && b[i + 1] == 0x80 && b[i + 2] == 0x80)) {
        3
    } else {
        0
    }
}

/// The length of a whitespace character whose encoding ends just before `j`, or 0.
pub open spec fn whitespace_before(b: Seq<u8>, j: int) -> int {
    if j >= 1 && j <= b.len() && whitespace_len(b, j - 1) == 1 {
        1
    } else if j >= 2 && j <= b.len() && whitespace_len(b, j - 2) == 2 {
        2
    } else if j >= 3 && j <= b.len() && whitespace_len(b, j - 3) == 3 {
        3
    } else {
        0
    }
}

/// The first position at or after `i` that does not start whitespace.
pub open spec fn skip_whitespace(b: Seq<u8>, i: int) -> int
    decreases b.len() - i,
{
    if 0 <= i < b.len() && whitespace_len(b, i) > 0 {
        skip_whitespace(b, i + whitespace_len(b, i))
    } else {
        i
    }
}

/// The first position at or after `i` that starts whitespace, or the end.
pub open spec fn word_end(b: Seq<u8>, i: int) -> int
    decreases b.len() - i,
{
    if 0 <= i < b.len() && whitespace_len(b, i) == 0 {
        word_end(b, i + 1)
    } else {
        i
    }
}

/// The last position at or before `j`, and not before `lo`, after which only whitespace follows
/// up to `j`.
pub open spec fn trim_end(b: Seq<u8>, lo: int, j: int) -> int
    decreases j,
{
    if j > lo && whitespace_before(b, j) > 0 && j - whitespace_before(b, j) >= lo {
        trim_end(b, lo, j - whitespace_before(b, j))
    } else {
        j
    }
}

/// `b` without leading and trailing whitespace.
pub open spec fn trimmed(b: Seq<u8>) -> Seq<u8> {
    let start = skip_whitespace(b, 0);
    b.subrange(start, trim_end(b, start, b.len() as int))
}

/// The first and second whitespace-separated words of a line, as far as there are any.
pub open spec fn words(line: Seq<u8>) -> (Option<Seq<u8>>, Option<Seq<u8>>) {
    let s1 = skip_whitespace(line, 0);
    if s1 >= line.len() {
        (None, None)
    } else {
        let e1 = word_end(line, s1);
        let s2 = skip_whitespace(line, e1);
        if s2 >= line.len() {
            (Some(line.subrange(s1, e1)), None)
        } else {
            (Some(line.subrange(s1, e1)), Some(line.subrange(s2, word_end(line, s2))))
        }
    }
}

/// The first newline at or after `i`, or the end.
pub open spec fn newline_at_or_after(b: Seq<u8>, i: int) -> int
    decreases b.len() - i,
{
    if 0 <= i < b.len() && b[i] != 10 {
        newline_at_or_after(b, i + 1)
    } else {
        i
    }
}

/// The lines from `i` on, as `str::lines` gives them: split after each newline, a newline and a
/// carriage return just before it dropped, with no empty line after a final newline.
pub open spec fn lines_from(b: Seq<u8>, i: int) -> Seq<Seq<u8>>
    decreases b.len() - i,
{
    if i < 0 || i >= b.len() {
        seq![]
    } else {
        let n = newline_at_or_after(b, i);
        let line = if n < b.len() && n > i && b[n - 1] == 13 {
            b.subrange(i, n - 1)
        } else {
            b.subrange(i, n)
        };
        proof {
            lemma_newline_bounds(b, i);
        }
        if n >= b.len() {
            seq![line]
        } else {
            seq![line] + lines_from(b, n + 1)
        }
    }
}

pub proof fn lemma_newline_bounds(b: Seq<u8>, i: int)
    requires
        0 <= i <= b.len(),
    ensures
        i <= newline_at_or_after(b, i) <= b.len(),
        newline_at_or_after(b, i) < b.len() ==> b[newline_at_or_after(b, i)] == 10,
        forall|k: int| i <= k < newline_at_or_after(b, i) ==> b[k] != 10,
    decreases b.len() - i,
{
    if i < b.len() && b[i] != 10 {
        lemma_newline_bounds(b, i + 1);
    }
}

// ---------------------------------------------------------------------------------------------
// The request head

/// Whether a header name is `Content-Length`, ASCII case ignored.
pub open spec fn is_content_length(name: Seq<u8>) -> bool {
    name.len() == 14 && forall|k: int| 0 <= k < 14 ==> ascii_lower(#[trigger] name[k]) == content_length_name()[k]
}

/// `content-length` in lower case.
pub open spec fn content_length_name() -> Seq<u8> {
    seq![99u8, 111, 110, 116, 101, 110, 116, 45, 108, 101, 110, 103, 116, 104]
}

/// An ASCII letter in lower case; any other byte as it is.
pub open spec fn ascii_lower(c: u8) -> u8 {
    if 65 <= c <= 90 {
        (c + 32) as u8
    } else {
        c
    }
}

/// The position of the first `:` in a line.
pub open spec fn colon_in(line: Seq<u8>, i: int) -> Option<int>
    decreases line.len() - i,
{
    if i < 0 || i >= line.len() {
        None
    } else if line[i] == 58 {
        Some(i)
    } else {
        colon_in(line, i + 1)
    }
}

/// The value an unsigned `usize` header value has, as Rust parses one after trimming it.
pub open spec fn header_number(value: Seq<u8>) -> Option<nat> {
    match parse_u64_spec(trimmed(value)) {
        Some(v) => if v <= usize::MAX {
            Some(v as nat)
        } else {
            None
        },
        None => None,
    }
}

/// The declared body length after the header lines from `i` on: the last `Content-Length`
/// header's value, or `current`; `None` where one of them is not an unsigned integer.
pub open spec fn declared_length(lines: Seq<Seq<u8>>, i: int, current: nat) -> Option<nat>
    decreases lines.len() - i,
{
    if i < 0 || i >= lines.len() {
        Some(current)
    } else {
        let line = lines[i];
        match colon_in(line, 0) {
            Some(c) => if is_content_length(line.subrange(0, c)) {
                match header_number(line.subrange(c + 1, line.len() as int)) {
                    Some(v) => declared_length(lines, i + 1, v),
                    None => None,
                }
            } else {
                declared_length(lines, i + 1, current)
            },
            None => declared_length(lines, i + 1, current),
        }
    }
}

/// `GET`.
pub open spec fn get_method() -> Seq<u8> {
    seq![71u8, 69, 84]
}

/// `POST`.
pub open spec fn post_method() -> Seq<u8> {
    seq![80u8, 79, 83, 84]
}

/// What a request's head says: its method, its path and its body's length, or why the request
/// is refused.
pub open spec fn request_head(head: Seq<u8>) -> Result<(Seq<u8>, Seq<u8>, nat), Seq<char>> {
    if !valid_utf8(head) {
        Err("HTTP request headers were not UTF-8"@)
    } else {
        let lines = lines_from(head, 0);
        if lines.len() == 0 {
            Err("HTTP request was empty"@)
        } else {
            match words(lines[0]) {
                (None, _) => Err("HTTP request did not include a method"@),
                (Some(method), path) => if method != get_method() && method != post_method() {
                    Err("development viewer only accepts GET and POST requests"@)
                } else {
                    match path {
                        None => Err("HTTP request did not include a path"@),
                        Some(path) => match declared_length(lines, 1, 0) {
                            None => Err("HTTP Content-Length was not an unsigned integer"@),
                            Some(n) => if n > BROWSER_INPUT_MAX_BYTES {
                                Err("HTTP request body exceeded "@ + decimal(BROWSER_INPUT_MAX_BYTES as nat) + " bytes"@)
                            } else {
                                Ok((method, path, n))
                            },
                        },
                    }
                },
            }
        }
    }
}

/// A request's method, path and declared body length.
pub struct RequestHead {
    pub method: Vec<u8>,
    pub path: Vec<u8>,
    pub content_length: usize,
}

/// The whitespace character starting at `i`, as `whitespace_len` says.
fn whitespace_at(b: &[u8], i: usize) -> (n: usize)
    ensures
        n == whitespace_len(b@, i as int),
{
    if i >= b.len() {
        return 0;
    }
    let c = b[i];
    if (9 <= c && c <= 13) || c == 32 {
        1
    } else if c == 0xC2 && b.len() - i > 1 && (b[i + 1] == 0x85 || b[i + 1] == 0xA0) {
        2
    } else if b.len() - i > 2 && ((c == 0xE1 && b[i + 1] == 0x9A && b[i + 2] == 0x80) || (c == 0xE2 && b[i + 1]
        == 0x80 && ((0x80 <= b[i + 2] && b[i + 2] <= 0x8A) || b[i + 2] == 0xA8 || b[i + 2] == 0xA9 || b[i + 2]
        == 0xAF)) || (c == 0xE2 && b[i + 1] == 0x81 && b[i + 2] == 0x9F) || (c == 0xE3 && b[i + 1] == 0x80
        && b[i + 2] == 0x80)) {
        3
    } else {
        0
    }
}

/// The first position at or after `i` that does not start whitespace.
fn skip_spaces(b: &[u8], i: usize) -> (end: usize)
    requires
        i <= b@.len(),
    ensures
        end == skip_whitespace(b@, i as int),
        i <= end <= b@.len(),
{
    let mut k = i;
    while k < b.len() && whitespace_at(b, k) > 0
        invariant
            i <= k <= b@.len(),
            skip_whitespace(b@, k as int) == skip_whitespace(b@, i as int),
        decreases b.len() - k,
    {
        let n = whitespace_at(b, k);
        if k + n > b.len() {
            return k;
        }
        k = k + n;
    }
    k
}

/// The first position at or after `i` that starts whitespace, or the end.
fn word_stop(b: &[u8], i: usize) -> (end: usize)
    requires
        i <= b@.len(),
    ensures
        end == word_end(b@, i as int),
        i <= end <= b@.len(),
{
    let mut k = i;
    while k < b.len() && whitespace_at(b, k) == 0
        invariant
            i <= k <= b@.len(),
            word_end(b@, k as int) == word_end(b@, i as int),
        decreases b.len() - k,
    {
        k += 1;
    }
    k
}

/// The length of a whitespace character ending just before `j`, as `whitespace_before` says.
fn whitespace_ending(b: &[u8], j: usize) -> (n: usize)
    requires
        j <= b@.len(),
    ensures
        n == whitespace_before(b@, j as int),
{
    if j >= 1 && whitespace_at(b, j - 1) == 1 {
        1
    } else if j >= 2 && whitespace_at(b, j - 2) == 2 {
        2
    } else if j >= 3 && whitespace_at(b, j - 3) == 3 {
        3
    } else {
        0
    }
}

/// `b` without leading and trailing whitespace, as bounds into `b`.
fn trim_bounds(b: &[u8]) -> (bounds: (usize, usize))
    ensures
        bounds.0 <= bounds.1 <= b@.len(),
        b@.subrange(bounds.0 as int, bounds.1 as int) == trimmed(b@),
{
    let start = skip_spaces(b, 0);
    let mut j = b.len();
    while j > start && whitespace_ending(b, j) > 0 && j - whitespace_ending(b, j) >= start
        invariant
            start <= j <= b@.len(),
            start == skip_whitespace(b@, 0),
            trim_end(b@, start as int, j as int) == trim_end(b@, start as int, b@.len() as int),
        decreases j,
    {
        j = j - whitespace_ending(b, j);
    }
    (start, j)
}

/// Lowers an ASCII letter.
fn lower(c: u8) -> (l: u8)
    ensures
        l == ascii_lower(c),
{
    if 65 <= c && c <= 90 {
        c + 32
    } else {
        c
    }
}

/// Whether a header name is `Content-Length`, ASCII case ignored.
fn names_content_length(name: &[u8]) -> (is: bool)
    ensures
        is == is_content_length(name@),
{
    let expected: [u8; 14] = [99u8, 111, 110, 116, 101, 110, 116, 45, 108, 101, 110, 103, 116, 104];
    assert(expected@ == content_length_name());
    if name.len() != 14 {
        return false;
    }
    let mut k: usize = 0;
    while k < 14
        invariant
            name@.len() == 14,
            expected@ == content_length_name(),
            k <= 14,
            forall|j: int| 0 <= j < k ==> ascii_lower(#[trigger] name@[j]) == content_length_name()[j],
        decreases 14 - k,
    {
        if lower(name[k]) != expected[k] {
            return false;
        }
        k += 1;
    }
    true
}

/// The position of the first `:` in a line.
fn find_colon(line: &[u8]) -> (at: Option<usize>)
    ensures
        at matches Some(a) ==> a < line@.len(),
        match (at, colon_in(line@, 0)) {
            (Some(a), Some(c)) => a == c,
            (None, None) => true,
            _ => false,
        },
{
    let mut k: usize = 0;
    while k < line.len()
        invariant
            k <= line@.len(),
            colon_in(line@, 0) == colon_in(line@, k as int),
        decreases line.len() - k,
    {
        if line[k] == 58 {
            return Some(k);
        }
        k += 1;
    }
    None
}

/// The lines of a request head, as `lines_from` says, each as bounds into the head.
fn line_bounds(b: &[u8]) -> (bounds: Vec<(usize, usize)>)
    ensures
        bounds@.len() == lines_from(b@, 0).len(),
        forall|k: int|
            0 <= k < bounds@.len() ==> (#[trigger] bounds@[k]).0 <= bounds@[k].1 <= b@.len() && b@.subrange(
                bounds@[k].0 as int,
                bounds@[k].1 as int,
            ) == lines_from(b@, 0)[k],
{
    let mut bounds: Vec<(usize, usize)> = Vec::new();
    let mut i: usize = 0;
    let ghost all = lines_from(b@, 0);
    while i < b.len()
        invariant
            i <= b@.len(),
            all == lines_from(b@, 0),
            all == (Seq::new(bounds@.len() as nat, |k: int| b@.subrange(bounds@[k].0 as int, bounds@[k].1 as int)))
                + lines_from(b@, i as int),
            forall|k: int| 0 <= k < bounds@.len() ==> (#[trigger] bounds@[k]).0 <= bounds@[k].1 <= b@.len(),
        decreases b.len() - i,
    {
        proof {
            lemma_newline_bounds(b@, i as int);
        }
        let mut n = i;
        while n < b.len() && b[n] != 10
            invariant
                i <= n <= b@.len(),
                newline_at_or_after(b@, n as int) == newline_at_or_after(b@, i as int),
            decreases b.len() - n,
        {
            n += 1;
        }
        let end = if n < b.len() && n > i && b[n - 1] == 13 {
            n - 1
        } else {
            n
        };
        let ghost before = bounds@;
        bounds.push((i, end));
        proof {
            let prefix = Seq::new(before.len() as nat, |k: int| b@.subrange(before[k].0 as int, before[k].1 as int));
            let next = Seq::new(bounds@.len() as nat, |k: int| b@.subrange(bounds@[k].0 as int, bounds@[k].1 as int));
            assert(next =~= prefix.push(b@.subrange(i as int, end as int)));
            if n < b@.len() {
                assert(lines_from(b@, i as int) == seq![b@.subrange(i as int, end as int)] + lines_from(b@, n + 1));
                assert(all =~= next + lines_from(b@, n + 1));
            } else {
                assert(lines_from(b@, i as int) == seq![b@.subrange(i as int, end as int)]);
                assert(lines_from(b@, b@.len() as int) == Seq::<Seq<u8>>::empty());
                assert(all =~= next + lines_from(b@, b@.len() as int));
            }
        }
        if n < b.len() {
            i = n + 1;
        } else {
            i = b.len();
        }
    }
    proof {
        assert(lines_from(b@, i as int) == Seq::<Seq<u8>>::empty());
        let got = Seq::new(bounds@.len() as nat, |k: int| b@.subrange(bounds@[k].0 as int, bounds@[k].1 as int));
        assert(all =~= got);
        assert forall|k: int| 0 <= k < bounds@.len() implies b@.subrange(bounds@[k].0 as int, bounds@[k].1 as int)
            == #[trigger] lines_from(b@, 0)[k] by {
            assert(got[k] == all[k]);
        }
    }
    bounds
}

/// A copy of `b[from..to]`.
fn copy_range(b: &[u8], from: usize, to: usize) -> (copy: Vec<u8>)
    requires
        from <= to <= b@.len(),
    ensures
        copy@ == b@.subrange(from as int, to as int),
{
    let mut copy: Vec<u8> = Vec::new();
    let mut k = from;
    while k < to
        invariant
            from <= k <= to <= b@.len(),
            copy@ == b@.subrange(from as int, k as int),
        decreases to - k,
    {
        copy.push(b[k]);
        assert(copy@ == b@.subrange(from as int, k + 1));
        k += 1;
    }
    copy
}

/// Reads what a request's head (its bytes up to and with the blank line) says, as
/// `request_head` says.
pub fn parse_request_head(head: &[u8]) -> (parsed: Result<RequestHead, String>)
    ensures
        match (parsed, request_head(head@)) {
            (Ok(h), Ok((m, p, n))) => h.method@ == m && h.path@ == p && h.content_length == n,
            (Err(e), Err(message)) => e@ == message,
            _ => false,
        },
{
    if core::str::from_utf8(head).is_err() {
        return Err(owned("HTTP request headers were not UTF-8"));
    }
    let lines = line_bounds(head);
    let ghost all = lines_from(head@, 0);
    if lines.len() == 0 {
        return Err(owned("HTTP request was empty"));
    }
    let (first_start, first_end) = lines[0];
    let first = &head[first_start..first_end];
    assert(first@ == all[0]);
    let s1 = skip_spaces(first, 0);
    if s1 >= first.len() {
        return Err(owned("HTTP request did not include a method"));
    }
    let e1 = word_stop(first, s1);
    let method = copy_range(first, s1, e1);
    let get: [u8; 3] = [71u8, 69, 84];
    let post: [u8; 4] = [80u8, 79, 83, 84];
    assert(get@ == get_method());
    assert(post@ == post_method());
    if !crate::text::bytes_equal(method.as_slice(), &get) && !crate::text::bytes_equal(method.as_slice(), &post) {
        return Err(owned("development viewer only accepts GET and POST requests"));
    }
    let s2 = skip_spaces(first, e1);
    if s2 >= first.len() {
        return Err(owned("HTTP request did not include a path"));
    }
    let e2 = word_stop(first, s2);
    let path = copy_range(first, s2, e2);
    let mut content_length: usize = 0;
    let mut k: usize = 1;
    while k < lines.len()
        invariant
            1 <= k <= lines@.len(),
            lines@.len() == all.len(),
            all == lines_from(head@, 0),
            forall|j: int|
                0 <= j < lines@.len() ==> (#[trigger] lines@[j]).0 <= lines@[j].1 <= head@.len() && head@.subrange(
                    lines@[j].0 as int,
                    lines@[j].1 as int,
                ) == all[j],
            declared_length(all, 1, 0) == declared_length(all, k as int, content_length as nat),
            valid_utf8(head@),
            all.len() > 0,
            words(all[0]) == (Some(method@), Some(path@)),
            method@ == get_method() || method@ == post_method(),
        decreases lines.len() - k,
    {
        let (start, end) = lines[k];
        let line = &head[start..end];
        assert(line@ == all[k as int]);
        match find_colon(line) {
            Some(c) => {
                let name = &line[0..c];
                if names_content_length(name) {
                    let value = &line[c + 1..line.len()];
                    let (vs, ve) = trim_bounds(value);
                    let number = &value[vs..ve];
                    match parse_u64(number) {
                        Some(v) => {
                            if v > usize::MAX as u64 {
                                return Err(owned("HTTP Content-Length was not an unsigned integer"));
                            }
                            content_length = v as usize;
                        },
                        None => {
                            return Err(owned("HTTP Content-Length was not an unsigned integer"));
                        },
                    }
                }
            },
            None => {},
        }
        k += 1;
    }
    if content_length > BROWSER_INPUT_MAX_BYTES {
        let mut message = owned("HTTP request body exceeded ");
        push_decimal(&mut message, BROWSER_INPUT_MAX_BYTES as u64);
        crate::text::push_str(&mut message, " bytes");
        return Err(message);
    }
    Ok(RequestHead { method, path, content_length })
}

// ---------------------------------------------------------------------------------------------
// Reading a request

/// A request's method, path and body.
pub struct HttpRequest {
    pub method: Vec<u8>,
    pub path: Vec<u8>,
    pub body: Vec<u8>,
}

/// Whether `received` holds a whole request whose head says `method`, `path` and a body length,
/// within the header limit, followed by that many bytes of `body`.
pub open spec fn request_from(received: Seq<u8>, method: Seq<u8>, path: Seq<u8>, body: Seq<u8>) -> bool {
    match headers_end(received) {
        Some(e) => e <= HTTP_HEADER_MAX_BYTES && match request_head(received.subrange(0, e)) {
            Ok((m, p, n)) => m == method && p == path && e + n <= received.len() && body == received.subrange(e, e + n),
            Err(_) => false,
        },
        None => false,
    }
}

/// Whether some received bytes hold exactly this request, as `request_from` says.
pub open spec fn was_received(request: HttpRequest) -> bool {
    exists|received: Seq<u8>| #[trigger] request_from(received, request.method@, request.path@, request.body@)
}

/// The message for headers longer than the limit.
pub open spec fn headers_too_long() -> Seq<char> {
    "HTTP request headers exceeded "@ + decimal(HTTP_HEADER_MAX_BYTES as nat) + " bytes"@
}

/// Whether `message` is one a request can be refused with: the stream failed or ended early,
/// the headers ran past the limit, or the head says why (as `request_head` gives it).
pub open spec fn request_refusal(message: Seq<char>) -> bool {
    ||| crate::text::has_prefix(message, "could not read HTTP request: "@)
    ||| crate::text::has_prefix(message, "could not read HTTP request body: "@)
    ||| message == "HTTP request ended before its headers were complete"@
    ||| message == "HTTP request body was truncated"@
    ||| message == headers_too_long()
    ||| exists|head: Seq<u8>| #[trigger] request_head(head) == Err::<(Seq<u8>, Seq<u8>, nat), Seq<char>>(message)
}

/// The message for headers longer than the limit.
fn too_long() -> (message: String)
    ensures
        message@ == headers_too_long(),
{
    let mut message = owned("HTTP request headers exceeded ");
    push_decimal(&mut message, HTTP_HEADER_MAX_BYTES as u64);
    crate::text::push_str(&mut message, " bytes");
    message
}

/// `prefix` followed by an I/O error's text.
fn io_failure(prefix: &str, error: &std::io::Error) -> (message: String)
    ensures
        crate::text::has_prefix(message@, prefix@),
{
    let text = crate::reading::error_text(error);
    let mut message = owned(prefix);
    crate::text::push_str(&mut message, text.as_str());
    proof {
        crate::text::lemma_prefix_of_concat(prefix@, text@);
    }
    message
}

/// Takes what one read gave while the head is incomplete: no bytes means the request ended
/// before its headers were complete; otherwise the bytes are appended.
pub fn take_head_chunk(received: &mut Vec<u8>, chunk: &[u8]) -> (taken: Result<(), String>)
    ensures
        chunk@.len() == 0 ==> final(received)@ == old(received)@,
        chunk@.len() == 0 ==> (taken matches Err(e) && e@ == "HTTP request ended before its headers were complete"@),
        chunk@.len() > 0 ==> final(received)@ == old(received)@ + chunk@ && taken is Ok,
{
    if chunk.len() == 0 {
        return Err(owned("HTTP request ended before its headers were complete"));
    }
    extend_bytes(received, chunk);
    Ok(())
}

/// Takes what one read of the body gave: no bytes means the body was truncated; otherwise the
/// bytes are appended.
pub fn take_body_chunk(received: &mut Vec<u8>, chunk: &[u8]) -> (taken: Result<(), String>)
    ensures
        chunk@.len() == 0 ==> final(received)@ == old(received)@,
        chunk@.len() == 0 ==> (taken matches Err(e) && e@ == "HTTP request body was truncated"@),
        chunk@.len() > 0 ==> final(received)@ == old(received)@ + chunk@ && taken is Ok,
{
    if chunk.len() == 0 {
        return Err(owned("HTTP request body was truncated"));
    }
    extend_bytes(received, chunk);
    Ok(())
}

/// How many body bytes the next read asks for: 1024, or the `remaining` ones if fewer.
pub fn body_chunk_size(remaining: usize) -> (size: usize)
    ensures
        size == if remaining < 1024 { remaining } else { 1024 },
{
    if remaining < 1024 {
        remaining
    } else {
        1024
    }
}

/// Reads one request: its head, up to the blank line and within the header limit, in reads of
/// 1024 bytes taken by `take_head_chunk`, then the body its head declares, in reads of
/// `body_chunk_size` bytes taken by `take_body_chunk`. A failed read ends with its error's text
/// after `could not read HTTP request: ` or `could not read HTTP request body: `.
pub fn read_request<R: std::io::Read>(stream: &mut R) -> (request: Result<HttpRequest, String>)
    ensures
        request matches Ok(r) ==> was_received(r),
        request matches Err(e) ==> request_refusal(e@),
{
    let mut received: Vec<u8> = Vec::new();
    let mut end: Option<usize> = header_end(&received);
    while end.is_none()
        invariant
            received@.len() < HTTP_HEADER_MAX_BYTES + 1024,
            match (end, headers_end(received@)) {
                (Some(e), Some(s)) => e == s,
                (None, None) => true,
                _ => false,
            },
        decreases HTTP_HEADER_MAX_BYTES + 1024 - received@.len(),
    {
        if received.len() >= HTTP_HEADER_MAX_BYTES {
            return Err(too_long());
        }
        let mut buffer: Vec<u8> = vec![0u8; 1024];
        match crate::reading::read_some(stream, &mut buffer) {
            Ok(n) => {
                take_head_chunk(&mut received, &buffer.as_slice()[0..n])?;
            },
            Err(error) => {
                let message = io_failure("could not read HTTP request: ", &error);
                return Err(message);
            },
        }
        end = header_end(&received);
    }
    let head_end = match end {
        Some(e) => e,
        None => {
            return Err(too_long());
        },
    };
    if head_end > HTTP_HEADER_MAX_BYTES {
        return Err(too_long());
    }
    proof {
        lemma_first_blank_line(received@, 0);
    }
    let head = parse_request_head(&received.as_slice()[0..head_end]);
    let head = match head {
        Ok(h) => h,
        Err(message) => {
            assert(request_head(received@.subrange(0, head_end as int)) == Err::<(Seq<u8>, Seq<u8>, nat), Seq<char>>(message@));
            return Err(message);
        },
    };
    let wanted = head_end + head.content_length;
    while received.len() < wanted
        invariant
            head_end + head.content_length == wanted,
            head.content_length <= BROWSER_INPUT_MAX_BYTES,
            head_end <= HTTP_HEADER_MAX_BYTES,
            received@.len() >= head_end,
            headers_end(received@) == Some(head_end as int),
            request_head(received@.subrange(0, head_end as int)) == Ok::<(Seq<u8>, Seq<u8>, nat), Seq<char>>(
                (head.method@, head.path@, head.content_length as nat),
            ),
        decreases wanted - received@.len(),
    {
        let remaining = wanted - received.len();
        let chunk = body_chunk_size(remaining);
        let mut buffer: Vec<u8> = vec![0u8; chunk];
        let ghost before = received@;
        match crate::reading::read_some(stream, &mut buffer) {
            Ok(n) => {
                take_body_chunk(&mut received, &buffer.as_slice()[0..n])?;
                proof {
                    assert(received@.subrange(0, before.len() as int) =~= before);
                    lemma_headers_end_kept(before, received@, head_end as int);
                    assert(received@.subrange(0, head_end as int) == before.subrange(0, head_end as int));
                }
            },
            Err(error) => {
                let message = io_failure("could not read HTTP request body: ", &error);
                return Err(message);
            },
        }
    }
    let body = copy_range(received.as_slice(), head_end, wanted);
    let request = HttpRequest { method: head.method, path: head.path, body };
    assert(request_from(received@, request.method@, request.path@, request.body@));
    assert(was_received(request));
    Ok(request)
}

/// The first blank line found from `i` starts at or after `i` and is one.
proof fn lemma_first_blank_line(b: Seq<u8>, i: int)
    requires
        0 <= i,
    ensures
        first_blank_line(b, i) matches Some(q) ==> i <= q && q + 4 <= b.len() && blank_line_at(b, q)
            && forall|k: int| i <= k < q ==> !blank_line_at(b, k),
    decreases b.len() - i,
{
    if i + 4 <= b.len() && !blank_line_at(b, i) {
        lemma_first_blank_line(b, i + 1);
    }
}

/// Bytes added after the headers' end leave it where it was.
proof fn lemma_headers_end_kept(before: Seq<u8>, after: Seq<u8>, e: int)
    requires
        headers_end(before) == Some(e),
        after.len() >= before.len(),
        after.subrange(0, before.len() as int) == before,
    ensures
        headers_end(after) == Some(e),
{
    lemma_first_blank_line(before, 0);
    let q = e - 4;
    assert(blank_line_at(after, q)) by {
        assert(after[q] == before[q]);
        assert(after[q + 1] == before[q + 1]);
        assert(after[q + 2] == before[q + 2]);
        assert(after[q + 3] == before[q + 3]);
    }
    lemma_first_blank_same(before, after, 0, q);
}

proof fn lemma_first_blank_same(before: Seq<u8>, after: Seq<u8>, i: int, q: int)
    requires
        0 <= i <= q,
        q + 4 <= before.len(),
        after.len() >= before.len(),
        after.subrange(0, before.len() as int) == before,
        blank_line_at(before, q),
        forall|k: int| i <= k < q ==> !blank_line_at(before, k),
    ensures
        first_blank_line(after, i) == Some(q),
    decreases q - i,
{
    if i < q {
        assert(!blank_line_at(after, i)) by {
            assert(!blank_line_at(before, i));
            assert(after[i] == before[i]);
            assert(after[i + 1] == before[i + 1]);
            assert(after[i + 2] == before[i + 2]);
            assert(after[i + 3] == before[i + 3]);
        }
        lemma_first_blank_same(before, after, i + 1, q);
    } else {
        assert(after[q] == before[q]);
        assert(after[q + 1] == before[q + 1]);
        assert(after[q + 2] == before[q + 2]);
        assert(after[q + 3] == before[q + 3]);
    }
}

// ---------------------------------------------------------------------------------------------
// The response head

/// The head of a response: the status line, the content type and length, `Connection: close`,
/// each extra header, and the blank line.
pub open spec fn response_head(status: Seq<char>, content_type: Seq<char>, headers: Seq<(Seq<char>, Seq<char>)>, length: nat) -> Seq<char> {
    "HTTP/1.1 "@ + status + "\r\nContent-Type: "@ + content_type + "\r\nContent-Length: "@ + decimal(length)
        + "\r\nConnection: close\r\n"@ + header_lines(headers) + "\r\n"@
}

/// `name: value\r\n` for each header, in order.
pub open spec fn header_lines(headers: Seq<(Seq<char>, Seq<char>)>) -> Seq<char>
    decreases headers.len(),
{
    if headers.len() == 0 {
        seq![]
    } else {
        header_lines(headers.drop_last()) + headers.last().0 + ": "@ + headers.last().1 + "\r\n"@
    }
}

/// The head of a response, as `response_head` says.
pub fn format_response_head(status: &str, content_type: &str, headers: &[(&str, &str)], length: usize) -> (text: String)
    ensures
        text@ == response_head(
            status@,
            content_type@,
            headers@.map_values(|h: (&str, &str)| (h.0@, h.1@)),
            length as nat,
        ),
{
    let ghost views = headers@.map_values(|h: (&str, &str)| (h.0@, h.1@));
    let mut text = owned("HTTP/1.1 ");
    crate::text::push_str(&mut text, status);
    crate::text::push_str(&mut text, "\r\nContent-Type: ");
    crate::text::push_str(&mut text, content_type);
    crate::text::push_str(&mut text, "\r\nContent-Length: ");
    push_decimal(&mut text, length as u64);
    crate::text::push_str(&mut text, "\r\nConnection: close\r\n");
    let ghost start = text@;
    let mut k: usize = 0;
    while k < headers.len()
        invariant
            k <= headers@.len(),
            views == headers@.map_values(|h: (&str, &str)| (h.0@, h.1@)),
            text@ == start + header_lines(views.subrange(0, k as int)),
        decreases headers.len() - k,
    {
        let (name, value) = headers[k];
        crate::text::push_str(&mut text, name);
        crate::text::push_str(&mut text, ": ");
        crate::text::push_str(&mut text, value);
        crate::text::push_str(&mut text, "\r\n");
        proof {
            let prefix = views.subrange(0, k + 1);
            assert(prefix.drop_last() == views.subrange(0, k as int));
            assert(prefix.last() == (name@, value@));
        }
        k += 1;
    }
    assert(views.subrange(0, k as int) == views);
    crate::text::push_str(&mut text, "\r\n");
    text
}

} // verus!
