//! Request-line decoding and response formatting.
//!
//! The decode policy is intentionally a two-branch lookup: the first line
//! of the request is matched verbatim against the one known pattern, and
//! anything else resolves to the not-found resource. Decoding is total —
//! the state machine relies on a resource always being resolved.

use vstd::prelude::*;

verus! {

/// The one request line the server answers with its hello resource:
/// the bytes of `GET / HTTP/1.1`.
pub open spec fn hello_request_line() -> Seq<u8> {
    seq![71u8, 69u8, 84u8, 32u8, 47u8, 32u8, 72u8, 84u8, 84u8, 80u8, 47u8, 49u8, 46u8, 49u8]
}

/// The bytes of the status line `HTTP/1.1 200 OK`.
pub open spec fn ok_status_line() -> Seq<u8> {
    seq![
        72u8, 84u8, 84u8, 80u8, 47u8, 49u8, 46u8, 49u8, 32u8, 50u8, 48u8, 48u8, 32u8, 79u8, 75u8,
    ]
}

/// The bytes of the status line `HTTP/1.1 404 NOT FOUND`.
pub open spec fn not_found_status_line() -> Seq<u8> {
    seq![
        72u8, 84u8, 84u8, 80u8, 47u8, 49u8, 46u8, 49u8, 32u8, 52u8, 48u8, 52u8, 32u8, 78u8, 79u8,
        84u8, 32u8, 70u8, 79u8, 85u8, 78u8, 68u8,
    ]
}

/// The bytes of `\r\nContent-Length: `, between status line and length.
pub open spec fn content_length_header() -> Seq<u8> {
    seq![
        13u8, 10u8, 67u8, 111u8, 110u8, 116u8, 101u8, 110u8, 116u8, 45u8, 76u8, 101u8, 110u8,
        103u8, 116u8, 104u8, 58u8, 32u8,
    ]
}

/// The bytes of `\r\n\r\n`, between headers and body.
pub open spec fn header_end() -> Seq<u8> {
    seq![13u8, 10u8, 13u8, 10u8]
}

/// Length of the first line of `s`: everything before the first line
/// feed, or all of `s` when it has none.
pub open spec fn line_len(s: Seq<u8>) -> int
    decreases s.len(),
{
    if s.len() == 0 {
        0
    } else if s[0] == 10 {
        0
    } else {
        1 + line_len(s.skip(1))
    }
}

/// The first line of `s`, with a trailing carriage return stripped —
/// the same notion of "line" the request is matched by.
pub open spec fn first_line(s: Seq<u8>) -> Seq<u8> {
    let l = s.take(line_len(s));
    if l.len() > 0 && l.last() == 13 {
        l.drop_last()
    } else {
        l
    }
}

/// Does the request open with the one known request line?
pub open spec fn is_hello_request(s: Seq<u8>) -> bool {
    first_line(s) == hello_request_line()
}

/// The status decode resolves `s` to.
pub open spec fn decoded_status(s: Seq<u8>) -> int {
    if is_hello_request(s) {
        200
    } else {
        404
    }
}

/// Which fixed resource (and fixed buffer) a status is served from.
pub open spec fn resource_index(status: int) -> int {
    if status == 200 {
        1
    } else {
        0
    }
}

/// The decimal digits of `n`, most significant first.
pub open spec fn dec_digits(n: nat) -> Seq<u8>
    decreases n,
{
    if n < 10 {
        seq![(48 + n) as u8]
    } else {
        dec_digits(n / 10).push((48 + n % 10) as u8)
    }
}

/// The full response: status line, `Content-Length` header with the
/// decimal value of `len`, a blank line, then the body.
pub open spec fn response_bytes(status: int, len: nat, body: Seq<u8>) -> Seq<u8> {
    spec_status_line(status) + content_length_header() + dec_digits(len) + header_end() + body
}

/// The status line for a status code; anything but 200 answers as
/// not found.
pub open spec fn spec_status_line(status: int) -> Seq<u8> {
    if status == 200 {
        ok_status_line()
    } else {
        not_found_status_line()
    }
}

/// `line_len` is the index of the first line feed (or the length when
/// there is none): scanning that far without one pins it down.
proof fn lemma_line_len_at(s: Seq<u8>, i: int)
    requires
        0 <= i <= s.len(),
        forall|j: int| 0 <= j < i ==> s[j] != 10,
        i == s.len() || s[i] == 10,
    ensures
        line_len(s) == i,
    decreases i,
{
    if i == 0 {
    } else {
        assert(s[0] != 10);
        lemma_line_len_at(s.skip(1), i - 1);
    }
}

/// Decode one received request against the known patterns: the hello
/// resource for the exact known request line, the not-found resource for
/// everything else. Total: every input resolves to a status and a file.
pub fn decode_request(buf: &[u8]) -> (r: (usize, &'static str))
    ensures
        r.0 == decoded_status(buf@),
        is_hello_request(buf@) ==> r.1@ == "hello.html\0"@,
        !is_hello_request(buf@) ==> r.1@ == "404.html\0"@,
{
    let pat = "GET / HTTP/1.1".as_bytes();
    proof {
        reveal_strlit("GET / HTTP/1.1");
        vstd::string::is_ascii_spec_bytes("GET / HTTP/1.1");
        assert(vstd::string::is_ascii("GET / HTTP/1.1"));
        assert(pat@ =~= hello_request_line());
    }
    let mut i: usize = 0;
    while i < buf.len() && buf[i] != 10
        invariant
            i <= buf@.len(),
            forall|j: int| 0 <= j < i ==> buf@[j] != 10,
        decreases buf@.len() - i,
    {
        i += 1;
    }
    proof {
        lemma_line_len_at(buf@, i as int);
    }
    let end: usize = if i > 0 && buf[i - 1] == 13 {
        i - 1
    } else {
        i
    };
    proof {
        assert(buf@.take(i as int).len() == i);
        if i > 0 && buf@[i - 1] == 13 {
            assert(buf@.take(i as int).last() == buf@[i - 1]);
            assert(first_line(buf@) =~= buf@.take(i as int).drop_last());
            assert(first_line(buf@) =~= buf@.take(end as int));
        } else {
            assert(first_line(buf@) =~= buf@.take(end as int));
        }
    }
    let mut is_match: bool = end == pat.len();
    let mut k: usize = 0;
    while is_match && k < end
        invariant
            k <= end <= buf@.len(),
            pat@ == hello_request_line(),
            is_match ==> end == pat@.len() && forall|j: int| 0 <= j < k ==> buf@[j] == pat@[j],
            !is_match ==> end != pat@.len() || exists|j: int|
                0 <= j < end && buf@[j] != pat@[j],
        decreases end - k,
    {
        if buf[k] != pat[k] {
            is_match = false;
        }
        k += 1;
    }
    proof {
        if is_match {
            assert(buf@.take(end as int) =~= hello_request_line());
        } else {
            assert(buf@.take(end as int) != hello_request_line()) by {
                if buf@.take(end as int) == hello_request_line() {
                    assert(buf@.take(end as int).len() == end);
                    assert(end == pat@.len());
                    let j = choose|j: int| 0 <= j < end && buf@[j] != pat@[j];
                    assert(buf@.take(end as int)[j] == buf@[j]);
                }
            }
        }
    }
    if is_match {
        (200, "hello.html\0")
    } else {
        (404, "404.html\0")
    }
}

/// The fixed-resource index a decoded status is served from; index and
/// status determine one another because the resource set is fixed.
pub fn resource_for_status(status: usize) -> (r: usize)
    ensures
        r == resource_index(status as int),
{
    if status == 200 {
        1
    } else {
        0
    }
}

/// Append a byte slice to the response being built.
fn append_bytes(out: &mut Vec<u8>, s: &[u8])
    ensures
        final(out)@ == old(out)@ + s@,
{
    let mut i: usize = 0;
    while i < s.len()
        invariant
            i <= s@.len(),
            out@ == old(out)@ + s@.take(i as int),
        decreases s@.len() - i,
    {
        out.push(s[i]);
        i += 1;
        assert(out@ =~= old(out)@ + s@.take(i as int));
    }
    assert(s@.take(s@.len() as int) == s@);
}

/// Append the decimal digits of `n`, most significant first.
fn append_decimal(out: &mut Vec<u8>, n: usize)
    ensures
        final(out)@ == old(out)@ + dec_digits(n as nat),
    decreases n,
{
    if n < 10 {
        out.push(48 + n as u8);
    } else {
        append_decimal(out, n / 10);
        out.push(48 + (n % 10) as u8);
    }
}

/// Format a complete response into `response`, replacing its previous
/// bytes: the status line for `status_code`, a `Content-Length: len`
/// header, a blank line, and the body `buf`.
pub fn format_response(status_code: usize, len: usize, buf: &[u8], response: &mut Vec<u8>)
    ensures
        final(response)@ == response_bytes(status_code as int, len as nat, buf@),
{
    response.clear();
    if status_code == 200 {
        let line = "HTTP/1.1 200 OK".as_bytes();
        proof {
            reveal_strlit("HTTP/1.1 200 OK");
            vstd::string::is_ascii_spec_bytes("HTTP/1.1 200 OK");
            assert(vstd::string::is_ascii("HTTP/1.1 200 OK"));
            assert(line@ =~= ok_status_line());
        }
        append_bytes(response, line);
    } else {
        let line = "HTTP/1.1 404 NOT FOUND".as_bytes();
        proof {
            reveal_strlit("HTTP/1.1 404 NOT FOUND");
            vstd::string::is_ascii_spec_bytes("HTTP/1.1 404 NOT FOUND");
            assert(vstd::string::is_ascii("HTTP/1.1 404 NOT FOUND"));
            assert(line@ =~= not_found_status_line());
        }
        append_bytes(response, line);
    }
    let header = "\r\nContent-Length: ".as_bytes();
    proof {
        reveal_strlit("\r\nContent-Length: ");
        vstd::string::is_ascii_spec_bytes("\r\nContent-Length: ");
        assert(vstd::string::is_ascii("\r\nContent-Length: "));
        assert(header@ =~= content_length_header());
    }
    append_bytes(response, header);
    append_decimal(response, len);
    let blank = "\r\n\r\n".as_bytes();
    proof {
        reveal_strlit("\r\n\r\n");
        vstd::string::is_ascii_spec_bytes("\r\n\r\n");
        assert(vstd::string::is_ascii("\r\n\r\n"));
        assert(blank@ =~= header_end());
    }
    append_bytes(response, blank);
    append_bytes(response, buf);
    proof {
        assert((((spec_status_line(status_code as int) + content_length_header()) + dec_digits(
            len as nat,
        )) + header_end()) + buf@ =~= response_bytes(status_code as int, len as nat, buf@));
    }
}

} // verus!
