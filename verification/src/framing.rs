//! Line framing: what goes on the wire ends in one line terminator, which
//! is added only where the payload does not bring it.

use vstd::prelude::*;
use vstd::utf8::encode_utf8;

verus! {

/// The line terminator of the wire protocol.
pub open spec fn crlf() -> Seq<char> {
    seq!['\r', '\n']
}

/// Whether `s` already ends in the line terminator.
pub open spec fn ends_with_crlf(s: Seq<char>) -> bool {
    s.len() >= 2 && s[s.len() - 2] == '\r' && s[s.len() - 1] == '\n'
}

/// The line that is sent for the payload `s`.
pub open spec fn framed(s: Seq<char>) -> Seq<char> {
    if ends_with_crlf(s) {
        s
    } else {
        s + crlf()
    }
}

/// The bytes that are written for the payload `s`.
pub open spec fn wire_bytes(s: Seq<char>) -> Seq<u8> {
    encode_utf8(framed(s))
}

/// A framed line ends in the terminator and begins with its payload.
pub proof fn lemma_framed_line(s: Seq<char>)
    ensures
        ends_with_crlf(framed(s)),
        s.is_prefix_of(framed(s)),
        framed(s).len() == s.len() || framed(s).len() == s.len() + 2,
{
}

/// Framing twice is framing once.
pub proof fn lemma_framing_is_idempotent(s: Seq<char>)
    ensures
        framed(framed(s)) == framed(s),
{
}

/// A payload that does not end in the terminator is sent as the same
/// bytes with and without one appended.
pub proof fn lemma_terminator_is_optional(s: Seq<char>)
    requires
        !ends_with_crlf(s),
    ensures
        framed(s + crlf()) == framed(s),
        wire_bytes(s + crlf()) == wire_bytes(s),
{
}

/// Whether `data` ends in the line terminator.
pub fn ends_in_crlf(data: &str) -> (yes: bool)
    ensures
        yes == ends_with_crlf(data@),
{
    let mut last: Option<char> = None;
    let mut before_last: Option<char> = None;
    for c in it: data.chars()
        invariant
            it.seq() == data@,
            last == (if it.index() >= 1 {
                Some(data@[it.index() - 1])
            } else {
                None
            }),
            before_last == (if it.index() >= 2 {
                Some(data@[it.index() - 2])
            } else {
                None
            }),
    {
        before_last = last;
        last = Some(c);
    }
    match (before_last, last) {
        (Some(a), Some(b)) => a == '\r' && b == '\n',
        _ => false,
    }
}

/// The line that is sent for `data`: `data` itself where it ends in the
/// terminator, else `data` with the terminator appended.
pub fn frame(data: String) -> (line: String)
    ensures
        line@ == framed(data@),
{
    if ends_in_crlf(data.as_str()) {
        data
    } else {
        proof {
            reveal_strlit("\r\n");
        }
        let mut line = data;
        line.append("\r\n");
        line
    }
}

/// The bytes that are written for `data`.
pub fn wire_line(data: &str) -> (bytes: Vec<u8>)
    ensures
        bytes@ == wire_bytes(data@),
{
    let line = frame(String::from_str(data));
    line.as_str().as_bytes_vec()
}

} // verus!
