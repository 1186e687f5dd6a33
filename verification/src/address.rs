//! Connection addresses: `["irc://" | "ircs://"] host [":" port]`.
//!
//! Parsing never fails. Where the text after the last colon is not a port
//! number, the whole text after the scheme is taken as the host and the
//! port is the default of the scheme.

use vstd::prelude::*;
use crate::text::{
    all_digits, chars_of, decimal, decimal_text, decimal_value, digit_value, joined,
    lemma_decimal_round_trip, strip_prefix, without_prefix,
};

verus! {

/// The port of `irc://` and of an address without a scheme.
pub const PLAIN_PORT: u16 = 6667;

/// The port of `ircs://`.
pub const SECURE_PORT: u16 = 6697;

/// The scheme of a TLS connection.
pub open spec fn secure_scheme() -> Seq<char> {
    "ircs://"@
}

/// The scheme of a plaintext connection.
pub open spec fn plain_scheme() -> Seq<char> {
    "irc://"@
}

/// The place of the last colon of `s`.
pub open spec fn last_colon(s: Seq<char>) -> Option<int>
    decreases s.len(),
{
    if s.len() == 0 {
        None
    } else if s.last() == ':' {
        Some(s.len() - 1)
    } else {
        last_colon(s.drop_last())
    }
}

/// The port that `s` writes: decimal digits, after one `+` or none, that
/// make a number of at most 65535.
pub open spec fn port_of(s: Seq<char>) -> Option<u16> {
    let digits = if s.len() > 0 && s[0] == '+' {
        s.skip(1)
    } else {
        s
    };
    if digits.len() > 0 && all_digits(digits) && decimal_value(digits) <= u16::MAX {
        Some(decimal_value(digits) as u16)
    } else {
        None
    }
}

/// Host and port of `s`, which has no scheme.
pub open spec fn split_host_port(s: Seq<char>, default_port: u16) -> (Seq<char>, u16) {
    match last_colon(s) {
        Some(i) => match port_of(s.skip(i + 1)) {
            Some(port) => (s.take(i), port),
            None => (s, default_port),
        },
        None => (s, default_port),
    }
}

/// Whether TLS is used, the host and the port of `address`.
pub open spec fn parsed_address(address: Seq<char>) -> (bool, Seq<char>, u16) {
    if let Some(rest) = without_prefix(address, secure_scheme()) {
        let (host, port) = split_host_port(rest, SECURE_PORT);
        (true, host, port)
    } else if let Some(rest) = without_prefix(address, plain_scheme()) {
        let (host, port) = split_host_port(rest, PLAIN_PORT);
        (false, host, port)
    } else {
        let (host, port) = split_host_port(address, PLAIN_PORT);
        (false, host, port)
    }
}

/// The text `host:port`, as it is dialled.
pub open spec fn authority(host: Seq<char>, port: u16) -> Seq<char> {
    host + seq![':'] + decimal(port as nat)
}

/// `last_colon` gives the place of a colon after which no colon follows,
/// and nothing only where there is no colon.
pub proof fn lemma_last_colon(s: Seq<char>)
    ensures
        match last_colon(s) {
            Some(i) => 0 <= i < s.len() && s[i] == ':' && forall|j: int|
                i < j < s.len() ==> s[j] != ':',
            None => forall|j: int| 0 <= j < s.len() ==> s[j] != ':',
        },
    decreases s.len(),
{
    if s.len() > 0 && s.last() != ':' {
        lemma_last_colon(s.drop_last());
        let shorter = s.drop_last();
        assert forall|j: int| 0 <= j < shorter.len() implies shorter[j] == s[j] by {}
    }
}

/// A colon after which no colon follows is the last colon.
pub proof fn lemma_last_colon_is(s: Seq<char>, i: int)
    requires
        0 <= i < s.len(),
        s[i] == ':',
        forall|j: int| i < j < s.len() ==> s[j] != ':',
    ensures
        last_colon(s) == Some(i),
{
    lemma_last_colon(s);
}

/// The digits of a longer text write at least what its first digits write.
proof fn lemma_value_grows(s: Seq<char>, k: int)
    requires
        0 <= k <= s.len(),
    ensures
        decimal_value(s.take(k)) <= decimal_value(s),
    decreases s.len() - k,
{
    if k < s.len() {
        lemma_value_grows(s.drop_last(), k);
        assert(s.drop_last().take(k) =~= s.take(k));
    } else {
        assert(s.take(k) =~= s);
    }
}

/// The digit that `c` writes, if it writes one.
fn digit_of(c: char) -> (d: Option<u32>)
    ensures
        match d {
            Some(v) => digit_value(c) == Some(v as nat) && v < 10,
            None => digit_value(c) is None,
        },
{
    if '0' <= c && c <= '9' {
        Some(c as u32 - '0' as u32)
    } else {
        None
    }
}

/// The port that the characters from `from` on write.
#[verifier::loop_isolation(false)]
fn port_from(chars: &Vec<char>, from: usize) -> (port: Option<u16>)
    requires
        from <= chars@.len(),
    ensures
        port == port_of(chars@.skip(from as int)),
{
    let ghost text = chars@.skip(from as int);
    let mut start: usize = from;
    if start < chars.len() && chars[start] == '+' {
        start = start + 1;
    }
    let ghost digits = chars@.skip(start as int);
    assert(digits =~= if text.len() > 0 && text[0] == '+' {
        text.skip(1)
    } else {
        text
    });
    if start == chars.len() {
        return None;
    }
    let mut value: u32 = 0;
    let mut i: usize = start;
    while i < chars.len()
        invariant
            start <= i <= chars@.len(),
            digits == chars@.skip(start as int),
            all_digits(digits.take(i - start)),
            value == decimal_value(digits.take(i - start)),
            value <= u16::MAX,
        decreases chars@.len() - i,
    {
        let ghost seen = digits.take(i - start);
        let ghost next = digits.take(i + 1 - start);
        assert(next.drop_last() =~= seen);
        assert(next.last() == chars@[i as int]);
        match digit_of(chars[i]) {
            Some(d) => {
                assert forall|j: int| 0 <= j < next.len() implies (#[trigger] digit_value(
                    next[j],
                )) is Some by {
                    if j < seen.len() {
                        assert(next[j] == seen[j]);
                    }
                }
                let wider: u32 = value * 10 + d;
                assert(wider == decimal_value(next));
                if wider > 65535 {
                    proof {
                        lemma_value_grows(digits, i + 1 - start);
                    }
                    return None;
                }
                value = wider;
            },
            None => {
                assert(digits[i - start] == chars@[i as int]);
                return None;
            },
        }
        i = i + 1;
    }
    assert(digits.take(i - start) =~= digits);
    Some(value as u16)
}

/// The place of the last colon among `chars`.
fn last_colon_in(chars: &Vec<char>) -> (place: Option<usize>)
    ensures
        match place {
            Some(i) => i < chars.len() && last_colon(chars@) == Some(i as int),
            None => last_colon(chars@) is None,
        },
{
    let mut i: usize = chars.len();
    while i > 0
        invariant
            i <= chars@.len(),
            forall|j: int| i <= j < chars@.len() ==> chars@[j] != ':',
        decreases i,
    {
        i = i - 1;
        if chars[i] == ':' {
            proof {
                lemma_last_colon_is(chars@, i as int);
            }
            return Some(i);
        }
    }
    proof {
        lemma_last_colon(chars@);
    }
    None
}

/// The port that `text` writes, as `str::parse::<u16>` reads it.
pub fn parse_port(text: &str) -> (port: Option<u16>)
    ensures
        port == port_of(text@),
{
    let chars = chars_of(text);
    assert(chars@.skip(0) =~= chars@);
    port_from(&chars, 0)
}

/// Splits `host_port` at its last colon into host and port.
///
/// Without a colon, or where what follows the last colon is no port, the
/// whole of `host_port` is the host and the port is `default_port`.
pub fn parse_host_port(host_port: &str, default_port: u16) -> (r: Result<(String, u16), String>)
    ensures
        r is Ok,
        r matches Ok((host, port)) && (host@, port) == split_host_port(host_port@, default_port),
{
    let chars = chars_of(host_port);
    match last_colon_in(&chars) {
        Some(i) => match port_from(&chars, i + 1) {
            Some(port) => Ok((String::from_str(host_port.substring_char(0, i)), port)),
            None => Ok((String::from_str(host_port), default_port)),
        },
        None => Ok((String::from_str(host_port), default_port)),
    }
}

/// Reads an address: whether TLS is used, the host and the port.
///
/// `ircs://` means TLS and port 6697 by default; `irc://` or no scheme
/// means plaintext and port 6667 by default.
pub fn parse_address(address: &str) -> (r: Result<(bool, String, u16), String>)
    ensures
        r is Ok,
        r matches Ok((use_tls, host, port)) && (use_tls, host@, port) == parsed_address(address@),
{
    if let Some(stripped) = strip_prefix(address, "ircs://") {
        let (host, port) = parse_host_port(stripped, SECURE_PORT)?;
        Ok((true, host, port))
    } else if let Some(stripped) = strip_prefix(address, "irc://") {
        let (host, port) = parse_host_port(stripped, PLAIN_PORT)?;
        Ok((false, host, port))
    } else {
        let (host, port) = parse_host_port(address, PLAIN_PORT)?;
        Ok((false, host, port))
    }
}

/// The text `host:port`, as it is dialled.
pub fn dial_target(host: &str, port: u16) -> (target: String)
    ensures
        target@ == authority(host@, port),
{
    proof {
        reveal_strlit(":");
    }
    let mut target = joined(host, ":");
    let digits = decimal_text(port);
    target.append(digits.as_str());
    target
}

/// A number in decimal is read back as the port it is.
pub proof fn lemma_port_of_decimal(port: u16)
    ensures
        port_of(decimal(port as nat)) == Some(port),
{
    lemma_decimal_round_trip(port as nat);
    let text = decimal(port as nat);
    assert(digit_value(text[0]) is Some);
}

/// The text `host:port` is split into that host and that port, whatever
/// the host holds.
pub proof fn lemma_authority_round_trip(host: Seq<char>, port: u16, default_port: u16)
    ensures
        split_host_port(authority(host, port), default_port) == (host, port),
{
    let digits = decimal(port as nat);
    let text = authority(host, port);
    lemma_decimal_round_trip(port as nat);
    lemma_port_of_decimal(port);
    let at = host.len() as int;
    assert forall|j: int| at < j < text.len() implies text[j] != ':' by {
        assert(digit_value(digits[j - at - 1]) is Some);
    }
    lemma_last_colon_is(text, at);
    assert(text.skip(at + 1) =~= digits);
}

/// An address that is written as a scheme, a host, a colon and a port is
/// read back as that scheme's kind of connection, that host and that port.
pub proof fn lemma_address_round_trip(use_tls: bool, host: Seq<char>, port: u16)
    ensures
        parsed_address(
            (if use_tls {
                secure_scheme()
            } else {
                plain_scheme()
            }) + authority(host, port),
        ) == (use_tls, host, port),
{
    reveal_strlit("ircs://");
    reveal_strlit("irc://");
    let scheme = if use_tls {
        secure_scheme()
    } else {
        plain_scheme()
    };
    let address = scheme + authority(host, port);
    lemma_authority_round_trip(host, port, SECURE_PORT);
    lemma_authority_round_trip(host, port, PLAIN_PORT);
    assert(address.subrange(0, scheme.len() as int) =~= scheme);
    assert(address.skip(scheme.len() as int) =~= authority(host, port));
    if !use_tls && secure_scheme().is_prefix_of(address) {
        assert(address.subrange(0, 7)[3] == address[3]);
    }
}

/// A text without a colon is a host on the default port.
pub proof fn lemma_bare_host(host: Seq<char>, default_port: u16)
    requires
        !host.contains(':'),
    ensures
        split_host_port(host, default_port) == (host, default_port),
{
    lemma_last_colon(host);
    if last_colon(host) is Some {
        assert(host.contains(host[last_colon(host).unwrap()]));
    }
}

} // verus!
