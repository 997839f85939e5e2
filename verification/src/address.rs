//! Server addresses: parsing `host[:port]` text and writing it back.
use vstd::prelude::*;

use crate::text::{
    chars_of, decimal, is_decimal_digit, lemma_decimal_digits, lemma_parse_decimal, parse_u16,
    parse_unsigned, push_char, push_decimal, push_str,
};

verus! {

/// A server address: a host name or IP address, and a port.
#[derive(Debug, Clone)]
pub struct Address {
    /// The hostname or IP address.
    pub host: String,
    /// The port number.
    pub port: u16,
}

/// The position of the first occurrence of `c` in `s`.
pub open spec fn first_index(s: Seq<char>, c: char) -> Option<int>
    decreases s.len(),
{
    if s.len() == 0 {
        None
    } else if s[0] == c {
        Some(0)
    } else {
        match first_index(s.drop_first(), c) {
            Some(i) => Some(i + 1),
            None => None,
        }
    }
}

/// The position of the last occurrence of `c` in `s`.
pub open spec fn last_index(s: Seq<char>, c: char) -> Option<int>
    decreases s.len(),
{
    if s.len() == 0 {
        None
    } else if s.last() == c {
        Some(s.len() - 1)
    } else {
        last_index(s.drop_last(), c)
    }
}

/// The message for a port that is not a number from 0 to 65535.
pub open spec fn invalid_port_message(port: Seq<char>) -> Seq<char> {
    "Invalid port: '"@ + port + "'"@
}

/// The message for an address that does not have the form `host[:port]`.
pub open spec fn invalid_format_message(address: Seq<char>) -> Seq<char> {
    "Invalid address format: '"@ + address + "'"@
}

/// The host and port that an address text denotes, or the error message.
///
/// `[host]` and `[host]:port` give a bracketed (IPv6) host; otherwise the text
/// is split at its last `:` into host and port, and with no `:` it is the
/// host alone. A missing port is `default_port`.
pub open spec fn parse_address_spec(a: Seq<char>, default_port: u16) -> Result<
    (Seq<char>, u16),
    Seq<char>,
> {
    if a.len() > 0 && a[0] == '[' && first_index(a, ']') is Some {
        let e = first_index(a, ']')->Some_0;
        let host = a.subrange(1, e);
        let rest = a.skip(e + 1);
        if rest.len() == 0 {
            Ok((host, default_port))
        } else if rest[0] == ':' {
            match parse_unsigned(rest.skip(1), u16::MAX as nat) {
                Some(p) => Ok((host, p as u16)),
                None => Err(invalid_port_message(rest.skip(1))),
            }
        } else {
            Err(invalid_format_message(a))
        }
    } else {
        match last_index(a, ':') {
            None => if a.len() == 0 {
                Err("Address cannot be empty"@)
            } else {
                Ok((a, default_port))
            },
            Some(k) => match parse_unsigned(a.skip(k + 1), u16::MAX as nat) {
                None => Err(invalid_port_message(a.skip(k + 1))),
                Some(p) => if k == 0 {
                    Err("Host cannot be empty"@)
                } else {
                    Ok((a.take(k), p as u16))
                },
            },
        }
    }
}

/// The text form of an address: `host:port`, with the host in brackets when
/// it holds a `:` (an IPv6 address).
pub open spec fn address_text(host: Seq<char>, port: u16) -> Seq<char> {
    if host.contains(':') {
        seq!['['] + host + seq![']', ':'] + decimal(port as nat)
    } else {
        host + seq![':'] + decimal(port as nat)
    }
}

/// Finds the first occurrence of `c` in `chars`.
fn find_first(chars: &Vec<char>, c: char) -> (r: Option<usize>)
    ensures
        match r {
            Some(i) => first_index(chars@, c) == Some(i as int) && i < chars.len() && chars@[i as int]
                == c,
            None => first_index(chars@, c) is None,
        },
{
    let mut i: usize = 0;
    assert(chars@.skip(0) =~= chars@);
    while i < chars.len()
        invariant
            i <= chars.len(),
            first_index(chars@, c) == (match first_index(chars@.skip(i as int), c) {
                Some(j) => Some(j + i),
                None => None,
            }),
        decreases chars.len() - i,
    {
        assert(chars@.skip(i as int)[0] == chars@[i as int]);
        assert(chars@.skip(i as int).drop_first() =~= chars@.skip(i + 1));
        if chars[i] == c {
            return Some(i);
        }
        i += 1;
    }
    assert(chars@.skip(i as int) =~= Seq::<char>::empty());
    None
}

/// Finds the last occurrence of `c` in `chars`.
fn find_last(chars: &Vec<char>, c: char) -> (r: Option<usize>)
    ensures
        match r {
            Some(i) => last_index(chars@, c) == Some(i as int) && i < chars.len(),
            None => last_index(chars@, c) is None,
        },
{
    let mut i: usize = chars.len();
    assert(chars@.take(i as int) =~= chars@);
    while i > 0
        invariant
            i <= chars.len(),
            last_index(chars@, c) == last_index(chars@.take(i as int), c),
        decreases i,
    {
        assert(chars@.take(i as int).last() == chars@[i - 1]);
        assert(chars@.take(i as int).drop_last() =~= chars@.take(i - 1));
        if chars[i - 1] == c {
            return Some(i - 1);
        }
        i -= 1;
    }
    None
}

/// The characters `chars[start..end]` as a string.
fn substring(chars: &Vec<char>, start: usize, end: usize) -> (s: String)
    requires
        start <= end <= chars.len(),
    ensures
        s@ == chars@.subrange(start as int, end as int),
{
    let mut s = String::new();
    let mut i: usize = start;
    while i < end
        invariant
            start <= i <= end <= chars.len(),
            s@ == chars@.subrange(start as int, i as int),
        decreases end - i,
    {
        push_char(&mut s, chars[i]);
        i += 1;
        assert(s@ =~= chars@.subrange(start as int, i as int));
    }
    s
}

/// The message for an invalid port text.
fn invalid_port(port: &String) -> (m: String)
    ensures
        m@ == invalid_port_message(port@),
{
    let mut m = String::new();
    push_str(&mut m, "Invalid port: '");
    push_str(&mut m, port.as_str());
    push_str(&mut m, "'");
    assert(m@ =~= invalid_port_message(port@));
    m
}

impl Address {
    /// Creates a new address with the given host and port.
    pub fn new(host: String, port: u16) -> (r: Address)
        ensures
            r.host == host,
            r.port == port,
    {
        Address { host, port }
    }

    /// Parses an address string in the format `host[:port]`.
    ///
    /// If no port is specified, `default_port` is used.
    /// Returns an error for invalid addresses.
    pub fn parse_address(address: &str, default_port: u16) -> (r: Result<Address, String>)
        ensures
            match (r, parse_address_spec(address@, default_port)) {
                (Ok(a), Ok((host, port))) => a.host@ == host && a.port == port,
                (Err(m), Err(msg)) => m@ == msg,
                _ => false,
            },
    {
        let chars = chars_of(address);
        let n = chars.len();
        if n > 0 && chars[0] == '[' {
            if let Some(e) = find_first(&chars, ']') {
                assert(first_index(address@, ']') == Some(e as int));
                let host = substring(&chars, 1, e);
                assert(host@ == address@.subrange(1, e as int));
                assert(chars@.skip(e + 1) =~= chars@.subrange(e + 1, n as int));
                if e + 1 == n {
                    return Ok(Address::new(host, default_port));
                }
                if chars[e + 1] == ':' {
                    let port_str = substring(&chars, e + 2, n);
                    assert(chars@.skip(e + 1).skip(1) =~= port_str@);
                    return match parse_u16(port_str.as_str()) {
                        Some(port) => Ok(Address::new(host, port)),
                        None => Err(invalid_port(&port_str)),
                    };
                }
                let mut m = String::new();
                push_str(&mut m, "Invalid address format: '");
                push_str(&mut m, address);
                push_str(&mut m, "'");
                assert(m@ =~= invalid_format_message(address@));
                return Err(m);
            }
        }
        match find_last(&chars, ':') {
            None => {
                if n == 0 {
                    Err("Address cannot be empty".to_owned())
                } else {
                    Ok(Address::new(address.to_owned(), default_port))
                }
            },
            Some(k) => {
                let port_str = substring(&chars, k + 1, n);
                assert(chars@.skip(k + 1) =~= port_str@);
                match parse_u16(port_str.as_str()) {
                    None => Err(invalid_port(&port_str)),
                    Some(port) => {
                        if k == 0 {
                            Err("Host cannot be empty".to_owned())
                        } else {
                            let host = substring(&chars, 0, k);
                            assert(chars@.take(k as int) =~= host@);
                            Ok(Address::new(host, port))
                        }
                    },
                }
            },
        }
    }

    /// The address as text: `host:port`, or `[host]:port` when the host
    /// holds a `:` (an IPv6 address).
    pub fn to_string(&self) -> (s: String)
        ensures
            s@ == address_text(self.host@, self.port),
    {
        let chars = chars_of(self.host.as_str());
        let mut s = String::new();
        match find_first(&chars, ':') {
            Some(i) => {
                assert(self.host@.contains(':')) by {
                    assert(self.host@[i as int] == ':');
                }
                push_char(&mut s, '[');
                push_str(&mut s, self.host.as_str());
                push_char(&mut s, ']');
                push_char(&mut s, ':');
                push_decimal(&mut s, self.port as u64);
                assert(s@ =~= address_text(self.host@, self.port));
            },
            None => {
                assert(!self.host@.contains(':')) by {
                    if self.host@.contains(':') {
                        let j = choose|j: int| 0 <= j < self.host@.len() && self.host@[j] == ':';
                        lemma_first_index_some(self.host@, ':', j);
                    }
                }
                push_str(&mut s, self.host.as_str());
                push_char(&mut s, ':');
                push_decimal(&mut s, self.port as u64);
                assert(s@ =~= address_text(self.host@, self.port));
            },
        }
        s
    }
}

/// A character that occurs has a first occurrence.
proof fn lemma_first_index_some(s: Seq<char>, c: char, j: int)
    requires
        0 <= j < s.len(),
        s[j] == c,
    ensures
        first_index(s, c) is Some,
    decreases s.len(),
{
    if s[0] != c {
        lemma_first_index_some(s.drop_first(), c, j - 1);
    }
}


/// The first occurrence in a text after a prefix that lacks the character.
proof fn lemma_first_index_skip(a: Seq<char>, b: Seq<char>, c: char)
    requires
        !a.contains(c),
    ensures
        first_index(a + b, c) == (match first_index(b, c) {
            Some(i) => Some(i + a.len()),
            None => None,
        }),
    decreases a.len(),
{
    if a.len() > 0 {
        assert((a + b).drop_first() =~= a.drop_first() + b);
        assert((a + b)[0] == a[0]);
        assert(!a.drop_first().contains(c)) by {
            if a.drop_first().contains(c) {
                let j = choose|j: int| 0 <= j < a.drop_first().len() && a.drop_first()[j] == c;
                assert(a[j + 1] == c);
            }
        }
        assert(a[0] != c);
        lemma_first_index_skip(a.drop_first(), b, c);
    } else {
        assert(a + b =~= b);
    }
}

/// A text without the character has no occurrence of it.
proof fn lemma_first_index_none(s: Seq<char>, c: char)
    requires
        !s.contains(c),
    ensures
        first_index(s, c) is None,
{
    lemma_first_index_skip(s, Seq::empty(), c);
    assert(s + Seq::<char>::empty() =~= s);
}

/// The last occurrence in a text before a suffix that lacks the character.
proof fn lemma_last_index_suffix(a: Seq<char>, b: Seq<char>, c: char)
    requires
        !b.contains(c),
    ensures
        last_index(a + b, c) == last_index(a, c),
    decreases b.len(),
{
    if b.len() > 0 {
        assert((a + b).drop_last() =~= a + b.drop_last());
        assert((a + b).last() == b.last());
        assert(b.last() != c) by {
            assert(b[b.len() - 1] == b.last());
        }
        assert(!b.drop_last().contains(c)) by {
            if b.drop_last().contains(c) {
                let j = choose|j: int| 0 <= j < b.drop_last().len() && b.drop_last()[j] == c;
                assert(b[j] == c);
            }
        }
        lemma_last_index_suffix(a, b.drop_last(), c);
    } else {
        assert(a + b =~= a);
    }
}

/// An address written as text (as `Address::to_string` writes it) parses
/// back to the same host and port, for a non-empty host without `]`.
pub proof fn lemma_address_text_roundtrip(host: Seq<char>, port: u16, default_port: u16)
    requires
        host.len() > 0,
        !host.contains(']'),
    ensures
        parse_address_spec(address_text(host, port), default_port) == Ok::<(Seq<char>, u16), Seq<char>>((host, port)),
{
    let d = decimal(port as nat);
    lemma_decimal_digits(port as nat);
    lemma_parse_decimal(port as nat, u16::MAX as nat);
    assert(!d.contains(':') && !d.contains(']')) by {
        if d.contains(':') || d.contains(']') {
            let j = choose|j: int| 0 <= j < d.len() && (d[j] == ':' || d[j] == ']');
            assert(is_decimal_digit(d[j]));
        }
    }
    if host.contains(':') {
        let front = seq!['['] + host;
        let back = seq![']', ':'] + d;
        let t = address_text(host, port);
        assert(t =~= front + back);
        assert(!front.contains(']')) by {
            if front.contains(']') {
                let j = choose|j: int| 0 <= j < front.len() && front[j] == ']';
                assert(host[j - 1] == ']');
            }
        }
        lemma_first_index_skip(front, back, ']');
        assert(first_index(back, ']') == Some(0int));
        let e: int = host.len() as int + 1;
        assert(first_index(t, ']') == Some(e));
        assert(t.subrange(1, e) =~= host);
        assert(t.skip(e + 1) =~= seq![':'] + d);
        assert(t.skip(e + 1).skip(1) =~= d);
    } else {
        let t = address_text(host, port);
        assert(t =~= host.push(':') + d);
        assert(!t.contains(']')) by {
            if t.contains(']') {
                let j = choose|j: int| 0 <= j < t.len() && t[j] == ']';
                if j < host.len() {
                    assert(host[j] == ']');
                } else if j > host.len() {
                    assert(d[j - host.len() - 1] == ']');
                }
            }
        }
        lemma_first_index_none(t, ']');
        lemma_last_index_suffix(host.push(':'), d, ':');
        assert(last_index(host.push(':'), ':') == Some(host.len() as int));
        let k = host.len() as int;
        assert(t.skip(k + 1) =~= d);
        assert(t.take(k) =~= host);
    }
}

} // verus!
