//! The decisions around SRV record lookup for Minecraft's
//! `_minecraft._tcp.<host>` convention.
use vstd::prelude::*;

use crate::address::{first_index, Address};
use crate::text::{chars_of, push_char, push_str};

verus! {

/// Whether an address text names its port: it holds a `:` and is not
/// bracketed, or it is bracketed and a `:` follows the closing bracket.
pub open spec fn names_port(a: Seq<char>) -> bool {
    if a.len() > 0 && a[0] == '[' {
        match first_index(a, ']') {
            Some(e) => e + 1 < a.len() && a[e + 1] == ':',
            None => false,
        }
    } else {
        a.contains(':')
    }
}

/// The text without its trailing `.` characters.
pub open spec fn trim_dots(s: Seq<char>) -> Seq<char>
    decreases s.len(),
{
    if s.len() > 0 && s.last() == '.' {
        trim_dots(s.drop_last())
    } else {
        s
    }
}

/// Whether an SRV record should be looked up for an address: only when the
/// address does not name its port.
pub fn srv_lookup_needed(address: &str) -> (r: bool)
    ensures
        r == !names_port(address@),
{
    let chars = chars_of(address);
    if chars.len() > 0 && chars[0] == '[' {
        let mut e: usize = 0;
        while e < chars.len() && chars[e] != ']'
            invariant
                e <= chars.len(),
                chars@ == address@,
                chars@.len() > 0 && chars@[0] == '[',
                forall|j: int| 0 <= j < e ==> chars@[j] != ']',
            decreases chars.len() - e,
        {
            e += 1;
        }
        if e == chars.len() {
            proof {
                crate::response::query::lemma_first_index_bounds(address@, ']');
            }
            return true;
        }
        proof {
            crate::response::query::lemma_first_index_at(address@, ']', e as int);
        }
        return !(e + 1 < chars.len() && chars[e + 1] == ':');
    }
    let mut i: usize = 0;
    while i < chars.len()
        invariant
            i <= chars.len(),
            chars@ == address@,
            !(chars@.len() > 0 && chars@[0] == '['),
            forall|j: int| 0 <= j < i ==> chars@[j] != ':',
        decreases chars.len() - i,
    {
        if chars[i] == ':' {
            assert(address@.contains(':')) by {
                assert(address@[i as int] == ':');
            }
            return false;
        }
        i += 1;
    }
    true
}

/// The name of the SRV record for a host: `_minecraft._tcp.<host>`.
pub fn srv_record_name(host: &str) -> (r: String)
    ensures
        r@ == "_minecraft._tcp."@ + host@,
{
    let mut r = String::new();
    push_str(&mut r, "_minecraft._tcp.");
    push_str(&mut r, host);
    assert(r@ =~= "_minecraft._tcp."@ + host@);
    r
}

/// The host an SRV record points to, without the trailing dots of its
/// fully qualified name.
pub fn srv_target_host(target: &str) -> (r: String)
    ensures
        r@ == trim_dots(target@),
{
    let chars = chars_of(target);
    let mut end: usize = chars.len();
    assert(chars@.take(end as int) =~= target@);
    while end > 0 && chars[end - 1] == '.'
        invariant
            end <= chars.len(),
            chars@ == target@,
            trim_dots(target@) == trim_dots(chars@.take(end as int)),
        decreases end,
    {
        assert(chars@.take(end as int).drop_last() =~= chars@.take(end - 1));
        end -= 1;
    }
    let mut r = String::new();
    let mut i: usize = 0;
    while i < end
        invariant
            i <= end <= chars.len(),
            r@ == chars@.take(i as int),
        decreases end - i,
    {
        push_char(&mut r, chars[i]);
        i += 1;
        assert(r@ =~= chars@.take(i as int));
    }
    r
}

/// The address to use after an SRV lookup: the record's target when one was
/// found, else the address as parsed (also when the lookup failed).
pub fn srv_fallback(address: Address, srv: Result<Option<Address>, String>) -> (r: Address)
    ensures
        r == (match srv {
            Ok(Some(a)) => a,
            _ => address,
        }),
{
    match srv {
        Ok(Some(a)) => a,
        _ => address,
    }
}

} // verus!
