//! IOC search results: the gateway blacklist, and the `host[:port]` form of
//! search addresses.
use vstd::prelude::*;
use vstd::string::*;
use crate::addrmap::Addr;
use crate::error::Error;

verus! {

/// Port of channel access when an address names none.
pub const PORT_DEFAULT: u16 = 5064;

/// One answer of the search: the channel, who answered, and the IOC address
/// that the answer names. Both addresses are absent when nobody answered.
pub struct SearchResult {
    pub channel: String,
    pub response_addr: Option<Addr>,
    pub addr: Option<Addr>,
}

pub open spec fn listed(a: Option<Addr>, list: Seq<Addr>) -> bool {
    match a {
        Some(x) => list.contains(x),
        None => false,
    }
}

/// A result is blocked when the responder or the advertised address is a
/// blacklisted gateway.
pub open spec fn blocked(item: SearchResult, blacklist: Seq<Addr>) -> bool {
    names_blocked(item.response_addr, item.addr, blacklist)
}

/// The responder or the advertised address is blacklisted.
pub open spec fn names_blocked(response_addr: Option<Addr>, addr: Option<Addr>, blacklist: Seq<Addr>) -> bool {
    listed(response_addr, blacklist) || listed(addr, blacklist)
}

fn is_listed(a: Option<Addr>, list: &Vec<Addr>) -> (r: bool)
    ensures
        r == listed(a, list@),
{
    match a {
        None => false,
        Some(x) => {
            let mut i: usize = 0;
            while i < list.len()
                invariant
                    i <= list@.len(),
                    a == Some(x),
                    forall|j: int| 0 <= j < i ==> list@[j] != x,
                decreases list@.len() - i,
            {
                if list[i] == x {
                    proof {
                        assert(list@[i as int] == x);
                        assert(list@.contains(x));
                    }
                    return true;
                }
                i = i + 1;
            }
            false
        },
    }
}

/// Whether `item` names a blacklisted gateway as responder or as address.
pub fn is_blacklisted(item: &SearchResult, blacklist: &Vec<Addr>) -> (r: bool)
    ensures
        r == blocked(*item, blacklist@),
{
    is_listed(item.response_addr, blacklist) || is_listed(item.addr, blacklist)
}

/// The results of `s` that are not blocked, in order.
pub open spec fn unblocked(s: Seq<SearchResult>, blacklist: Seq<Addr>) -> Seq<SearchResult>
    decreases s.len(),
{
    if s.len() == 0 {
        s
    } else {
        let r = unblocked(s.drop_last(), blacklist);
        if blocked(s.last(), blacklist) {
            r
        } else {
            r.push(s.last())
        }
    }
}

proof fn lemma_unblocked_clean(s: Seq<SearchResult>, blacklist: Seq<Addr>)
    ensures
        forall|k: int|
            0 <= k < unblocked(s, blacklist).len() ==> !blocked(#[trigger] unblocked(s, blacklist)[k], blacklist),
    decreases s.len(),
{
    if s.len() > 0 {
        lemma_unblocked_clean(s.drop_last(), blacklist);
        let r = unblocked(s.drop_last(), blacklist);
        if !blocked(s.last(), blacklist) {
            assert forall|k: int| 0 <= k < r.push(s.last()).len() implies !blocked(
                #[trigger] r.push(s.last())[k],
                blacklist,
            ) by {
                if k < r.len() {
                    assert(r.push(s.last())[k] == r[k]);
                }
            }
        }
    }
}

/// The results that name no blacklisted gateway, in their order.
pub fn filter_blacklisted(items: Vec<SearchResult>, blacklist: &Vec<Addr>) -> (r: Vec<SearchResult>)
    ensures
        r@ == unblocked(items@, blacklist@),
        forall|k: int| 0 <= k < r@.len() ==> !blocked(#[trigger] r@[k], blacklist@),
{
    let ghost s0 = items@;
    let mut rest = items;
    let mut kept: Vec<SearchResult> = Vec::new();
    let n = rest.len();
    let mut i: usize = 0;
    proof {
        assert(s0.subrange(0, 0) =~= Seq::<SearchResult>::empty());
    }
    while rest.len() > 0
        invariant
            i <= s0.len(),
            n == s0.len(),
            rest@ == s0.subrange(i as int, s0.len() as int),
            kept@ == unblocked(s0.subrange(0, i as int), blacklist@),
        decreases rest@.len(),
    {
        let e = rest.remove(0);
        proof {
            assert(e == s0[i as int]);
            let next = s0.subrange(0, i + 1);
            assert(next.drop_last() =~= s0.subrange(0, i as int));
        }
        let b = is_blacklisted(&e, blacklist);
        proof {
            let next = s0.subrange(0, i + 1);
            assert(next.last() == e);
            assert(next.drop_last() =~= s0.subrange(0, i as int));
            assert(unblocked(next, blacklist@) == if blocked(e, blacklist@) {
                unblocked(s0.subrange(0, i as int), blacklist@)
            } else {
                unblocked(s0.subrange(0, i as int), blacklist@).push(e)
            });
        }
        if !b {
            kept.push(e);
        }
        proof {
            assert(rest@ =~= s0.subrange(i + 1, s0.len() as int));
        }
        i = i + 1;
    }
    proof {
        assert(s0.subrange(0, i as int) =~= s0);
        lemma_unblocked_clean(s0, blacklist@);
    }
    kept
}

/// The value of ASCII decimal digits.
pub open spec fn dec_value(s: Seq<char>) -> nat
    decreases s.len(),
{
    if s.len() == 0 {
        0
    } else {
        (dec_value(s.drop_last()) * 10 + (s.last() as int - '0' as int)) as nat
    }
}

pub open spec fn all_digits(s: Seq<char>) -> bool {
    forall|i: int| 0 <= i < s.len() ==> '0' <= #[trigger] s[i] <= '9'
}

/// The port that `t` spells: decimal digits, optionally after a `+`, of a
/// value that fits 16 bits.
pub open spec fn port_spec(t: Seq<char>) -> Option<u16> {
    digits_port(
        if t.len() > 0 && t[0] == '+' {
            t.drop_first()
        } else {
            t
        },
    )
}

/// The port that the decimal digits `d` spell, if it fits 16 bits.
pub open spec fn digits_port(d: Seq<char>) -> Option<u16> {
    if d.len() > 0 && all_digits(d) && dec_value(d) <= 65535 {
        Some(dec_value(d) as u16)
    } else {
        None
    }
}

/// Position of the first `:` in `s` at or after `i`, or the length of `s`.
pub open spec fn colon_from(s: Seq<char>, i: int) -> int
    decreases s.len() - i,
{
    if i < 0 || i >= s.len() {
        s.len() as int
    } else if s[i] == ':' {
        i
    } else {
        colon_from(s, i + 1)
    }
}

/// `host` alone means the default port; `host:port[:...]` takes the text
/// between the first and the second colon as the port.
pub open spec fn host_port_spec(s: Seq<char>) -> Option<(Seq<char>, u16)> {
    let c = colon_from(s, 0);
    if c == s.len() {
        Some((s, PORT_DEFAULT))
    } else {
        match port_spec(s.subrange(c + 1, colon_from(s, c + 1))) {
            Some(port) => Some((s.subrange(0, c), port)),
            None => None,
        }
    }
}

proof fn lemma_colon_from_bounds(s: Seq<char>, i: int)
    requires
        0 <= i <= s.len(),
    ensures
        i <= colon_from(s, i) <= s.len(),
    decreases s.len() - i,
{
    if i < s.len() && s[i] != ':' {
        lemma_colon_from_bounds(s, i + 1);
    }
}

fn find_colon(s: &str, from: usize) -> (r: usize)
    requires
        from <= s@.len(),
    ensures
        r == colon_from(s@, from as int),
        from <= r <= s@.len(),
{
    let n = s.unicode_len();
    let mut i = from;
    while i < n
        invariant
            from <= i <= n,
            n == s@.len(),
            colon_from(s@, from as int) == colon_from(s@, i as int),
        decreases n - i,
    {
        if s.get_char(i) == ':' {
            return i;
        }
        i = i + 1;
    }
    i
}

fn parse_port(s: &str, from: usize, to: usize) -> (r: Option<u16>)
    requires
        from <= to <= s@.len(),
    ensures
        r == port_spec(s@.subrange(from as int, to as int)),
{
    let ghost t = s@.subrange(from as int, to as int);
    let mut i = from;
    if i < to && s.get_char(i) == '+' {
        proof {
            assert(t[0] == s@[from as int]);
        }
        i = i + 1;
    } else {
        proof {
            if t.len() > 0 {
                assert(t[0] == s@[from as int]);
            }
        }
    }
    let ghost d = s@.subrange(i as int, to as int);
    proof {
        if t.len() > 0 && t[0] == '+' {
            assert(d =~= t.drop_first());
        } else {
            assert(d =~= t);
        }
        assert(port_spec(t) == digits_port(d));
    }
    if i == to {
        proof {
            assert(d.len() == 0);
        }
        return None;
    }
    let start = i;
    let mut v: u32 = 0;
    while i < to
        invariant
            start <= i <= to,
            to <= s@.len(),
            d == s@.subrange(start as int, to as int),
            t == s@.subrange(from as int, to as int),
            port_spec(t) == digits_port(d),
            d.len() > 0,
            all_digits(s@.subrange(start as int, i as int)),
            v as nat == dec_value(s@.subrange(start as int, i as int)),
            v <= 65535,
        decreases to - i,
    {
        let c = s.get_char(i);
        if c < '0' || c > '9' {
            proof {
                assert(d[i - start] == c);
                assert(!all_digits(d));
                assert(port_spec(t) is None);
            }
            return None;
        }
        let next = v * 10 + (c as u32 - '0' as u32);
        proof {
            let sub = s@.subrange(start as int, i + 1);
            assert(sub.drop_last() =~= s@.subrange(start as int, i as int));
            assert(sub.last() == c);
            assert(dec_value(sub) == dec_value(sub.drop_last()) * 10 + (c as int - '0' as int));
            assert(next as nat == dec_value(sub));
            assert(all_digits(sub)) by {
                assert forall|k: int| 0 <= k < sub.len() implies '0' <= #[trigger] sub[k] <= '9' by {
                    if k < sub.len() - 1 {
                        assert(sub[k] == s@.subrange(start as int, i as int)[k]);
                    }
                }
            }
        }
        if next > 65535 {
            proof {
                if all_digits(d) {
                    lemma_dec_value_prefix(d, (i + 1 - start) as nat);
                    assert(s@.subrange(start as int, i + 1) =~= d.subrange(0, (i + 1 - start) as int));
                }
                assert(port_spec(t) is None);
            }
            return None;
        }
        v = next;
        i = i + 1;
    }
    proof {
        assert(s@.subrange(start as int, i as int) =~= d);
    }
    Some(v as u16)
}

proof fn lemma_dec_value_prefix(d: Seq<char>, k: nat)
    requires
        k <= d.len(),
        all_digits(d),
    ensures
        dec_value(d.subrange(0, k as int)) <= dec_value(d),
    decreases d.len() - k,
{
    if k < d.len() {
        lemma_dec_value_prefix(d, k + 1);
        let a = d.subrange(0, k as int + 1);
        assert(a.drop_last() =~= d.subrange(0, k as int));
        assert('0' <= d[k as int] <= '9');
    } else {
        assert(d.subrange(0, k as int) =~= d);
    }
}

/// Splits a search address into host and port; a port that is not a
/// 16-bit decimal number is a configuration error.
pub fn host_port(s: &str) -> (r: Result<(&str, u16), Error>)
    ensures
        match host_port_spec(s@) {
            Some((h, p)) => r matches Ok(x) && x.0@ == h && x.1 == p,
            None => r == Err::<(&str, u16), Error>(Error::Config),
        },
{
    let n = s.unicode_len();
    let c = find_colon(s, 0);
    if c == n {
        return Ok((s, PORT_DEFAULT));
    }
    let end = find_colon(s, c + 1);
    match parse_port(s, c + 1, end) {
        Some(port) => Ok((s.substring_char(0, c), port)),
        None => Err(Error::Config),
    }
}

} // verus!
