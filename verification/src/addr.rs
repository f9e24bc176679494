//! The target address: a model of IPv4 and IPv6 addresses as plain values,
//! and a verified parser for their textual forms.
//!
//! The grammar follows the usual textual rules: an IPv4 address is four
//! dot-separated decimal octets without leading zeros; an IPv6 address is
//! colon-separated groups of one to four hexadecimal digits, with at most
//! one `::` standing for a run of zero groups, and optionally a trailing
//! IPv4 address in place of the last two groups.

use vstd::prelude::*;
use crate::text::{
    all_digits, all_hex_digits, dec_val, find_dc, find_first, hex_digit_val, hex_val, is_digit,
    is_hex_digit, lemma_find_dc_unique, lemma_find_first_unique,
};

verus! {

/// A target address, immutable once parsed and freely copied to workers:
/// either four IPv4 octets or eight IPv6 groups.
#[derive(Clone, Copy, Debug, PartialEq, Eq, Structural)]
pub enum IpAddress {
    V4(u8, u8, u8, u8),
    V6(u16, u16, u16, u16, u16, u16, u16, u16),
}

/// Whether `s` is a valid decimal octet: one to three digits, no leading
/// zero, value at most 255.
pub open spec fn is_octet_str(s: Seq<char>) -> bool {
    &&& 1 <= s.len() <= 3
    &&& all_digits(s)
    &&& dec_val(s) <= 255
    &&& s.len() > 1 ==> s[0] != '0'
}

/// Whether `s` is a valid IPv6 group: one to four hexadecimal digits.
pub open spec fn is_h16_str(s: Seq<char>) -> bool {
    1 <= s.len() <= 4 && all_hex_digits(s)
}

/// The dot-separated octets of `s`, or `None` where any part between dots
/// is not a valid octet.
pub open spec fn parse_octet_seq(s: Seq<char>) -> Option<Seq<u8>>
    decreases s.len(),
{
    let i = find_first(s, '.');
    if i < s.len() {
        let part = s.subrange(0, i as int);
        let rest = s.subrange(i as int + 1, s.len() as int);
        if is_octet_str(part) {
            match parse_octet_seq(rest) {
                Option::Some(os) => Option::Some(seq![dec_val(part) as u8] + os),
                Option::None => Option::None,
            }
        } else {
            Option::None
        }
    } else {
        if is_octet_str(s) {
            Option::Some(seq![dec_val(s) as u8])
        } else {
            Option::None
        }
    }
}

/// The four octets of a textual IPv4 address, or `None` where `s` is not
/// one.
pub open spec fn spec_parse_ipv4(s: Seq<char>) -> Option<(u8, u8, u8, u8)> {
    match parse_octet_seq(s) {
        Option::Some(os) => if os.len() == 4 {
            Option::Some((os[0], os[1], os[2], os[3]))
        } else {
            Option::None
        },
        Option::None => Option::None,
    }
}

/// The colon-separated groups of `s`, or `None` where any part is not a
/// valid group.  With `allow_v4`, the final part may instead be a textual
/// IPv4 address standing for two groups.
pub open spec fn parse_group_seq(s: Seq<char>, allow_v4: bool) -> Option<Seq<u16>>
    decreases s.len(),
{
    let i = find_first(s, ':');
    if i < s.len() {
        let part = s.subrange(0, i as int);
        let rest = s.subrange(i as int + 1, s.len() as int);
        if is_h16_str(part) {
            match parse_group_seq(rest, allow_v4) {
                Option::Some(g) => Option::Some(seq![hex_val(part) as u16] + g),
                Option::None => Option::None,
            }
        } else {
            Option::None
        }
    } else {
        if is_h16_str(s) {
            Option::Some(seq![hex_val(s) as u16])
        } else if allow_v4 {
            match spec_parse_ipv4(s) {
                Option::Some(o) => Option::Some(
                    seq![
                        ((o.0 as int) * 256 + (o.1 as int)) as u16,
                        ((o.2 as int) * 256 + (o.3 as int)) as u16,
                    ],
                ),
                Option::None => Option::None,
            }
        } else {
            Option::None
        }
    }
}

/// The eight groups of a textual IPv6 address, or `None` where `s` is not
/// one.  The first `::` splits `s`; the groups it stands for are zero.
pub open spec fn spec_parse_ipv6(s: Seq<char>) -> Option<Seq<u16>> {
    let fd = find_dc(s);
    if fd + 2 <= s.len() {
        let left = s.subrange(0, fd as int);
        let right = s.subrange(fd as int + 2, s.len() as int);
        let lg = if left.len() == 0 {
            Option::Some(Seq::<u16>::empty())
        } else {
            parse_group_seq(left, false)
        };
        let rg = if right.len() == 0 {
            Option::Some(Seq::<u16>::empty())
        } else {
            parse_group_seq(right, true)
        };
        match (lg, rg) {
            (Option::Some(l), Option::Some(r)) => if l.len() + r.len() <= 7 {
                Option::Some(l + Seq::new((8 - l.len() - r.len()) as nat, |i: int| 0u16) + r)
            } else {
                Option::None
            },
            _ => Option::None,
        }
    } else {
        match parse_group_seq(s, true) {
            Option::Some(g) => if g.len() == 8 {
                Option::Some(g)
            } else {
                Option::None
            },
            Option::None => Option::None,
        }
    }
}

/// The address `s` denotes: an IPv4 address where `s` is its dotted form,
/// else an IPv6 address where `s` is its colon form, else nothing.
pub open spec fn spec_parse_ip(s: Seq<char>) -> Option<IpAddress> {
    match spec_parse_ipv4(s) {
        Option::Some(o) => Option::Some(IpAddress::V4(o.0, o.1, o.2, o.3)),
        Option::None => match spec_parse_ipv6(s) {
            Option::Some(g) => Option::Some(
                IpAddress::V6(g[0], g[1], g[2], g[3], g[4], g[5], g[6], g[7]),
            ),
            Option::None => Option::None,
        },
    }
}

/// The position of the first `c` in `s`, executable form.
fn find_char(s: &str, c: char) -> (r: usize)
    ensures
        r == find_first(s@, c),
        r <= s@.len(),
{
    let n = s.unicode_len();
    let mut i: usize = 0;
    while i < n
        invariant
            i <= n,
            n == s@.len(),
            forall|j: int| 0 <= j < i ==> s@[j] != c,
        decreases n - i,
    {
        if s.get_char(i) == c {
            proof {
                lemma_find_first_unique(s@, c, i as int);
            }
            return i;
        }
        i = i + 1;
    }
    proof {
        lemma_find_first_unique(s@, c, n as int);
    }
    n
}

/// The position of the first `::` in `s`, executable form.
fn find_dcolon(s: &str) -> (r: usize)
    ensures
        r == find_dc(s@),
        r <= s@.len(),
{
    let n = s.unicode_len();
    if n < 2 {
        proof {
            lemma_find_dc_unique(s@, n as int);
        }
        return n;
    }
    let mut i: usize = 0;
    while i < n - 1
        invariant
            i <= n,
            n == s@.len(),
            2 <= n,
            forall|j: int| 0 <= j < i && j + 2 <= s@.len() ==> !(#[trigger] s@[j] == ':' && s@[j
                + 1] == ':'),
        decreases n - i,
    {
        if s.get_char(i) == ':' && s.get_char(i + 1) == ':' {
            proof {
                lemma_find_dc_unique(s@, i as int);
            }
            return i;
        }
        i = i + 1;
    }
    proof {
        lemma_find_dc_unique(s@, n as int);
    }
    n
}

/// One decimal octet, executable form.
fn parse_octet(s: &str) -> (r: Option<u8>)
    ensures
        match r {
            Option::Some(v) => is_octet_str(s@) && v as int == dec_val(s@),
            Option::None => !is_octet_str(s@),
        },
{
    let n = s.unicode_len();
    if n < 1 || n > 3 {
        return Option::None;
    }
    if n > 1 && s.get_char(0) == '0' {
        return Option::None;
    }
    let mut acc: u32 = 0;
    let mut i: usize = 0;
    while i < n
        invariant
            i <= n,
            n == s@.len(),
            n <= 3,
            all_digits(s@.subrange(0, i as int)),
            acc == dec_val(s@.subrange(0, i as int)),
            i == 0 ==> acc == 0,
            i == 1 ==> acc <= 9,
            i == 2 ==> acc <= 99,
            i == 3 ==> acc <= 999,
        decreases n - i,
    {
        let c = s.get_char(i);
        let u = c as u32;
        if u < 48 || u > 57 {
            proof {
                assert(!is_digit(s@[i as int]));
            }
            return Option::None;
        }
        proof {
            let t = s@.subrange(0, i as int + 1);
            assert(t.drop_last() =~= s@.subrange(0, i as int));
            assert(t.last() == s@[i as int]);
            assert(forall|j: int| 0 <= j < t.len() ==> t[j] == s@[j]);
        }
        acc = acc * 10 + (u - 48);
        i = i + 1;
    }
    proof {
        assert(s@.subrange(0, n as int) =~= s@);
    }
    if acc > 255 {
        return Option::None;
    }
    Option::Some(acc as u8)
}

/// One IPv6 group of hexadecimal digits, executable form.
fn parse_h16(s: &str) -> (r: Option<u16>)
    ensures
        match r {
            Option::Some(v) => is_h16_str(s@) && v as int == hex_val(s@),
            Option::None => !is_h16_str(s@),
        },
{
    let n = s.unicode_len();
    if n < 1 || n > 4 {
        return Option::None;
    }
    let mut acc: u32 = 0;
    let mut i: usize = 0;
    while i < n
        invariant
            i <= n,
            n == s@.len(),
            n <= 4,
            all_hex_digits(s@.subrange(0, i as int)),
            acc == hex_val(s@.subrange(0, i as int)),
            i == 0 ==> acc == 0,
            i == 1 ==> acc <= 0xf,
            i == 2 ==> acc <= 0xff,
            i == 3 ==> acc <= 0xfff,
            i == 4 ==> acc <= 0xffff,
        decreases n - i,
    {
        let c = s.get_char(i);
        let u = c as u32;
        let d: u32 = if 48 <= u && u <= 57 {
            u - 48
        } else if 97 <= u && u <= 102 {
            u - 97 + 10
        } else if 65 <= u && u <= 70 {
            u - 65 + 10
        } else {
            proof {
                assert(!is_hex_digit(s@[i as int]));
            }
            return Option::None;
        };
        proof {
            let t = s@.subrange(0, i as int + 1);
            assert(t.drop_last() =~= s@.subrange(0, i as int));
            assert(t.last() == s@[i as int]);
            assert(forall|j: int| 0 <= j < t.len() ==> t[j] == s@[j]);
            assert(d == hex_digit_val(s@[i as int]));
        }
        acc = acc * 16 + d;
        i = i + 1;
    }
    proof {
        assert(s@.subrange(0, n as int) =~= s@);
    }
    Option::Some(acc as u16)
}

/// The dot-separated octets of `s`, executable form.
fn parse_octets(s: &str) -> (r: Option<Vec<u8>>)
    ensures
        match (r, parse_octet_seq(s@)) {
            (Option::Some(v), Option::Some(os)) => v@ == os,
            (Option::None, Option::None) => true,
            _ => false,
        },
    decreases s@.len(),
{
    let n = s.unicode_len();
    let i = find_char(s, '.');
    if i < n {
        let part = s.substring_char(0, i);
        let rest = s.substring_char(i + 1, n);
        match parse_octet(part) {
            Option::Some(v) => match parse_octets(rest) {
                Option::Some(mut os) => {
                    let ghost tail = os@;
                    os.insert(0, v);
                    proof {
                        assert(os@ =~= seq![v] + tail);
                    }
                    Option::Some(os)
                },
                Option::None => Option::None,
            },
            Option::None => Option::None,
        }
    } else {
        match parse_octet(s) {
            Option::Some(v) => {
                let mut os: Vec<u8> = Vec::new();
                os.push(v);
                proof {
                    assert(os@ =~= seq![v]);
                }
                Option::Some(os)
            },
            Option::None => Option::None,
        }
    }
}

/// The colon-separated groups of `s`, executable form.
fn parse_groups(s: &str, allow_v4: bool) -> (r: Option<Vec<u16>>)
    ensures
        match (r, parse_group_seq(s@, allow_v4)) {
            (Option::Some(v), Option::Some(g)) => v@ == g,
            (Option::None, Option::None) => true,
            _ => false,
        },
    decreases s@.len(),
{
    let n = s.unicode_len();
    let i = find_char(s, ':');
    if i < n {
        let part = s.substring_char(0, i);
        let rest = s.substring_char(i + 1, n);
        match parse_h16(part) {
            Option::Some(v) => match parse_groups(rest, allow_v4) {
                Option::Some(mut g) => {
                    let ghost tail = g@;
                    g.insert(0, v);
                    proof {
                        assert(g@ =~= seq![v] + tail);
                    }
                    Option::Some(g)
                },
                Option::None => Option::None,
            },
            Option::None => Option::None,
        }
    } else {
        match parse_h16(s) {
            Option::Some(v) => {
                let mut g: Vec<u16> = Vec::new();
                g.push(v);
                proof {
                    assert(g@ =~= seq![v]);
                }
                Option::Some(g)
            },
            Option::None => {
                if allow_v4 {
                    match parse_ipv4_str(s) {
                        Option::Some(o) => {
                            let mut g: Vec<u16> = Vec::new();
                            g.push((o.0 as u16) * 256 + (o.1 as u16));
                            g.push((o.2 as u16) * 256 + (o.3 as u16));
                            proof {
                                assert(g@ =~= seq![
                                    ((o.0 as int) * 256 + (o.1 as int)) as u16,
                                    ((o.2 as int) * 256 + (o.3 as int)) as u16,
                                ]);
                            }
                            Option::Some(g)
                        },
                        Option::None => Option::None,
                    }
                } else {
                    Option::None
                }
            },
        }
    }
}

/// The four octets of a textual IPv4 address, executable form.
fn parse_ipv4_str(s: &str) -> (r: Option<(u8, u8, u8, u8)>)
    ensures
        r == spec_parse_ipv4(s@),
{
    match parse_octets(s) {
        Option::Some(os) => {
            if os.len() == 4 {
                Option::Some((os[0], os[1], os[2], os[3]))
            } else {
                Option::None
            }
        },
        Option::None => Option::None,
    }
}

/// The eight groups of a textual IPv6 address, executable form.
fn parse_ipv6_str(s: &str) -> (r: Option<Vec<u16>>)
    ensures
        match (r, spec_parse_ipv6(s@)) {
            (Option::Some(v), Option::Some(g)) => v@ == g,
            (Option::None, Option::None) => true,
            _ => false,
        },
{
    let n = s.unicode_len();
    let fd = find_dcolon(s);
    if n >= 2 && fd <= n - 2 {
        let left = s.substring_char(0, fd);
        let right = s.substring_char(fd + 2, n);
        let lg = if left.unicode_len() == 0 {
            Option::Some(Vec::<u16>::new())
        } else {
            parse_groups(left, false)
        };
        let rg = if right.unicode_len() == 0 {
            Option::Some(Vec::<u16>::new())
        } else {
            parse_groups(right, true)
        };
        match (lg, rg) {
            (Option::Some(l), Option::Some(r)) => {
                if l.len() <= 7 && r.len() <= 7 - l.len() {
                    let mut g: Vec<u16> = Vec::new();
                    let mut k: usize = 0;
                    while k < l.len()
                        invariant
                            k <= l@.len(),
                            g@ =~= l@.subrange(0, k as int),
                        decreases l@.len() - k,
                    {
                        g.push(l[k]);
                        k = k + 1;
                    }
                    let zeros = 8 - l.len() - r.len();
                    let mut z: usize = 0;
                    while z < zeros
                        invariant
                            z <= zeros,
                            zeros == 8 - l@.len() - r@.len(),
                            l@.len() + r@.len() <= 7,
                            g@ =~= l@ + Seq::new(z as nat, |i: int| 0u16),
                        decreases zeros - z,
                    {
                        g.push(0);
                        z = z + 1;
                    }
                    let mut k2: usize = 0;
                    while k2 < r.len()
                        invariant
                            k2 <= r@.len(),
                            l@.len() + r@.len() <= 7,
                            g@ =~= l@ + Seq::new((8 - l@.len() - r@.len()) as nat, |i: int| 0u16)
                                + r@.subrange(0, k2 as int),
                        decreases r@.len() - k2,
                    {
                        g.push(r[k2]);
                        k2 = k2 + 1;
                    }
                    proof {
                        assert(r@.subrange(0, r@.len() as int) =~= r@);
                        assert(l@.subrange(0, l@.len() as int) =~= l@);
                    }
                    Option::Some(g)
                } else {
                    Option::None
                }
            },
            _ => Option::None,
        }
    } else {
        match parse_groups(s, true) {
            Option::Some(g) => {
                if g.len() == 8 {
                    Option::Some(g)
                } else {
                    Option::None
                }
            },
            Option::None => Option::None,
        }
    }
}

/// Parses a textual IPv4 or IPv6 address into the address it denotes.
pub fn parse_ip_addr(s: &str) -> (r: Option<IpAddress>)
    ensures
        r == spec_parse_ip(s@),
{
    match parse_ipv4_str(s) {
        Option::Some(o) => Option::Some(IpAddress::V4(o.0, o.1, o.2, o.3)),
        Option::None => match parse_ipv6_str(s) {
            Option::Some(g) => Option::Some(
                IpAddress::V6(g[0], g[1], g[2], g[3], g[4], g[5], g[6], g[7]),
            ),
            Option::None => Option::None,
        },
    }
}

} // verus!
