use vstd::prelude::*;
use crate::text::{
    ends_with, eq_chars, find_char, find_from, has_suffix, split_chars, split_on,
};

verus! {

pub open spec fn is_digit(c: char) -> bool {
    '0' <= c && c <= '9'
}

pub open spec fn is_hex_digit(c: char) -> bool {
    is_digit(c) || ('a' <= c && c <= 'f') || ('A' <= c && c <= 'F')
}

pub open spec fn hex_digit_value(c: char) -> int {
    if is_digit(c) {
        c as int - '0' as int
    } else if 'a' <= c && c <= 'f' {
        c as int - 'a' as int + 10
    } else {
        c as int - 'A' as int + 10
    }
}

/// Value of a string of decimal digits.
pub open spec fn dec_value(s: Seq<char>) -> int
    decreases s.len(),
{
    if s.len() == 0 {
        0
    } else {
        dec_value(s.drop_last()) * 10 + (s.last() as int - '0' as int)
    }
}

/// Value of a string of hexadecimal digits.
pub open spec fn hex_value(s: Seq<char>) -> int
    decreases s.len(),
{
    if s.len() == 0 {
        0
    } else {
        hex_value(s.drop_last()) * 16 + hex_digit_value(s.last())
    }
}

pub open spec fn all_digits(s: Seq<char>) -> bool {
    forall|i: int| 0 <= i < s.len() ==> is_digit(#[trigger] s[i])
}

/// One to three decimal digits without a leading zero, at most 255.
pub open spec fn is_dec_octet(s: Seq<char>) -> bool {
    &&& 1 <= s.len() <= 3
    &&& all_digits(s)
    &&& (s.len() == 1 || s[0] != '0')
    &&& dec_value(s) <= 255
}

/// One to four hexadecimal digits.
pub open spec fn is_hex_group(s: Seq<char>) -> bool {
    &&& 1 <= s.len() <= 4
    &&& forall|i: int| 0 <= i < s.len() ==> is_hex_digit(#[trigger] s[i])
}

/// A dotted-quad IPv4 literal in canonical decimal form.
pub open spec fn is_ipv4(h: Seq<char>) -> bool {
    quad_parts(split_on(h, '.'))
}

pub open spec fn quad_parts(p: Seq<Seq<char>>) -> bool {
    p.len() == 4 && forall|i: int| 0 <= i < 4 ==> is_dec_octet(#[trigger] p[i])
}

/// The first two octets of an IPv4 literal fall in a loopback, private,
/// link-local or unspecified range.
pub open spec fn ipv4_range_blocked(a: int, b: int) -> bool {
    a == 0 || a == 10 || a == 127 || (a == 169 && b == 254) || (a == 172 && 16 <= b <= 31) || (
    a == 192 && b == 168)
}

/// The last dot-separated label is numeric, so a browser reads the host as an
/// IPv4 address.
pub open spec fn numeric_tail(h: Seq<char>) -> bool {
    let p = split_on(h, '.');
    let t = p.last();
    p.len() >= 1 && ((t.len() > 0 && all_digits(t)) || (t.len() >= 2 && t[0] == '0' && (t[1]
        == 'x' || t[1] == 'X')))
}

pub open spec fn ipv4_blocked(h: Seq<char>) -> bool {
    if is_ipv4(h) {
        let p = split_on(h, '.');
        ipv4_range_blocked(dec_value(p[0]), dec_value(p[1]))
    } else {
        numeric_tail(h)
    }
}

/// An IPv6 literal (it holds a colon) whose first group is zero (loopback,
/// unspecified, IPv4-mapped), unique-local (fc00::/7), link-local
/// (fe80::/10), or not a group of hex digits at all.
pub open spec fn ipv6_blocked(h: Seq<char>) -> bool {
    let g = split_on(h, ':')[0];
    find_from(h, 0, ':') < h.len() && (!is_hex_group(g) || hex_value(g) == 0 || (0xfc00
        <= hex_value(g) <= 0xfdff) || (0xfe80 <= hex_value(g) <= 0xfebf))
}

/// A host that names this machine or a private network.
pub open spec fn is_local_host(h: Seq<char>) -> bool {
    h == "localhost"@ || ends_with(h, ".localhost"@) || ipv4_blocked(h) || ipv6_blocked(h)
}

pub proof fn lemma_split_nonempty(s: Seq<char>, d: char)
    ensures
        split_on(s, d).len() >= 1,
    decreases s.len(),
{
    reveal_with_fuel(split_on, 1);
    let k = find_from(s, 0, d);
    if !(k < 0 || k >= s.len()) {
        lemma_split_nonempty(s.subrange(k + 1, s.len() as int), d);
    }
}

fn all_digit_chars(s: &[char]) -> (r: bool)
    ensures
        r == all_digits(s@),
{
    let mut i: usize = 0;
    while i < s.len()
        invariant
            i <= s@.len(),
            forall|k: int| 0 <= k < i ==> is_digit(#[trigger] s@[k]),
        decreases s@.len() - i,
    {
        if !('0' <= s[i] && s[i] <= '9') {
            return false;
        }
        i = i + 1;
    }
    true
}

/// Value of an octet of at most three digits.
fn small_dec_value(s: &[char]) -> (r: u32)
    requires
        s@.len() <= 3,
        all_digits(s@),
    ensures
        r == dec_value(s@),
{
    let mut v: u32 = 0;
    let mut i: usize = 0;
    while i < s.len()
        invariant
            i <= s@.len() <= 3,
            all_digits(s@),
            v == dec_value(s@.subrange(0, i as int)),
            v < 1000,
            i == 0 ==> v == 0,
            i == 1 ==> v < 10,
            i == 2 ==> v < 100,
        decreases s@.len() - i,
    {
        assert(s@.subrange(0, i + 1).drop_last() =~= s@.subrange(0, i as int));
        assert(is_digit(s@[i as int]));
        v = v * 10 + (s[i] as u32 - '0' as u32);
        i = i + 1;
    }
    assert(s@.subrange(0, i as int) =~= s@);
    v
}

fn dec_octet(s: &[char]) -> (r: Option<u32>)
    ensures
        r is Some <==> is_dec_octet(s@),
        r matches Some(v) ==> v == dec_value(s@),
{
    if s.len() < 1 || s.len() > 3 || !all_digit_chars(s) {
        return None;
    }
    if s.len() > 1 && s[0] == '0' {
        return None;
    }
    let v = small_dec_value(s);
    if v > 255 {
        None
    } else {
        Some(v)
    }
}

fn hex_digit_val(c: char) -> (r: Option<u32>)
    ensures
        r is Some <==> is_hex_digit(c),
        r matches Some(v) ==> v == hex_digit_value(c) && v < 16,
{
    if '0' <= c && c <= '9' {
        Some(c as u32 - '0' as u32)
    } else if 'a' <= c && c <= 'f' {
        Some(c as u32 - 'a' as u32 + 10)
    } else if 'A' <= c && c <= 'F' {
        Some(c as u32 - 'A' as u32 + 10)
    } else {
        None
    }
}

fn hex_group(s: &[char]) -> (r: Option<u32>)
    ensures
        r is Some <==> is_hex_group(s@),
        r matches Some(v) ==> v == hex_value(s@),
{
    if s.len() < 1 || s.len() > 4 {
        return None;
    }
    let mut v: u32 = 0;
    let mut i: usize = 0;
    while i < s.len()
        invariant
            1 <= s@.len() <= 4,
            i <= s@.len(),
            forall|k: int| 0 <= k < i ==> is_hex_digit(#[trigger] s@[k]),
            v == hex_value(s@.subrange(0, i as int)),
            i == 0 ==> v == 0,
            i == 1 ==> v < 16,
            i == 2 ==> v < 256,
            i == 3 ==> v < 4096,
            i == 4 ==> v < 65536,
        decreases s@.len() - i,
    {
        match hex_digit_val(s[i]) {
            Some(d) => {
                assert(s@.subrange(0, i + 1).drop_last() =~= s@.subrange(0, i as int));
                v = v * 16 + d;
            },
            None => {
                return None;
            },
        }
        i = i + 1;
    }
    assert(s@.subrange(0, i as int) =~= s@);
    Some(v)
}

fn is_ipv4_literal(h: &[char]) -> (r: Option<(u32, u32)>)
    ensures
        r is Some <==> is_ipv4(h@),
        r matches Some(ab) ==> ab.0 == dec_value(split_on(h@, '.')[0]) && ab.1 == dec_value(
            split_on(h@, '.')[1],
        ),
{
    let parts = split_chars(h, '.');
    let ghost p = split_on(h@, '.');
    assert(parts@.len() == p.len());
    if parts.len() != 4 {
        return None;
    }
    let mut i: usize = 0;
    let mut a: u32 = 0;
    let mut b: u32 = 0;
    while i < 4
        invariant
            p == split_on(h@, '.'),
            parts@.map_values(|q: Vec<char>| q@) == p,
            parts@.len() == 4,
            i <= 4,
            forall|k: int| 0 <= k < i ==> is_dec_octet(#[trigger] p[k]),
            i > 0 ==> a == dec_value(p[0]),
            i > 1 ==> b == dec_value(p[1]),
        decreases 4 - i,
    {
        assert(parts@[i as int]@ == p[i as int]);
        match dec_octet(parts[i].as_slice()) {
            Some(v) => {
                if i == 0 {
                    a = v;
                } else if i == 1 {
                    b = v;
                }
            },
            None => {
                assert(!is_dec_octet(p[i as int]));
                return None;
            },
        }
        i = i + 1;
    }
    Some((a, b))
}

fn numeric_tail_check(h: &[char]) -> (r: bool)
    ensures
        r == numeric_tail(h@),
{
    let parts = split_chars(h, '.');
    let ghost p = split_on(h@, '.');
    proof {
        lemma_split_nonempty(h@, '.');
    }
    assert(parts@.len() == p.len());
    let t = &parts[parts.len() - 1];
    assert(t@ == p.last());
    (t.len() > 0 && all_digit_chars(t.as_slice())) || (t.len() >= 2 && t[0] == '0' && (t[1]
        == 'x' || t[1] == 'X'))
}

fn ipv6_check(h: &[char]) -> (r: bool)
    ensures
        r == ipv6_blocked(h@),
{
    let c = find_char(h, 0, ':');
    if c >= h.len() {
        return false;
    }
    let parts = split_chars(h, ':');
    proof {
        lemma_split_nonempty(h@, ':');
    }
    assert(parts@.map_values(|q: Vec<char>| q@)[0] == parts@[0]@);
    match hex_group(parts[0].as_slice()) {
        None => true,
        Some(g) => g == 0 || (0xfc00 <= g && g <= 0xfdff) || (0xfe80 <= g && g <= 0xfebf),
    }
}

/// Whether `h` (already in lower case) names this machine or a private
/// network.
pub fn is_private_or_local_host(h: &[char]) -> (r: bool)
    ensures
        r == is_local_host(h@),
{
    let localhost: Vec<char> = vec!['l', 'o', 'c', 'a', 'l', 'h', 'o', 's', 't'];
    let dot_localhost: Vec<char> = vec!['.', 'l', 'o', 'c', 'a', 'l', 'h', 'o', 's', 't'];
    proof {
        reveal_strlit("localhost");
        reveal_strlit(".localhost");
        assert(localhost@ =~= "localhost"@);
        assert(dot_localhost@ =~= ".localhost"@);
    }
    if eq_chars(h, localhost.as_slice()) || has_suffix(h, dot_localhost.as_slice()) {
        return true;
    }
    let v4 = match is_ipv4_literal(h) {
        Some((a, b)) => a == 0 || a == 10 || a == 127 || (a == 169 && b == 254) || (a == 172 && 16
            <= b && b <= 31) || (a == 192 && b == 168),
        None => numeric_tail_check(h),
    };
    v4 || ipv6_check(h)
}

} // verus!
