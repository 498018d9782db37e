//! IP address literals: parsing (strict and browser-style) and the
//! classification used to keep search results away from local networks.
use crate::text::{
    bracket_pred, char_pred, chars_of, contains, contains_exec, find, find_exec, index_of_char,
    lemma_find_from_some, lemma_index_of_char, occurs_at, slice_of, split_char, split_char_exec,
    starts_with, starts_with_str, trim, trim_brackets, trim_brackets_exec, trim_exec, ws_pred,
};
use vstd::prelude::*;

verus! {

/// An IPv4 (four octets) or IPv6 (eight 16-bit segments) address.
#[derive(Clone, Copy, Debug)]
pub enum IpAddress {
    V4([u8; 4]),
    V6([u16; 8]),
}

/// The mathematical value of an address.
pub enum IpView {
    V4(Seq<u8>),
    V6(Seq<u16>),
}

impl View for IpAddress {
    type V = IpView;

    open spec fn view(&self) -> IpView {
        match self {
            IpAddress::V4(o) => IpView::V4(o@),
            IpAddress::V6(s) => IpView::V6(s@),
        }
    }
}

// ---------------------------------------------------------------------------
// Numbers
// ---------------------------------------------------------------------------

/// `char::to_digit(radix)` for radix up to 36.
pub open spec fn digit_val(c: char, radix: nat) -> Option<nat> {
    let v: int = if '0' <= c && c <= '9' {
        c as u32 - 48
    } else if 'a' <= c && c <= 'z' {
        c as u32 - 87
    } else if 'A' <= c && c <= 'Z' {
        c as u32 - 55
    } else {
        99
    };
    if v < radix {
        Some(v as nat)
    } else {
        None
    }
}

pub open spec fn all_digits(s: Seq<char>, radix: nat) -> bool {
    forall|i: int| 0 <= i < s.len() ==> #[trigger] digit_val(s[i], radix) is Some
}

/// The number the digits `s` denote in base `radix`.
pub open spec fn digits_value(s: Seq<char>, radix: nat) -> nat
    decreases s.len(),
{
    if s.len() == 0 {
        0
    } else {
        let d = match digit_val(s.last(), radix) {
            Some(v) => v,
            None => 0,
        };
        digits_value(s.drop_last(), radix) * radix + d
    }
}

/// `u32::from_str_radix`: an optional `+`, then at least one digit, value below 2^32.
pub open spec fn from_str_radix(s: Seq<char>, radix: nat) -> Option<u32> {
    let d = if s.len() > 0 && s[0] == '+' {
        s.drop_first()
    } else {
        s
    };
    if d.len() > 0 && all_digits(d, radix) && digits_value(d, radix) <= u32::MAX {
        Some(digits_value(d, radix) as u32)
    } else {
        None
    }
}

pub open spec fn all_octal(s: Seq<char>) -> bool {
    forall|i: int| 0 <= i < s.len() ==> '0' <= #[trigger] s[i] && s[i] <= '7'
}

/// Decimal, `0x` hex, or leading-zero octal, the way browsers read numbers in hosts.
pub open spec fn loose_u32(raw: Seq<char>) -> Option<u32> {
    let s = trim(raw);
    if s.len() == 0 {
        None
    } else if starts_with(s, "0x"@) || starts_with(s, "0X"@) {
        from_str_radix(s.skip(2), 16)
    } else if s.len() > 1 && s[0] == '0' && all_octal(s) {
        from_str_radix(s, 8)
    } else {
        from_str_radix(s, 10)
    }
}

// ---------------------------------------------------------------------------
// Textual forms
// ---------------------------------------------------------------------------

/// One dotted-decimal octet as `Ipv4Addr::from_str` reads it.
pub open spec fn strict_octet(p: Seq<char>) -> Option<u8> {
    if 1 <= p.len() <= 3 && all_digits(p, 10) && !(p.len() > 1 && p[0] == '0') && digits_value(
        p,
        10,
    ) <= 255 {
        Some(digits_value(p, 10) as u8)
    } else {
        None
    }
}

/// `Ipv4Addr::from_str`: exactly four strict octets separated by dots.
pub open spec fn strict_v4(s: Seq<char>) -> Option<Seq<u8>> {
    let parts = split_char(s, '.');
    if parts.len() == 4 && (forall|i: int| 0 <= i < 4 ==> #[trigger] strict_octet(parts[i]) is Some) {
        Some(Seq::new(4, |i: int| strict_octet(parts[i])->0))
    } else {
        None
    }
}

/// One IPv6 group: one to four hex digits.
pub open spec fn hex_group(p: Seq<char>) -> Option<u16> {
    if 1 <= p.len() <= 4 && all_digits(p, 16) {
        Some(digits_value(p, 16) as u16)
    } else {
        None
    }
}

pub open spec fn all_hex_groups(ps: Seq<Seq<char>>) -> bool {
    forall|i: int| 0 <= i < ps.len() ==> #[trigger] hex_group(ps[i]) is Some
}

pub open spec fn hex_values(ps: Seq<Seq<char>>) -> Seq<u16> {
    Seq::new(ps.len(), |i: int| hex_group(ps[i])->0)
}

/// The two segments an embedded IPv4 address fills.
pub open spec fn v4_as_groups(o: Seq<u8>) -> Seq<u16> {
    seq![(o[0] * 256 + o[1]) as u16, (o[2] * 256 + o[3]) as u16]
}

/// The segments of a colon-separated run of groups; when `allow_v4`, the last
/// part may be an embedded dotted IPv4 address.
pub open spec fn groups_of(ps: Seq<Seq<char>>, allow_v4: bool) -> Option<Seq<u16>> {
    if all_hex_groups(ps) {
        Some(hex_values(ps))
    } else if allow_v4 && ps.len() >= 1 && all_hex_groups(ps.drop_last()) && strict_v4(
        ps.last(),
    ) is Some {
        Some(hex_values(ps.drop_last()) + v4_as_groups(strict_v4(ps.last())->0))
    } else {
        None
    }
}

/// The colon-separated parts of one side of `::` (none when that side is empty).
pub open spec fn colon_parts(s: Seq<char>) -> Seq<Seq<char>> {
    if s.len() == 0 {
        Seq::empty()
    } else {
        split_char(s, ':')
    }
}

/// `Ipv6Addr::from_str`: eight groups, or a single `::` standing for at least
/// one zero group; an embedded IPv4 address may end the address.
pub open spec fn parse_v6(s: Seq<char>) -> Option<Seq<u16>> {
    match find(s, "::"@) {
        None => match groups_of(split_char(s, ':'), true) {
            Some(g) => if g.len() == 8 {
                Some(g)
            } else {
                None
            },
            None => None,
        },
        Some(i) => {
            let head = s.take(i);
            let tail = s.skip(i + 2);
            if contains(tail, "::"@) {
                None
            } else {
                match (groups_of(colon_parts(head), false), groups_of(colon_parts(tail), true)) {
                    (Some(h), Some(t)) => if h.len() + t.len() <= 7 {
                        Some(h + Seq::new((8 - h.len() - t.len()) as nat, |k: int| 0u16) + t)
                    } else {
                        None
                    },
                    _ => None,
                }
            }
        },
    }
}

/// `IpAddr::from_str`.
pub open spec fn parse_ip(s: Seq<char>) -> Option<IpView> {
    match strict_v4(s) {
        Some(o) => Some(IpView::V4(o)),
        None => match parse_v6(s) {
            Some(g) => Some(IpView::V6(g)),
            None => None,
        },
    }
}

/// `Ipv4Addr::from(u32)`.
pub open spec fn v4_from_u32(n: u32) -> Seq<u8> {
    seq![
        (n / 0x1000000) as u8,
        ((n / 0x10000) % 0x100) as u8,
        ((n / 0x100) % 0x100) as u8,
        (n % 0x100) as u8,
    ]
}

/// IPv4 the way browsers read hosts: dotted, one decimal/hex number, octal
/// parts, and short forms (`127.1` is `127.0.0.1`).
pub open spec fn browser_v4(host: Seq<char>) -> Option<Seq<u8>> {
    let h = trim_brackets(trim(host));
    if h.len() == 0 {
        None
    } else if strict_v4(h) is Some {
        strict_v4(h)
    } else if index_of_char(h, '.') is None {
        match loose_u32(h) {
            Some(n) => Some(v4_from_u32(n)),
            None => None,
        }
    } else {
        dotted_v4(split_char(h, '.'))
    }
}

/// The two-, three- and four-part dotted forms (`a.b` with a 24-bit `b`,
/// `a.b.c` with a 16-bit `c`, `a.b.c.d`), each part read by `loose_u32`.
pub open spec fn dotted_v4(parts: Seq<Seq<char>>) -> Option<Seq<u8>> {
    if parts.len() == 2 {
        match (loose_u32(parts[0]), loose_u32(parts[1])) {
            (Some(a), Some(b)) => if a <= 255 && b <= 0xFF_FFFF {
                Some(v4_from_u32((a * 0x100_0000 + b) as u32))
            } else {
                None
            },
            _ => None,
        }
    } else if parts.len() == 3 {
        match (loose_u32(parts[0]), loose_u32(parts[1]), loose_u32(parts[2])) {
            (Some(a), Some(b), Some(c)) => if a <= 255 && b <= 255 && c <= 0xFFFF {
                Some(v4_from_u32((a * 0x100_0000 + b * 0x1_0000 + c) as u32))
            } else {
                None
            },
            _ => None,
        }
    } else if parts.len() == 4 {
        if forall|i: int|
            0 <= i < 4 ==> #[trigger] loose_u32(parts[i]) is Some && loose_u32(parts[i])->0 <= 255 {
            Some(Seq::new(4, |i: int| loose_u32(parts[i])->0 as u8))
        } else {
            None
        }
    } else {
        None
    }
}

// ---------------------------------------------------------------------------
// Classification
// ---------------------------------------------------------------------------

pub open spec fn v4_loopback(o: Seq<u8>) -> bool {
    o[0] == 127
}

pub open spec fn v4_unspecified(o: Seq<u8>) -> bool {
    o[0] == 0 && o[1] == 0 && o[2] == 0 && o[3] == 0
}

pub open spec fn v4_link_local(o: Seq<u8>) -> bool {
    o[0] == 169 && o[1] == 254
}

pub open spec fn v4_private(o: Seq<u8>) -> bool {
    o[0] == 10 || (o[0] == 172 && 16 <= o[1] <= 31) || (o[0] == 192 && o[1] == 168)
}

pub open spec fn v4_broadcast(o: Seq<u8>) -> bool {
    o[0] == 255 && o[1] == 255 && o[2] == 255 && o[3] == 255
}

pub open spec fn v4_multicast(o: Seq<u8>) -> bool {
    224 <= o[0] <= 239
}

/// Loopback, unspecified, link-local, private, broadcast, multicast, `0/8` and `240/4`.
pub open spec fn v4_non_public(o: Seq<u8>) -> bool {
    v4_loopback(o) || v4_unspecified(o) || v4_link_local(o) || v4_private(o) || v4_broadcast(o)
        || v4_multicast(o) || o[0] == 0 || o[0] >= 240
}

pub open spec fn v6_loopback(s: Seq<u16>) -> bool {
    s[0] == 0 && s[1] == 0 && s[2] == 0 && s[3] == 0 && s[4] == 0 && s[5] == 0 && s[6] == 0 && s[7]
        == 1
}

pub open spec fn v6_unspecified(s: Seq<u16>) -> bool {
    s[0] == 0 && s[1] == 0 && s[2] == 0 && s[3] == 0 && s[4] == 0 && s[5] == 0 && s[6] == 0 && s[7]
        == 0
}

/// `fe80::/10`.
pub open spec fn v6_link_local(s: Seq<u16>) -> bool {
    0xfe80 <= s[0] <= 0xfebf
}

/// `fc00::/7`.
pub open spec fn v6_unique_local(s: Seq<u16>) -> bool {
    0xfc00 <= s[0] <= 0xfdff
}

/// `ff00::/8`.
pub open spec fn v6_multicast(s: Seq<u16>) -> bool {
    s[0] >= 0xff00
}

/// Loopback, unspecified, link-local, unique-local, multicast and the local-use
/// NAT64 prefix `64:ff9b:1::/48`.
pub open spec fn v6_non_public(s: Seq<u16>) -> bool {
    v6_loopback(s) || v6_unspecified(s) || v6_link_local(s) || v6_unique_local(s) || v6_multicast(
        s,
    ) || (s[0] == 0x64 && s[1] == 0xff9b && s[2] == 1)
}

/// The IPv4 address carried in the last 32 bits of an IPv4-mapped (`::ffff:0:0/96`),
/// NAT64 (`64:ff9b::/96`), `::ffff:0:a.b.c.d` or IPv4-compatible (`::/96`, not `::1`) address.
pub open spec fn embedded_v4(s: Seq<u16>) -> Option<Seq<u8>> {
    let v4 = seq![(s[6] / 256) as u8, (s[6] % 256) as u8, (s[7] / 256) as u8, (s[7] % 256) as u8];
    let zero5 = s[0] == 0 && s[1] == 0 && s[2] == 0 && s[3] == 0 && s[4] == 0;
    let mapped = zero5 && s[5] == 0xffff;
    let nat64 = s[0] == 0x64 && s[1] == 0xff9b && s[2] == 0 && s[3] == 0 && s[4] == 0 && s[5]
        == 0;
    let compat_mapped = s[0] == 0 && s[1] == 0 && s[2] == 0 && s[3] == 0 && s[4] == 0xffff && s[5]
        == 0;
    let compatible = zero5 && s[5] == 0 && !v6_loopback(s);
    if mapped || nat64 || compat_mapped || compatible {
        Some(v4)
    } else {
        None
    }
}

/// IPv6 addresses that carry an IPv4 address are judged as that IPv4 address.
pub open spec fn effective(ip: IpView) -> IpView {
    match ip {
        IpView::V6(s) => match embedded_v4(s) {
            Some(o) => IpView::V4(o),
            None => IpView::V6(s),
        },
        IpView::V4(o) => IpView::V4(o),
    }
}

/// The address a host names literally, in any form a browser accepts.
pub open spec fn host_ip(host: Seq<char>) -> Option<IpView> {
    let h = trim_brackets(trim(host));
    match parse_ip(h) {
        Some(ip) => Some(effective(ip)),
        None => match browser_v4(h) {
            Some(o) => Some(IpView::V4(o)),
            None => None,
        },
    }
}

pub open spec fn wf_ip(ip: IpView) -> bool {
    match ip {
        IpView::V4(o) => o.len() == 4,
        IpView::V6(s) => s.len() == 8,
    }
}

pub open spec fn ip_loopback(ip: IpView) -> bool {
    match ip {
        IpView::V4(o) => v4_loopback(o),
        IpView::V6(s) => v6_loopback(s),
    }
}

pub open spec fn ip_unspecified(ip: IpView) -> bool {
    match ip {
        IpView::V4(o) => v4_unspecified(o),
        IpView::V6(s) => v6_unspecified(s),
    }
}

pub open spec fn ip_link_local(ip: IpView) -> bool {
    match ip {
        IpView::V4(o) => v4_link_local(o),
        IpView::V6(s) => v6_link_local(s),
    }
}

pub open spec fn ip_non_public(ip: IpView) -> bool {
    match ip {
        IpView::V4(o) => v4_non_public(o),
        IpView::V6(s) => v6_non_public(s),
    }
}

/// `169.254.169.254` or AWS's `fd00:ec2::254`, also when embedded in IPv6.
pub open spec fn cloud_metadata_ip(ip: IpView) -> bool {
    match effective(ip) {
        IpView::V4(o) => o == seq![169u8, 254, 169, 254],
        IpView::V6(s) => s == seq![0xfd00u16, 0xec2, 0, 0, 0, 0, 0, 0x254],
    }
}

// ---------------------------------------------------------------------------
// Lemmas
// ---------------------------------------------------------------------------

pub proof fn lemma_digits_value_push(s: Seq<char>, c: char, radix: nat)
    ensures
        digits_value(s.push(c), radix) == digits_value(s, radix) * radix + match digit_val(
            c,
            radix,
        ) {
            Some(v) => v,
            None => 0,
        },
{
    assert(s.push(c).drop_last() =~= s);
}

pub proof fn lemma_digits_value_prefix_le(s: Seq<char>, radix: nat, i: int)
    requires
        radix >= 1,
        0 <= i <= s.len(),
    ensures
        digits_value(s.take(i), radix) <= digits_value(s, radix),
    decreases s.len(),
{
    if i < s.len() {
        let t = s.drop_last();
        lemma_digits_value_prefix_le(t, radix, i);
        assert(t.take(i) =~= s.take(i));
        let a = digits_value(t, radix);
        assert(a * radix >= a) by (nonlinear_arith)
            requires
                radix >= 1,
        ;
    } else {
        assert(s.take(i) =~= s);
    }
}

// ---------------------------------------------------------------------------
// Executable parsing
// ---------------------------------------------------------------------------

pub fn digit_val_exec(c: char, radix: u32) -> (r: Option<u32>)
    requires
        radix <= 36,
    ensures
        match r {
            Some(v) => digit_val(c, radix as nat) == Some(v as nat),
            None => digit_val(c, radix as nat) is None,
        },
{
    let v: u32 = if '0' <= c && c <= '9' {
        (c as u32) - 48
    } else if 'a' <= c && c <= 'z' {
        (c as u32) - 87
    } else if 'A' <= c && c <= 'Z' {
        (c as u32) - 55
    } else {
        99
    };
    if v < radix {
        Some(v)
    } else {
        None
    }
}

/// `u32::from_str_radix`.
pub fn from_str_radix_exec(s: &[char], radix: u32) -> (r: Option<u32>)
    requires
        2 <= radix <= 36,
    ensures
        r == from_str_radix(s@, radix as nat),
{
    let start: usize = if s.len() > 0 && s[0] == '+' {
        1
    } else {
        0
    };
    let ghost d = if s@.len() > 0 && s@[0] == '+' {
        s@.drop_first()
    } else {
        s@
    };
    assert(d =~= s@.skip(start as int));
    if start >= s.len() {
        return None;
    }
    let mut acc: u64 = 0;
    let mut i: usize = start;
    while i < s.len()
        invariant
            start <= i <= s@.len(),
            2 <= radix <= 36,
            d =~= s@.skip(start as int),
            d == (if s@.len() > 0 && s@[0] == '+' {
                s@.drop_first()
            } else {
                s@
            }),
            acc == digits_value(d.take(i - start), radix as nat),
            acc <= u32::MAX,
            all_digits(d.take(i - start), radix as nat),
        decreases s.len() - i,
    {
        let dv = digit_val_exec(s[i], radix);
        match dv {
            None => {
                proof {
                    assert(d[i - start] == s@[i as int]);
                    assert(digit_val(d[i - start], radix as nat) is None);
                    assert(!all_digits(d, radix as nat));
                }
                return None;
            },
            Some(v) => {
                proof {
                    assert(d.take(i - start + 1) =~= d.take(i - start).push(s@[i as int]));
                    lemma_digits_value_push(d.take(i - start), s@[i as int], radix as nat);
                    assert(acc * (radix as u64) <= 0xFFFF_FFFFu64 * 36) by (nonlinear_arith)
                        requires
                            acc <= u32::MAX,
                            radix <= 36,
                    ;
                    assert forall|k: int| 0 <= k < i - start + 1 implies #[trigger] digit_val(
                        d.take(i - start + 1)[k],
                        radix as nat,
                    ) is Some by {
                        if k < i - start {
                            assert(d.take(i - start + 1)[k] == d.take(i - start)[k]);
                        }
                    }
                }
                acc = acc * (radix as u64) + (v as u64);
                assert(acc == digits_value(d.take(i - start + 1), radix as nat));
                if acc > 0xFFFF_FFFFu64 {
                    proof {
                        if all_digits(d, radix as nat) {
                            lemma_digits_value_prefix_le(d, radix as nat, i - start + 1);
                        }
                    }
                    return None;
                }
            },
        }
        i = i + 1;
    }
    assert(d.take(i - start) =~= d);
    Some(acc as u32)
}

fn all_octal_exec(s: &[char]) -> (r: bool)
    ensures
        r == all_octal(s@),
{
    let mut i: usize = 0;
    while i < s.len()
        invariant
            i <= s@.len(),
            forall|k: int| 0 <= k < i ==> '0' <= #[trigger] s@[k] && s@[k] <= '7',
        decreases s.len() - i,
    {
        if !('0' <= s[i] && s[i] <= '7') {
            return false;
        }
        i = i + 1;
    }
    true
}

/// Decimal, `0x` hex, or leading-zero octal (browser-style).
pub fn parse_u32_loose(raw: &[char]) -> (r: Option<u32>)
    ensures
        r == loose_u32(raw@),
{
    let s = trim_exec(raw);
    if s.len() == 0 {
        return None;
    }
    proof {
        reveal_strlit("0x");
        reveal_strlit("0X");
    }
    if starts_with_str(s.as_slice(), "0x") || starts_with_str(s.as_slice(), "0X") {
        let rest = slice_of(s.as_slice(), 2, s.len());
        assert(rest@ =~= s@.skip(2));
        return from_str_radix_exec(rest.as_slice(), 16);
    }
    if s.len() > 1 && s[0] == '0' && all_octal_exec(s.as_slice()) {
        return from_str_radix_exec(s.as_slice(), 8);
    }
    from_str_radix_exec(s.as_slice(), 10)
}

fn strict_octet_exec(p: &[char]) -> (r: Option<u8>)
    ensures
        r == strict_octet(p@),
{
    if p.len() < 1 || p.len() > 3 {
        return None;
    }
    if p.len() > 1 && p[0] == '0' {
        return None;
    }
    if p[0] == '+' {
        proof {
            assert(digit_val(p@[0], 10) is None);
        }
        return None;
    }
    match from_str_radix_exec(p, 10) {
        Some(v) => if v <= 255 {
            Some(v as u8)
        } else {
            None
        },
        None => None,
    }
}

/// `Ipv4Addr::from_str`.
pub fn strict_v4_exec(s: &[char]) -> (r: Option<[u8; 4]>)
    ensures
        match r {
            Some(o) => strict_v4(s@) == Some(o@),
            None => strict_v4(s@) is None,
        },
{
    let parts = split_char_exec(s, '.');
    let ghost ps = split_char(s@, '.');
    assert(parts@.len() == ps.len());
    if parts.len() != 4 {
        return None;
    }
    assert forall|i: int| 0 <= i < 4 implies parts@[i]@ == ps[i] by {
        assert(parts@.map_values(|p: Vec<char>| p@)[i] == parts@[i]@);
    }
    let a = strict_octet_exec(parts[0].as_slice());
    let b = strict_octet_exec(parts[1].as_slice());
    let c = strict_octet_exec(parts[2].as_slice());
    let d = strict_octet_exec(parts[3].as_slice());
    match (a, b, c, d) {
        (Some(a), Some(b), Some(c), Some(d)) => {
            let o: [u8; 4] = [a, b, c, d];
            assert(o@ =~= seq![a, b, c, d]);
            proof {
                assert(strict_octet(ps[0]) == Some(a));
                assert(strict_octet(ps[1]) == Some(b));
                assert(strict_octet(ps[2]) == Some(c));
                assert(strict_octet(ps[3]) == Some(d));
                assert forall|i: int| 0 <= i < 4 implies #[trigger] strict_octet(ps[i]) is Some by {
                    if i == 0 {
                    } else if i == 1 {
                    } else if i == 2 {
                    } else {
                    }
                }
                assert(o@ =~= Seq::new(4, |i: int| strict_octet(ps[i])->0));
            }
            Some(o)
        },
        _ => None,
    }
}

fn hex_group_exec(p: &[char]) -> (r: Option<u16>)
    ensures
        r == hex_group(p@),
{
    if p.len() < 1 || p.len() > 4 {
        return None;
    }
    if p[0] == '+' {
        proof {
            assert(digit_val(p@[0], 16) is None);
        }
        return None;
    }
    proof {
        lemma_hex_value_bound(p@);
    }
    match from_str_radix_exec(p, 16) {
        Some(v) => Some(v as u16),
        None => None,
    }
}

proof fn lemma_hex_value_bound(p: Seq<char>)
    requires
        p.len() <= 4,
    ensures
        digits_value(p, 16) <= 0xFFFF,
    decreases p.len(),
{
    lemma_hex_value_bound_n(p, p.len() as nat);
    assert(pow16(0) == 1);
    assert(pow16(1) == 16);
    assert(pow16(2) == 256);
    assert(pow16(3) == 4096);
    assert(pow16(4) == 65536);
}

proof fn lemma_hex_value_bound_n(p: Seq<char>, n: nat)
    requires
        p.len() == n,
        n <= 4,
    ensures
        digits_value(p, 16) < pow16(n),
    decreases n,
{
    if n > 0 {
        lemma_hex_value_bound_n(p.drop_last(), (n - 1) as nat);
        let a = digits_value(p.drop_last(), 16);
        let d: nat = match digit_val(p.last(), 16) {
            Some(v) => v,
            None => 0,
        };
        assert(d < 16);
        let q = pow16((n - 1) as nat);
        assert(a * 16 + d < q * 16) by (nonlinear_arith)
            requires
                a < q,
                d < 16,
        ;
    }
}

spec fn pow16(n: nat) -> nat
    decreases n,
{
    if n == 0 {
        1
    } else {
        16 * pow16((n - 1) as nat)
    }
}

/// The segments of colon-separated parts (see `groups_of`).
fn groups_of_exec(ps: &Vec<Vec<char>>, allow_v4: bool) -> (r: Option<Vec<u16>>)
    ensures
        match r {
            Some(g) => groups_of(ps@.map_values(|p: Vec<char>| p@), allow_v4) == Some(g@),
            None => groups_of(ps@.map_values(|p: Vec<char>| p@), allow_v4) is None,
        },
{
    let ghost views = ps@.map_values(|p: Vec<char>| p@);
    let mut out: Vec<u16> = Vec::new();
    let mut i: usize = 0;
    while i < ps.len()
        invariant
            i <= ps@.len(),
            views == ps@.map_values(|p: Vec<char>| p@),
            all_hex_groups(views.take(i as int)),
            out@ == hex_values(views.take(i as int)),
        decreases ps.len() - i,
    {
        assert(views[i as int] == ps@[i as int]@);
        match hex_group_exec(ps[i].as_slice()) {
            Some(g) => {
                proof {
                    assert(views.take(i + 1) =~= views.take(i as int).push(views[i as int]));
                    assert forall|k: int| 0 <= k < i + 1 implies #[trigger] hex_group(
                        views.take(i + 1)[k],
                    ) is Some by {
                        if k < i {
                            assert(views.take(i + 1)[k] == views.take(i as int)[k]);
                        }
                    }
                    assert(hex_values(views.take(i + 1)) =~= out@.push(g));
                }
                out.push(g);
            },
            None => {
                if allow_v4 && i + 1 == ps.len() {
                    match strict_v4_exec(ps[i].as_slice()) {
                        Some(o) => {
                            proof {
                                assert(views.drop_last() =~= views.take(i as int));
                                assert(!all_hex_groups(views));
                                assert(views.last() == views[i as int]);
                            }
                            let hi: u16 = (o[0] as u16) * 256 + (o[1] as u16);
                            let lo: u16 = (o[2] as u16) * 256 + (o[3] as u16);
                            out.push(hi);
                            out.push(lo);
                            proof {
                                assert(out@ =~= hex_values(views.drop_last()) + v4_as_groups(
                                    o@,
                                ));
                            }
                            return Some(out);
                        },
                        None => {
                            proof {
                                assert(views.last() == views[i as int]);
                                assert(!all_hex_groups(views));
                            }
                            return None;
                        },
                    }
                } else {
                    proof {
                        assert(!all_hex_groups(views));
                        if allow_v4 && ps@.len() >= 1 {
                            assert(views.drop_last()[i as int] == views[i as int]);
                            assert(!all_hex_groups(views.drop_last()));
                        }
                    }
                    return None;
                }
            },
        }
        i = i + 1;
    }
    assert(views.take(i as int) =~= views);
    Some(out)
}

fn colon_parts_exec(s: &[char]) -> (r: Vec<Vec<char>>)
    ensures
        r@.map_values(|p: Vec<char>| p@) == colon_parts(s@),
{
    if s.len() == 0 {
        let r: Vec<Vec<char>> = Vec::new();
        assert(r@.map_values(|p: Vec<char>| p@) =~= Seq::<Seq<char>>::empty());
        r
    } else {
        split_char_exec(s, ':')
    }
}

fn pad_groups(h: &Vec<u16>, zeros: usize, t: &Vec<u16>) -> (all: Vec<u16>)
    ensures
        all@ == h@ + Seq::new(zeros as nat, |q: int| 0u16) + t@,
{
    let mut all: Vec<u16> = Vec::new();
    let mut k: usize = 0;
    while k < h.len()
        invariant
            k <= h@.len(),
            all@ == h@.take(k as int),
        decreases h.len() - k,
    {
        all.push(h[k]);
        assert(h@.take(k + 1) =~= h@.take(k as int).push(h@[k as int]));
        k = k + 1;
    }
    assert(h@.take(h@.len() as int) =~= h@);
    let mut z: usize = 0;
    while z < zeros
        invariant
            z <= zeros,
            all@ == h@ + Seq::new(z as nat, |q: int| 0u16),
        decreases zeros - z,
    {
        all.push(0);
        assert(h@ + Seq::new((z + 1) as nat, |q: int| 0u16) =~= (h@ + Seq::new(
            z as nat,
            |q: int| 0u16,
        )).push(0));
        z = z + 1;
    }
    let mut m: usize = 0;
    while m < t.len()
        invariant
            m <= t@.len(),
            all@ == h@ + Seq::new(zeros as nat, |q: int| 0u16) + t@.take(m as int),
        decreases t.len() - m,
    {
        all.push(t[m]);
        assert(t@.take(m + 1) =~= t@.take(m as int).push(t@[m as int]));
        assert(h@ + Seq::new(zeros as nat, |q: int| 0u16) + t@.take(m + 1) =~= (h@ + Seq::new(
            zeros as nat,
            |q: int| 0u16,
        ) + t@.take(m as int)).push(t@[m as int]));
        m = m + 1;
    }
    assert(t@.take(t@.len() as int) =~= t@);
    all
}

/// `Ipv6Addr::from_str`.
pub fn parse_v6_exec(s: &[char]) -> (r: Option<[u16; 8]>)
    ensures
        match r {
            Some(g) => parse_v6(s@) == Some(g@),
            None => parse_v6(s@) is None,
        },
{
    let dc = chars_of("::");
    proof {
        reveal_strlit("::");
    }
    match find_exec(s, dc.as_slice()) {
        None => {
            let parts = split_char_exec(s, ':');
            match groups_of_exec(&parts, true) {
                Some(g) => {
                    if g.len() == 8 {
                        let a: [u16; 8] = [g[0], g[1], g[2], g[3], g[4], g[5], g[6], g[7]];
                        assert(a@ =~= g@);
                        Some(a)
                    } else {
                        None
                    }
                },
                None => None,
            }
        },
        Some(i) => {
            proof {
                lemma_find_from_some(s@, dc@, 0);
                assert(dc@.len() == 2);
                assert(occurs_at(s@, dc@, i as int));
                assert(i + 2 <= s@.len());
            }
            let head = slice_of(s, 0, i);
            let len = s.len();
            assert(i + 2 <= len);
            let tail = slice_of(s, i + 2, len);
            assert(head@ =~= s@.take(i as int));
            assert(tail@ =~= s@.skip(i + 2));
            if contains_exec(tail.as_slice(), dc.as_slice()) {
                return None;
            }
            let hp = colon_parts_exec(head.as_slice());
            let tp = colon_parts_exec(tail.as_slice());
            let h = match groups_of_exec(&hp, false) {
                Some(h) => h,
                None => {
                    return None;
                },
            };
            let t = match groups_of_exec(&tp, true) {
                Some(t) => t,
                None => {
                    return None;
                },
            };
            if h.len() > 7 || t.len() > 7 - h.len() {
                return None;
            }
            let zeros: usize = 8 - h.len() - t.len();
            let all = pad_groups(&h, zeros, &t);
            assert(all@.len() == 8);
            let a: [u16; 8] = [all[0], all[1], all[2], all[3], all[4], all[5], all[6], all[7]];
            assert(a@ =~= all@);
            Some(a)
        },
    }
}

/// `IpAddr::from_str`.
pub fn parse_ip_exec(s: &[char]) -> (r: Option<IpAddress>)
    ensures
        match r {
            Some(ip) => parse_ip(s@) == Some(ip@),
            None => parse_ip(s@) is None,
        },
{
    match strict_v4_exec(s) {
        Some(o) => Some(IpAddress::V4(o)),
        None => match parse_v6_exec(s) {
            Some(g) => Some(IpAddress::V6(g)),
            None => None,
        },
    }
}

fn v4_from_u32_exec(n: u32) -> (r: [u8; 4])
    ensures
        r@ == v4_from_u32(n),
{
    let a: [u8; 4] = [
        (n / 0x1000000) as u8,
        ((n / 0x10000) % 0x100) as u8,
        ((n / 0x100) % 0x100) as u8,
        (n % 0x100) as u8,
    ];
    assert(a@ =~= v4_from_u32(n));
    a
}

/// Parse IPv4 the way browsers often do: decimal integer, hex, octal octets,
/// and short forms (`127.1` is `127.0.0.1`).
pub fn parse_browser_ipv4(host: &[char]) -> (r: Option<[u8; 4]>)
    ensures
        match r {
            Some(o) => browser_v4(host@) == Some(o@),
            None => browser_v4(host@) is None,
        },
{
    let t = trim_exec(host);
    let h = trim_brackets_exec(t.as_slice());
    if h.len() == 0 {
        return None;
    }
    if let Some(o) = strict_v4_exec(h.as_slice()) {
        return Some(o);
    }
    let mut has_dot = false;
    let mut q: usize = 0;
    while q < h.len()
        invariant
            q <= h@.len(),
            has_dot == (exists|k: int| 0 <= k < q && h@[k] == '.'),
        decreases h.len() - q,
    {
        if h[q] == '.' {
            has_dot = true;
        }
        q = q + 1;
    }
    proof {
        lemma_index_of_char(h@, '.');
    }
    if !has_dot {
        return match parse_u32_loose(h.as_slice()) {
            Some(n) => Some(v4_from_u32_exec(n)),
            None => None,
        };
    }
    let parts = split_char_exec(h.as_slice(), '.');
    dotted_v4_exec(&parts)
}

#[verifier::spinoff_prover]
#[verifier::rlimit(40)]
fn dotted_v4_exec(parts: &Vec<Vec<char>>) -> (r: Option<[u8; 4]>)
    ensures
        match r {
            Some(o) => dotted_v4(parts@.map_values(|p: Vec<char>| p@)) == Some(o@),
            None => dotted_v4(parts@.map_values(|p: Vec<char>| p@)) is None,
        },
{
    let ghost ps = parts@.map_values(|p: Vec<char>| p@);
    assert forall|i: int| 0 <= i < ps.len() implies parts@[i]@ == ps[i] by {}
    if parts.len() == 2 {
        let a = parse_u32_loose(parts[0].as_slice());
        let b = parse_u32_loose(parts[1].as_slice());
        match (a, b) {
            (Some(a), Some(b)) => {
                if a > 255 || b > 0x00FF_FFFF {
                    return None;
                }
                Some(v4_from_u32_exec(a * 0x100_0000 + b))
            },
            _ => None,
        }
    } else if parts.len() == 3 {
        let a = parse_u32_loose(parts[0].as_slice());
        let b = parse_u32_loose(parts[1].as_slice());
        let c = parse_u32_loose(parts[2].as_slice());
        match (a, b, c) {
            (Some(a), Some(b), Some(c)) => {
                if a > 255 || b > 255 || c > 0xFFFF {
                    return None;
                }
                Some(v4_from_u32_exec(a * 0x100_0000 + b * 0x1_0000 + c))
            },
            _ => None,
        }
    } else if parts.len() == 4 {
        let mut vals: Vec<u8> = Vec::new();
        let mut i: usize = 0;
        while i < 4
            invariant
                i <= 4,
                parts@.len() == 4,
                ps == parts@.map_values(|p: Vec<char>| p@),
                ps.len() == 4,
                vals@.len() == i,
                forall|k: int|
                    0 <= k < i ==> #[trigger] loose_u32(ps[k]) is Some && loose_u32(ps[k])->0
                        <= 255 && vals@[k] == loose_u32(ps[k])->0 as u8,
            decreases 4 - i,
        {
            assert(parts@[i as int]@ == ps[i as int]);
            let n = match parse_u32_loose(parts[i].as_slice()) {
                Some(n) => n,
                None => {
                    assert(!(loose_u32(ps[i as int]) is Some));
                    return None;
                },
            };
            if n > 255 {
                assert(!(loose_u32(ps[i as int]) is Some && loose_u32(ps[i as int])->0 <= 255));
                return None;
            }
            vals.push(n as u8);
            i = i + 1;
        }
        let octets: [u8; 4] = [vals[0], vals[1], vals[2], vals[3]];
        assert(octets@ =~= Seq::new(4, |i: int| loose_u32(ps[i])->0 as u8));
        Some(octets)
    } else {
        None
    }
}

/// IPv6 forms that carry a real IPv4 address in their last 32 bits.
pub fn decode_embedded_v4(s: &[u16; 8]) -> (r: Option<[u8; 4]>)
    ensures
        match r {
            Some(o) => embedded_v4(s@) == Some(o@),
            None => embedded_v4(s@) is None,
        },
{
    let zero5 = s[0] == 0 && s[1] == 0 && s[2] == 0 && s[3] == 0 && s[4] == 0;
    let mapped = zero5 && s[5] == 0xffff;
    let nat64 = s[0] == 0x64 && s[1] == 0xff9b && s[2] == 0 && s[3] == 0 && s[4] == 0 && s[5]
        == 0;
    let compat_mapped = s[0] == 0 && s[1] == 0 && s[2] == 0 && s[3] == 0 && s[4] == 0xffff && s[5]
        == 0;
    let loopback = zero5 && s[5] == 0 && s[6] == 0 && s[7] == 1;
    let compatible = zero5 && s[5] == 0 && !loopback;
    if mapped || nat64 || compat_mapped || compatible {
        let o: [u8; 4] = [(s[6] / 256) as u8, (s[6] % 256) as u8, (s[7] / 256) as u8, (s[7] % 256) as u8];
        assert(o@ =~= seq![
            (s@[6] / 256) as u8,
            (s@[6] % 256) as u8,
            (s@[7] / 256) as u8,
            (s@[7] % 256) as u8,
        ]);
        Some(o)
    } else {
        None
    }
}

/// Unmap embedded-IPv4 IPv6 forms so loopback/private checks apply to the IPv4 address.
pub fn effective_ip(ip: IpAddress) -> (r: IpAddress)
    ensures
        r@ == effective(ip@),
{
    match ip {
        IpAddress::V6(s) => match decode_embedded_v4(&s) {
            Some(o) => IpAddress::V4(o),
            None => IpAddress::V6(s),
        },
        IpAddress::V4(o) => IpAddress::V4(o),
    }
}

/// The address a host names literally: a standard IP literal (IPv4-in-IPv6 forms
/// unwrapped) or a browser-style IPv4 form.
pub fn parse_host_ip(host: &[char]) -> (r: Option<IpAddress>)
    ensures
        match r {
            Some(ip) => host_ip(host@) == Some(ip@),
            None => host_ip(host@) is None,
        },
{
    let t = trim_exec(host);
    let h = trim_brackets_exec(t.as_slice());
    match parse_ip_exec(h.as_slice()) {
        Some(ip) => Some(effective_ip(ip)),
        None => match parse_browser_ipv4(h.as_slice()) {
            Some(o) => Some(IpAddress::V4(o)),
            None => None,
        },
    }
}

pub fn is_loopback(ip: &IpAddress) -> (r: bool)
    ensures
        r == ip_loopback(ip@),
{
    match ip {
        IpAddress::V4(o) => o[0] == 127,
        IpAddress::V6(s) => s[0] == 0 && s[1] == 0 && s[2] == 0 && s[3] == 0 && s[4] == 0 && s[5]
            == 0 && s[6] == 0 && s[7] == 1,
    }
}

pub fn is_unspecified(ip: &IpAddress) -> (r: bool)
    ensures
        r == ip_unspecified(ip@),
{
    match ip {
        IpAddress::V4(o) => o[0] == 0 && o[1] == 0 && o[2] == 0 && o[3] == 0,
        IpAddress::V6(s) => s[0] == 0 && s[1] == 0 && s[2] == 0 && s[3] == 0 && s[4] == 0 && s[5]
            == 0 && s[6] == 0 && s[7] == 0,
    }
}

pub fn is_link_local(ip: &IpAddress) -> (r: bool)
    ensures
        r == ip_link_local(ip@),
{
    match ip {
        IpAddress::V4(o) => o[0] == 169 && o[1] == 254,
        IpAddress::V6(s) => 0xfe80 <= s[0] && s[0] <= 0xfebf,
    }
}

pub fn is_non_public(ip: &IpAddress) -> (r: bool)
    ensures
        r == ip_non_public(ip@),
{
    match ip {
        IpAddress::V4(o) => {
            let a = o[0];
            let b = o[1];
            a == 127 || (a == 0 && b == 0 && o[2] == 0 && o[3] == 0) || (a == 169 && b == 254)
                || a == 10 || (a == 172 && 16 <= b && b <= 31) || (a == 192 && b == 168) || (a
                == 255 && b == 255 && o[2] == 255 && o[3] == 255) || (224 <= a && a <= 239) || a
                == 0 || a >= 240
        },
        IpAddress::V6(s) => {
            let loopback = s[0] == 0 && s[1] == 0 && s[2] == 0 && s[3] == 0 && s[4] == 0 && s[5]
                == 0 && s[6] == 0 && s[7] == 1;
            let unspecified = s[0] == 0 && s[1] == 0 && s[2] == 0 && s[3] == 0 && s[4] == 0
                && s[5] == 0 && s[6] == 0 && s[7] == 0;
            loopback || unspecified || (0xfe80 <= s[0] && s[0] <= 0xfebf) || (0xfc00 <= s[0]
                && s[0] <= 0xfdff) || s[0] >= 0xff00 || (s[0] == 0x64 && s[1] == 0xff9b && s[2]
                == 1)
        },
    }
}

pub fn is_cloud_metadata_ip(ip: IpAddress) -> (r: bool)
    ensures
        r == cloud_metadata_ip(ip@),
{
    match effective_ip(ip) {
        IpAddress::V4(o) => {
            let r = o[0] == 169 && o[1] == 254 && o[2] == 169 && o[3] == 254;
            proof {
                if r {
                    assert(o@ =~= seq![169u8, 254, 169, 254]);
                }
            }
            r
        },
        IpAddress::V6(s) => {
            let r = s[0] == 0xfd00 && s[1] == 0xec2 && s[2] == 0 && s[3] == 0 && s[4] == 0 && s[5]
                == 0 && s[6] == 0 && s[7] == 0x254;
            proof {
                if r {
                    assert(s@ =~= seq![0xfd00u16, 0xec2, 0, 0, 0, 0, 0, 0x254]);
                }
            }
            r
        },
    }
}

} // verus!
