//! IP addresses: their text form, and which of them are private.

use vstd::prelude::*;

use crate::text::{char_texts, chars_of, dec_of, dec_value, decimal, has_char, law_decimal, law_splitting, lemma_joined_split, list_text, split, split_chars, sub_chars, Text};

verus! {

/// An IP address.
#[derive(Clone, Copy)]
pub enum IpAddress {
    V4([u8; 4]),
    V6([u16; 8]),
}

/// An IP address as its octets or its groups.
pub enum IpView {
    V4(Seq<u8>),
    V6(Seq<u16>),
}

impl IpAddress {
    /// The octets or the groups.
    pub open spec fn view(self) -> IpView {
        match self {
            IpAddress::V4(o) => IpView::V4(o@),
            IpAddress::V6(g) => IpView::V6(g@),
        }
    }

    /// Whether two addresses are the same.
    pub fn same(&self, other: &IpAddress) -> (r: bool)
        ensures
            r == (self@ == other@),
    {
        match (self, other) {
            (IpAddress::V4(a), IpAddress::V4(b)) => {
                let r = a[0] == b[0] && a[1] == b[1] && a[2] == b[2] && a[3] == b[3];
                assert(r ==> a@ =~= b@);
                r
            },
            (IpAddress::V6(a), IpAddress::V6(b)) => {
                let r = a[0] == b[0] && a[1] == b[1] && a[2] == b[2] && a[3] == b[3] && a[4] == b[4]
                    && a[5] == b[5] && a[6] == b[6] && a[7] == b[7];
                assert(r ==> a@ =~= b@);
                r
            },
            _ => false,
        }
    }
}

/// The number that four octets make, the first one most significant.
pub open spec fn octets_value(o: Seq<u8>) -> nat {
    (o[0] * 16777216 + o[1] * 65536 + o[2] * 256 + o[3]) as nat
}

/// The number that four octets make, the first one most significant.
pub fn value_of_octets(o: &[u8; 4]) -> (r: u32)
    ensures
        r == octets_value(o@),
{
    o[0] as u32 * 16777216 + o[1] as u32 * 65536 + o[2] as u32 * 256 + o[3] as u32
}

// ---- private ranges ----

/// The private IPv4 ranges: 0/8, 10/8, 127/8, 169.254/16, 172.16/12, 192.168/16, 100.64/10.
pub open spec fn private_v4(o: Seq<u8>) -> bool {
    ||| o[0] == 0
    ||| o[0] == 10
    ||| o[0] == 127
    ||| o[0] == 169 && o[1] == 254
    ||| o[0] == 172 && 16 <= o[1] <= 31
    ||| o[0] == 192 && o[1] == 168
    ||| o[0] == 100 && 64 <= o[1] <= 127
}

/// An IPv4 address in IPv6 clothing: `::ffff:a.b.c.d`.
pub open spec fn is_v4_mapped(g: Seq<u16>) -> bool {
    g[0] == 0 && g[1] == 0 && g[2] == 0 && g[3] == 0 && g[4] == 0 && g[5] == 0xffff
}

/// The octets of the last two groups.
pub open spec fn mapped_octets(g: Seq<u16>) -> Seq<u8> {
    seq![(g[6] / 256) as u8, (g[6] % 256) as u8, (g[7] / 256) as u8, (g[7] % 256) as u8]
}

/// The address `::` or `::1`.
pub open spec fn is_unspecified_or_loopback(g: Seq<u16>) -> bool {
    g[0] == 0 && g[1] == 0 && g[2] == 0 && g[3] == 0 && g[4] == 0 && g[5] == 0 && g[6] == 0 && g[7]
        <= 1
}

/// The private addresses: the private IPv4 ranges, also when mapped into IPv6; `::` and `::1`;
/// link-local `fe80::/10`; unique-local `fc00::/7`.
pub open spec fn is_private(ip: IpView) -> bool {
    match ip {
        IpView::V4(o) => private_v4(o),
        IpView::V6(g) => {
            ||| is_unspecified_or_loopback(g)
            ||| is_v4_mapped(g) && private_v4(mapped_octets(g))
            ||| 0xfe80 <= g[0] <= 0xfebf
            ||| 0xfc00 <= g[0] <= 0xfdff
        },
    }
}

/// Whether an IPv4 address is private.
fn is_private_v4(o: &[u8; 4]) -> (r: bool)
    ensures
        r == private_v4(o@),
{
    o[0] == 0 || o[0] == 10 || o[0] == 127 || (o[0] == 169 && o[1] == 254) || (o[0] == 172 && 16
        <= o[1] && o[1] <= 31) || (o[0] == 192 && o[1] == 168) || (o[0] == 100 && 64 <= o[1] && o[1]
        <= 127)
}

/// Whether an address is private.
pub fn is_private_ip(ip: IpAddress) -> (r: bool)
    ensures
        r == is_private(ip@),
{
    match ip {
        IpAddress::V4(o) => is_private_v4(&o),
        IpAddress::V6(g) => {
            let zeros = g[0] == 0 && g[1] == 0 && g[2] == 0 && g[3] == 0 && g[4] == 0;
            if zeros && g[5] == 0 && g[6] == 0 && g[7] <= 1 {
                return true;
            }
            if zeros && g[5] == 0xffff {
                let v4: [u8; 4] = [
                    (g[6] / 256) as u8,
                    (g[6] % 256) as u8,
                    (g[7] / 256) as u8,
                    (g[7] % 256) as u8,
                ];
                assert(v4@ =~= mapped_octets(g@));
                return is_private_v4(&v4);
            }
            (0xfe80 <= g[0] && g[0] <= 0xfebf) || (0xfc00 <= g[0] && g[0] <= 0xfdff)
        },
    }
}

// ---- hexadecimal numbers ----

/// The value of a hexadecimal digit.
pub open spec fn hex_digit(c: char) -> Option<nat> {
    if '0' <= c <= '9' {
        Some((c as nat - '0' as nat) as nat)
    } else if 'a' <= c <= 'f' {
        Some((c as nat - 'a' as nat + 10) as nat)
    } else if 'A' <= c <= 'F' {
        Some((c as nat - 'A' as nat + 10) as nat)
    } else {
        None
    }
}

/// The value of a run of hexadecimal digits; `None` if another character occurs.
pub open spec fn hex_value(t: Text) -> Option<nat>
    decreases t.len(),
{
    if t.len() == 0 {
        Some(0)
    } else {
        match (hex_value(t.drop_last()), hex_digit(t.last())) {
            (Some(v), Some(d)) => Some(v * 16 + d),
            _ => None,
        }
    }
}

/// The value of a hexadecimal digit.
fn hex_digit_of(c: char) -> (r: Option<u32>)
    ensures
        r is Some <==> hex_digit(c) is Some,
        r matches Some(d) ==> hex_digit(c) == Some(d as nat) && d <= 15,
{
    if '0' <= c && c <= '9' {
        Some(c as u32 - '0' as u32)
    } else if 'a' <= c && c <= 'f' {
        Some(c as u32 - 'a' as u32 + 10)
    } else if 'A' <= c && c <= 'F' {
        Some(c as u32 - 'A' as u32 + 10)
    } else {
        None
    }
}

proof fn lemma_hex_prefix(t: Text, n: int)
    requires
        0 <= n <= t.len(),
        hex_value(t) is Some,
    ensures
        hex_value(t.take(n)) is Some,
    decreases t.len(),
{
    if n < t.len() {
        lemma_hex_prefix(t.drop_last(), n);
        assert(t.drop_last().take(n) =~= t.take(n));
    } else {
        assert(t.take(n) =~= t);
    }
}

// ---- IPv4 ----

/// One part of a dotted address: up to three digits, at most 255, no leading zero.
pub open spec fn octet_value(t: Text) -> Option<u8> {
    match dec_value(t) {
        Some(v) => if 1 <= t.len() <= 3 && (t.len() > 1 ==> t[0] != '0') && v <= 255 {
            Some(v as u8)
        } else {
            None
        },
        None => None,
    }
}

/// A dotted IPv4 address.
pub open spec fn parse_v4(t: Text) -> Option<Seq<u8>> {
    let p = split(t, '.');
    if p.len() == 4 && octet_value(p[0]) is Some && octet_value(p[1]) is Some && octet_value(p[2])
        is Some && octet_value(p[3]) is Some {
        Some(
            seq![octet_value(p[0])->0, octet_value(p[1])->0, octet_value(p[2])->0, octet_value(
                p[3],
            )->0],
        )
    } else {
        None
    }
}

fn octet_of(t: &Vec<char>) -> (r: Option<u8>)
    ensures
        r == octet_value(t@),
{
    if t.len() < 1 || t.len() > 3 || (t.len() > 1 && t[0] == '0') {
        return None;
    }
    match dec_of(t, 255) {
        Some(v) => Some(v as u8),
        None => None,
    }
}

/// Reads a dotted IPv4 address.
pub fn v4_of(t: &Vec<char>) -> (r: Option<[u8; 4]>)
    ensures
        r is Some <==> parse_v4(t@) is Some,
        r matches Some(o) ==> parse_v4(t@) == Some(o@),
{
    let p = split_chars(t, '.');
    assert(char_texts(p@).len() == p@.len());
    if p.len() != 4 {
        return None;
    }
    assert forall|i: int| 0 <= i < 4 implies #[trigger] split(t@, '.')[i] == p@[i]@ by {
        assert(char_texts(p@)[i] == p@[i]@);
    }
    match (octet_of(&p[0]), octet_of(&p[1]), octet_of(&p[2]), octet_of(&p[3])) {
        (Some(a), Some(b), Some(c), Some(d)) => {
            let o: [u8; 4] = [a, b, c, d];
            assert(o@ =~= parse_v4(t@)->0);
            Some(o)
        },
        _ => None,
    }
}

// ---- IPv6 ----

/// One group of an IPv6 address: one to four hexadecimal digits.
pub open spec fn group_value(t: Text) -> Option<u16> {
    match hex_value(t) {
        Some(v) => if 1 <= t.len() <= 4 {
            Some(v as u16)
        } else {
            None
        },
        None => None,
    }
}

/// A list of groups; `None` if one of them is malformed.
pub open spec fn group_values(p: Seq<Text>) -> Option<Seq<u16>>
    decreases p.len(),
{
    if p.len() == 0 {
        Some(Seq::empty())
    } else {
        match (group_values(p.drop_last()), group_value(p.last())) {
            (Some(front), Some(g)) => Some(front.push(g)),
            _ => None,
        }
    }
}

/// The two groups of an IPv4 address that ends an IPv6 address.
pub open spec fn v4_groups(o: Seq<u8>) -> Seq<u16> {
    seq![(o[0] * 256 + o[1]) as u16, (o[2] * 256 + o[3]) as u16]
}

/// The groups on one side of `::`, or of a whole address. At the end an IPv4 address may stand
/// for the last two groups, where `dotted` allows it.
pub open spec fn side_groups(t: Text, dotted: bool) -> Option<Seq<u16>> {
    if t.len() == 0 {
        Some(Seq::empty())
    } else {
        let p = split(t, ':');
        if dotted && p.last().contains('.') {
            match (group_values(p.drop_last()), parse_v4(p.last())) {
                (Some(g), Some(o)) => Some(g + v4_groups(o)),
                _ => None,
            }
        } else {
            group_values(p)
        }
    }
}

/// The position of the first `::`, or the length where there is none.
pub open spec fn double_colon(t: Text) -> nat
    decreases t.len(),
{
    if t.len() < 2 {
        t.len()
    } else if t[0] == ':' && t[1] == ':' {
        0
    } else {
        1 + double_colon(t.drop_first())
    }
}

/// An IPv6 address: eight groups, of which a run of at least one may be written `::`.
pub open spec fn parse_v6(t: Text) -> Option<Seq<u16>> {
    let i = double_colon(t);
    if i == t.len() {
        match side_groups(t, true) {
            Some(g) => if g.len() == 8 {
                Some(g)
            } else {
                None
            },
            None => None,
        }
    } else {
        match (side_groups(t.take(i as int), false), side_groups(t.skip(i as int + 2), true)) {
            (Some(head), Some(tail)) => if head.len() + tail.len() <= 7 {
                Some(
                    head + Seq::new((8 - head.len() - tail.len()) as nat, |j: int| 0u16) + tail,
                )
            } else {
                None
            },
            _ => None,
        }
    }
}

/// An IP address in text.
pub open spec fn parse_ip(t: Text) -> Option<IpView> {
    match parse_v4(t) {
        Some(o) => Some(IpView::V4(o)),
        None => match parse_v6(t) {
            Some(g) => Some(IpView::V6(g)),
            None => None,
        },
    }
}

proof fn lemma_hex_bound(t: Text)
    requires
        hex_value(t) is Some,
        t.len() <= 4,
    ensures
        t.len() == 0 ==> hex_value(t)->0 == 0,
        t.len() == 1 ==> hex_value(t)->0 < 16,
        t.len() == 2 ==> hex_value(t)->0 < 256,
        t.len() == 3 ==> hex_value(t)->0 < 4096,
        hex_value(t)->0 < 65536,
    decreases t.len(),
{
    if t.len() > 0 {
        lemma_hex_bound(t.drop_last());
    }
}

fn group_of(t: &Vec<char>) -> (r: Option<u16>)
    ensures
        r == group_value(t@),
{
    if t.len() < 1 || t.len() > 4 {
        return None;
    }
    let mut v: u32 = 0;
    assert(t@.take(0) =~= Seq::<char>::empty());
    for i in 0..t.len()
        invariant
            t@.len() <= 4,
            hex_value(t@.take(i as int)) == Some(v as nat),
    {
        proof {
            assert(t@.take(i as int + 1).drop_last() =~= t@.take(i as int));
            lemma_hex_bound(t@.take(i as int));
            if hex_value(t@) is Some {
                lemma_hex_prefix(t@, i as int + 1);
            }
        }
        match hex_digit_of(t[i]) {
            Some(d) => {
                v = v * 16 + d;
            },
            None => {
                return None;
            },
        }
    }
    assert(t@.take(t@.len() as int) =~= t@);
    proof {
        lemma_hex_bound(t@);
    }
    Some(v as u16)
}

proof fn lemma_group_prefix(p: Seq<Text>, n: int)
    requires
        0 <= n <= p.len(),
        group_values(p) is Some,
    ensures
        group_values(p.take(n)) is Some,
    decreases p.len(),
{
    if n < p.len() {
        lemma_group_prefix(p.drop_last(), n);
        assert(p.drop_last().take(n) =~= p.take(n));
    } else {
        assert(p.take(n) =~= p);
    }
}

/// Reads the first `n` groups.
fn groups_of(p: &Vec<Vec<char>>, n: usize) -> (r: Option<Vec<u16>>)
    requires
        n <= p@.len(),
    ensures
        r is Some <==> group_values(char_texts(p@).take(n as int)) is Some,
        r matches Some(g) ==> group_values(char_texts(p@).take(n as int)) == Some(g@),
{
    let ghost all = char_texts(p@).take(n as int);
    let mut out: Vec<u16> = Vec::new();
    assert(all.take(0) =~= Seq::<Text>::empty());
    for i in 0..n
        invariant
            n <= p@.len(),
            all == char_texts(p@).take(n as int),
            group_values(all.take(i as int)) == Some(out@),
    {
        proof {
            assert(all.take(i as int + 1).drop_last() =~= all.take(i as int));
            assert(all[i as int] == p@[i as int]@);
            if group_values(all) is Some {
                lemma_group_prefix(all, i as int + 1);
            }
        }
        match group_of(&p[i]) {
            Some(g) => out.push(g),
            None => {
                return None;
            },
        }
    }
    assert(all.take(n as int) =~= all);
    Some(out)
}

fn side_of(t: &Vec<char>, dotted: bool) -> (r: Option<Vec<u16>>)
    ensures
        r is Some <==> side_groups(t@, dotted) is Some,
        r matches Some(g) ==> side_groups(t@, dotted) == Some(g@),
{
    if t.len() == 0 {
        return Some(Vec::new());
    }
    let p = split_chars(t, ':');
    let n: usize = p.len();
    let ghost ps = split(t@, ':');
    proof {
        assert(char_texts(p@).len() == p@.len());
        assert(char_texts(p@)[n - 1] == p@[n - 1]@);
        assert(ps.last() == p@[n - 1]@);
    }
    if dotted && has_char(&p[n - 1], '.') {
        assert(char_texts(p@).take(n - 1) =~= ps.drop_last());
        match (groups_of(&p, n - 1), v4_of(&p[n - 1])) {
            (Some(g), Some(o)) => {
                let mut out = g;
                let ghost front = out@;
                out.push(o[0] as u16 * 256 + o[1] as u16);
                out.push(o[2] as u16 * 256 + o[3] as u16);
                assert(out@ =~= front + v4_groups(o@));
                Some(out)
            },
            _ => None,
        }
    } else {
        assert(char_texts(p@).take(n as int) =~= ps);
        groups_of(&p, n)
    }
}

/// Finds the first `::`.
fn find_double_colon(t: &Vec<char>) -> (r: usize)
    ensures
        r == double_colon(t@),
        r <= t@.len(),
        r < t@.len() ==> r + 2 <= t@.len(),
{
    let mut i: usize = 0;
    assert(t@.skip(0) =~= t@);
    while i < t.len() && t.len() - i >= 2
        invariant
            i <= t@.len(),
            double_colon(t@) == i + double_colon(t@.skip(i as int)),
        decreases t@.len() - i,
    {
        if t[i] == ':' && t[i + 1] == ':' {
            return i;
        }
        assert(t@.skip(i as int).drop_first() =~= t@.skip(i as int + 1));
        i = i + 1;
    }
    t.len()
}

/// Eight groups as an array.
fn eight(g: &Vec<u16>) -> (r: [u16; 8])
    requires
        g@.len() == 8,
    ensures
        r@ == g@,
{
    let r: [u16; 8] = [g[0], g[1], g[2], g[3], g[4], g[5], g[6], g[7]];
    assert(r@ =~= g@);
    r
}

/// Reads an IPv6 address.
pub fn v6_of(t: &Vec<char>) -> (r: Option<[u16; 8]>)
    ensures
        r is Some <==> parse_v6(t@) is Some,
        r matches Some(g) ==> parse_v6(t@) == Some(g@),
{
    let i = find_double_colon(t);
    if i == t.len() {
        return match side_of(t, true) {
            Some(g) => if g.len() == 8 {
                Some(eight(&g))
            } else {
                None
            },
            None => None,
        };
    }
    let head_text = sub_chars(t, 0, i);
    let tail_text = sub_chars(t, i + 2, t.len());
    assert(head_text@ =~= t@.take(i as int));
    assert(tail_text@ =~= t@.skip(i as int + 2));
    match (side_of(&head_text, false), side_of(&tail_text, true)) {
        (Some(head), Some(tail)) => {
            if head.len() > 7 || tail.len() > 7 || head.len() + tail.len() > 7 {
                return None;
            }
            let zeros: usize = 8 - head.len() - tail.len();
            let mut out: Vec<u16> = Vec::new();
            for k in 0..head.len()
                invariant
                    out@ == head@.take(k as int),
            {
                out.push(head[k]);
                assert(head@.take(k as int + 1) =~= head@.take(k as int).push(head@[k as int]));
            }
            assert(head@.take(head@.len() as int) =~= head@);
            let ghost zs = Seq::new(zeros as nat, |j: int| 0u16);
            for k in 0..zeros
                invariant
                    zs == Seq::new(zeros as nat, |j: int| 0u16),
                    out@ == head@ + zs.take(k as int),
            {
                out.push(0);
                assert(zs.take(k as int + 1) =~= zs.take(k as int).push(0u16));
            }
            assert(zs.take(zeros as int) =~= zs);
            for k in 0..tail.len()
                invariant
                    out@ == head@ + zs + tail@.take(k as int),
            {
                out.push(tail[k]);
                assert(tail@.take(k as int + 1) =~= tail@.take(k as int).push(tail@[k as int]));
            }
            assert(tail@.take(tail@.len() as int) =~= tail@);
            Some(eight(&out))
        },
        _ => None,
    }
}

/// Reads an IP address.
pub fn ip_of(t: &Vec<char>) -> (r: Option<IpAddress>)
    ensures
        r is Some <==> parse_ip(t@) is Some,
        r matches Some(ip) ==> parse_ip(t@) == Some(ip@),
{
    match v4_of(t) {
        Some(o) => Some(IpAddress::V4(o)),
        None => match v6_of(t) {
            Some(g) => Some(IpAddress::V6(g)),
            None => None,
        },
    }
}

/// Reads an IP address.
pub fn parse_ip_text(s: &str) -> (r: Option<IpAddress>)
    ensures
        r is Some <==> parse_ip(s@) is Some,
        r matches Some(ip) ==> parse_ip(s@) == Some(ip@),
{
    ip_of(&chars_of(s))
}

// ---- laws ----

/// Four octets make a number below 2^32 by their place, and no two addresses make the same one.
pub proof fn law_octets_by_place(a: Seq<u8>, b: Seq<u8>)
    requires
        a.len() == 4,
        b.len() == 4,
    ensures
        octets_value(a) < 4_294_967_296,
        octets_value(a) / 16_777_216 == a[0],
        (octets_value(a) / 65_536) % 256 == a[1],
        (octets_value(a) / 256) % 256 == a[2],
        octets_value(a) % 256 == a[3],
        octets_value(a) == octets_value(b) ==> a == b,
{
    lemma_places(a[0] as int, a[1] as int, a[2] as int, a[3] as int);
    lemma_places(b[0] as int, b[1] as int, b[2] as int, b[3] as int);
    if octets_value(a) == octets_value(b) {
        assert(a[0] == b[0] && a[1] == b[1] && a[2] == b[2] && a[3] == b[3]);
        assert(a =~= b);
    }
}

proof fn lemma_places(p: int, q: int, r: int, s: int)
    requires
        0 <= p < 256,
        0 <= q < 256,
        0 <= r < 256,
        0 <= s < 256,
    ensures
        ({
            let n = p * 16_777_216 + q * 65_536 + r * 256 + s;
            &&& 0 <= n < 4_294_967_296
            &&& n / 16_777_216 == p
            &&& (n / 65_536) % 256 == q
            &&& (n / 256) % 256 == r
            &&& n % 256 == s
        }),
{
    let n = p * 16_777_216 + q * 65_536 + r * 256 + s;
    assert(n / 256 == p * 65_536 + q * 256 + r);
    assert(n / 65_536 == p * 256 + q);
}

/// The private IPv4 addresses by their numbers: 0.0.0.0 to 0.255.255.255, 10.0.0.0 to
/// 10.255.255.255, 100.64.0.0 to 100.127.255.255, 127.0.0.0 to 127.255.255.255, 169.254.0.0 to
/// 169.254.255.255, 172.16.0.0 to 172.31.255.255 and 192.168.0.0 to 192.168.255.255.
pub proof fn law_private_v4_ranges(o: Seq<u8>)
    requires
        o.len() == 4,
    ensures
        is_private(IpView::V4(o)) <==> ({
            let n = octets_value(o);
            ||| n < 16_777_216
            ||| 167_772_160 <= n < 184_549_376
            ||| 1_681_915_904 <= n < 1_686_110_208
            ||| 2_130_706_432 <= n < 2_147_483_648
            ||| 2_851_995_648 <= n < 2_852_061_184
            ||| 2_886_729_728 <= n < 2_887_778_304
            ||| 3_232_235_520 <= n < 3_232_301_056
        }),
{
}

/// An IPv4 address in IPv6 clothing is private exactly where the IPv4 address is.
pub proof fn law_mapped_addresses(a: u8, b: u8, c: u8, d: u8)
    ensures
        is_private(
            IpView::V6(
                seq![0u16, 0, 0, 0, 0, 0xffff, (a * 256 + b) as u16, (c * 256 + d) as u16],
            ),
        ) <==> is_private(IpView::V4(seq![a, b, c, d])),
{
    let g = seq![0u16, 0, 0, 0, 0, 0xffff, (a * 256 + b) as u16, (c * 256 + d) as u16];
    assert(mapped_octets(g) =~= seq![a, b, c, d]);
}

/// Of the other IPv6 addresses the unspecified one, the loopback, the link-local and the
/// unique-local ones are private: those from `fe80` to `febf` and from `fc00` to `fdff` in front.
pub proof fn law_private_v6_ranges(g: Seq<u16>)
    requires
        g.len() == 8,
        g[0] != 0 || g[1] != 0 || g[2] != 0 || g[3] != 0 || g[4] != 0 || g[5] != 65535,
    ensures
        is_private(IpView::V6(g)) <==> ({
            ||| 65_152 <= g[0] <= 65_215
            ||| 64_512 <= g[0] <= 65_023
            ||| g == seq![0u16, 0, 0, 0, 0, 0, 0, 0]
            ||| g == seq![0u16, 0, 0, 0, 0, 0, 0, 1]
        }),
{
    if is_unspecified_or_loopback(g) {
        if g[7] == 0 {
            assert(g =~= seq![0u16, 0, 0, 0, 0, 0, 0, 0]);
        } else {
            assert(g =~= seq![0u16, 0, 0, 0, 0, 0, 0, 1]);
        }
    }
}

/// A number in digits, without a zero in front of other digits, is that number in decimal.
proof fn lemma_digits_are_decimal(t: Text)
    requires
        dec_value(t) is Some,
        t.len() > 0,
        t.len() > 1 ==> t[0] != '0',
    ensures
        t == decimal(dec_value(t)->0),
    decreases t.len(),
{
    let n = dec_value(t)->0;
    let f = t.drop_last();
    if f.len() == 0 {
        assert(dec_value(f) == Some(0nat));
        assert(t =~= decimal(n));
    } else {
        assert(f[0] == t[0]);
        lemma_digits_are_decimal(f);
        let m = dec_value(f)->0;
        law_decimal(m);
        assert(m > 0) by {
            if m == 0 {
                assert(decimal(0)[0] == '0');
            }
        }
        assert(n / 10 == m);
        assert(t =~= decimal(n));
    }
}

/// Four numbers up to 255 in decimal with dots between them are the address with those octets,
/// and an address is written in no other way.
pub proof fn law_dotted_addresses(a: u8, b: u8, c: u8, d: u8, t: Text)
    ensures
        parse_v4(
            ((decimal(a as nat).push('.') + decimal(b as nat)).push('.') + decimal(c as nat)).push('.')
                + decimal(d as nat),
        ) == Some(seq![a, b, c, d]),
        parse_v4(t) == Some(seq![a, b, c, d]) ==> t == ((decimal(a as nat).push('.') + decimal(
            b as nat,
        )).push('.') + decimal(c as nat)).push('.') + decimal(d as nat),
        parse_v4(t) matches Some(o) ==> o.len() == 4,
{
    let p = seq![decimal(a as nat), decimal(b as nat), decimal(c as nat), decimal(d as nat)];
    lemma_dotted_text(p);
    law_decimal(a as nat);
    law_decimal(b as nat);
    law_decimal(c as nat);
    law_decimal(d as nat);
    assert forall|i: int| 0 <= i < p.len() implies !(#[trigger] p[i]).contains('.') by {
        if p[i].contains('.') {
            let j = choose|j: int| 0 <= j < p[i].len() && p[i][j] == '.';
            assert('0' <= p[i][j]);
        }
    }
    lemma_joined_split(p, '.');
    assert(parse_v4(list_text(p, '.')) == Some(seq![a, b, c, d]));
    if parse_v4(t) == Some(seq![a, b, c, d]) {
        let q = split(t, '.');
        let o = seq![a, b, c, d];
        law_splitting(t, q, '.');
        lemma_digits_are_decimal(q[0]);
        lemma_digits_are_decimal(q[1]);
        lemma_digits_are_decimal(q[2]);
        lemma_digits_are_decimal(q[3]);
        assert(o[0] == octet_value(q[0])->0 && o[1] == octet_value(q[1])->0 && o[2] == octet_value(
            q[2],
        )->0 && o[3] == octet_value(q[3])->0) by {
            assert(parse_v4(t)->0[0] == o[0] && parse_v4(t)->0[1] == o[1] && parse_v4(t)->0[2] == o[2]
                && parse_v4(t)->0[3] == o[3]);
        }
        assert(q =~= p);
    }
}

proof fn lemma_dotted_text(p: Seq<Text>)
    requires
        p.len() == 4,
    ensures
        list_text(p, '.') == ((p[0].push('.') + p[1]).push('.') + p[2]).push('.') + p[3],
{
    let p3 = p.drop_last();
    let p2 = p3.drop_last();
    let p1 = p2.drop_last();
    assert(list_text(p1, '.') == p[0]);
    assert(list_text(p2, '.') == p[0].push('.') + p[1]);
    assert(list_text(p3, '.') == (p[0].push('.') + p[1]).push('.') + p[2]);
}

/// Hexadecimal digits, in either case, read by their place. Another character makes no number.
pub proof fn law_hexadecimal(t: Text, c: char)
    ensures
        ({
            let n = c as u32;
            let d: int = if 48 <= n <= 57 {
                n - 48
            } else if 97 <= n <= 102 {
                n - 87
            } else if 65 <= n <= 70 {
                n - 55
            } else {
                -1
            };
            &&& d >= 0 ==> hex_value(t.push(c)) == (match hex_value(t) {
                Some(v) => Some((v * 16 + d) as nat),
                None => None,
            })
            &&& d < 0 ==> hex_value(t.push(c)) is None
        }),
        hex_value(Seq::empty()) == Some(0nat),
        hex_value(t) matches Some(v) ==> (1 <= t.len() <= 4 ==> group_value(t) == Some(v as u16) && v
            <= 65535),
        t.len() == 0 || t.len() > 4 ==> group_value(t) is None,
        hex_value(t) is None ==> group_value(t) is None,
{
    assert(t.push(c).drop_last() =~= t);
    if hex_value(t) is Some && t.len() <= 4 {
        lemma_hex_bound(t);
    }
}

/// The groups of texts, one for each.
proof fn lemma_group_list(p: Seq<Text>, g: Seq<u16>)
    requires
        p.len() == g.len(),
        forall|i: int| 0 <= i < p.len() ==> group_value(#[trigger] p[i]) == Some(g[i]),
    ensures
        group_values(p) == Some(g),
    decreases p.len(),
{
    if p.len() > 0 {
        assert forall|i: int| 0 <= i < p.drop_last().len() implies group_value(
            #[trigger] p.drop_last()[i],
        ) == Some(g.drop_last()[i]) by {
            assert(p.drop_last()[i] == p[i]);
        }
        lemma_group_list(p.drop_last(), g.drop_last());
        assert(group_value(p[p.len() - 1]) == Some(g[p.len() - 1]));
        assert(g.drop_last().push(g.last()) =~= g);
    } else {
        assert(g =~= Seq::empty());
    }
}

/// A group holds hexadecimal digits only.
proof fn lemma_group_chars(t: Text, i: int)
    requires
        hex_value(t) is Some,
        0 <= i < t.len(),
    ensures
        hex_digit(t[i]) is Some,
        t[i] != ':',
        t[i] != '.',
    decreases t.len(),
{
    if i < t.len() - 1 {
        lemma_group_chars(t.drop_last(), i);
    }
}

/// Groups with colons between them have no two colons in a row and none at an end.
proof fn lemma_colons(p: Seq<Text>)
    requires
        p.len() > 0,
        forall|i: int| 0 <= i < p.len() ==> group_value(#[trigger] p[i]) is Some,
    ensures
        ({
            let t = list_text(p, ':');
            &&& t.len() > 0
            &&& t[0] != ':'
            &&& t.last() != ':'
            &&& forall|i: int| 0 <= i < t.len() - 1 && #[trigger] t[i] == ':' ==> t[i + 1] != ':'
        }),
    decreases p.len(),
{
    let last = p.last();
    let t = list_text(p, ':');
    assert(group_value(p[p.len() - 1]) is Some);
    assert forall|j: int| 0 <= j < last.len() implies #[trigger] last[j] != ':' by {
        lemma_group_chars(last, j);
    }
    if p.len() > 1 {
        let f = p.drop_last();
        assert forall|i: int| 0 <= i < f.len() implies group_value(#[trigger] f[i]) is Some by {
            assert(f[i] == p[i]);
        }
        lemma_colons(f);
        let s = list_text(f, ':');
        assert(t == s.push(':') + last);
        assert forall|i: int| 0 <= i < t.len() - 1 && #[trigger] t[i] == ':' implies t[i + 1] != ':' by {
            if i + 1 < s.len() {
                assert(s[i] == ':');
            } else if i + 1 == s.len() {
                assert(t[i] == s.last());
            } else if i == s.len() {
                assert(t[i + 1] == last[0]);
            } else {
                assert(t[i] == last[i - s.len() - 1]);
            }
        }
        assert(t[0] == s[0]);
        assert(t.last() == last.last());
        assert(last[last.len() - 1] != ':');
    } else {
        assert(t == p[0]);
        assert(last[0] != ':');
        assert(last[last.len() - 1] != ':');
    }
}

/// Without two colons in a row there is no `::`; right behind such a text the first one stands.
proof fn lemma_double_colon(a: Text, b: Text)
    requires
        a.len() > 0 ==> a.last() != ':',
        forall|i: int| 0 <= i < a.len() - 1 && #[trigger] a[i] == ':' ==> a[i + 1] != ':',
    ensures
        double_colon(a) == a.len(),
        double_colon(a + seq![':', ':'] + b) == a.len(),
    decreases a.len(),
{
    let t = a + seq![':', ':'] + b;
    if a.len() > 0 {
        let r = a.drop_first();
        assert forall|i: int| 0 <= i < r.len() - 1 && #[trigger] r[i] == ':' implies r[i + 1] != ':' by {
            assert(a[i + 1] == ':');
        }
        lemma_double_colon(r, b);
        assert(t.drop_first() =~= r + seq![':', ':'] + b);
        if a.len() > 1 {
            assert(a[0] == ':' ==> a[1] != ':');
            assert(t[0] == a[0] && t[1] == a[1]);
        } else {
            assert(t[0] == a[0] && a[0] == a.last());
        }
    } else {
        assert(t[0] == ':' && t[1] == ':');
    }
}

proof fn lemma_side(p: Seq<Text>, g: Seq<u16>, dotted: bool)
    requires
        p.len() == g.len(),
        forall|i: int| 0 <= i < p.len() ==> group_value(#[trigger] p[i]) == Some(g[i]),
    ensures
        side_groups(list_text(p, ':'), dotted) == Some(g),
{
    if p.len() > 0 {
        lemma_colons(p);
        assert forall|i: int| 0 <= i < p.len() implies !(#[trigger] p[i]).contains(':') && !p[i].contains(
            '.',
        ) by {
            assert(group_value(p[i]) is Some);
            if p[i].contains(':') {
                let j = choose|j: int| 0 <= j < p[i].len() && p[i][j] == ':';
                lemma_group_chars(p[i], j);
            }
            if p[i].contains('.') {
                let j = choose|j: int| 0 <= j < p[i].len() && p[i][j] == '.';
                lemma_group_chars(p[i], j);
            }
        }
        lemma_joined_split(p, ':');
        assert(!p[p.len() - 1].contains('.'));
        lemma_group_list(p, g);
    } else {
        assert(g =~= Seq::empty());
    }
}

/// Eight groups with colons between them are the address with those groups; more or fewer are
/// none.
pub proof fn law_full_v6_addresses(p: Seq<Text>, g: Seq<u16>)
    requires
        p.len() == g.len(),
        p.len() > 0,
        forall|i: int| 0 <= i < p.len() ==> group_value(#[trigger] p[i]) == Some(g[i]),
    ensures
        p.len() == 8 ==> parse_v6(list_text(p, ':')) == Some(g),
        p.len() != 8 ==> parse_v6(list_text(p, ':')) is None,
{
    lemma_side(p, g, true);
    lemma_colons(p);
    lemma_double_colon(list_text(p, ':'), Seq::empty());
}

/// A double colon stands for as many zero groups as are missing, and for at least one.
#[verifier::spinoff_prover]
pub proof fn law_shortened_v6_addresses(
    p: Seq<Text>,
    head: Seq<u16>,
    q: Seq<Text>,
    tail: Seq<u16>,
    i: int,
)
    requires
        p.len() == head.len(),
        q.len() == tail.len(),
        forall|j: int| 0 <= j < p.len() ==> group_value(#[trigger] p[j]) == Some(head[j]),
        forall|j: int| 0 <= j < q.len() ==> group_value(#[trigger] q[j]) == Some(tail[j]),
    ensures
        ({
            let r = parse_v6(list_text(p, ':') + seq![':', ':'] + list_text(q, ':'));
            &&& head.len() + tail.len() > 7 ==> r is None
            &&& head.len() + tail.len() <= 7 ==> (r matches Some(g) && {
                &&& g.len() == 8
                &&& 0 <= i < head.len() ==> g[i] == head[i]
                &&& head.len() <= i < 8 - tail.len() ==> g[i] == 0
                &&& 8 - tail.len() <= i < 8 ==> g[i] == tail[i - (8 - tail.len())]
            })
        }),
{
    let a = list_text(p, ':');
    let b = list_text(q, ':');
    let t = a + seq![':', ':'] + b;
    lemma_side(p, head, false);
    lemma_side(q, tail, true);
    if p.len() > 0 {
        lemma_colons(p);
    }
    lemma_double_colon(a, b);
    assert(double_colon(t) == a.len());
    assert(t.take(a.len() as int) =~= a);
    assert(t.skip(a.len() as int + 2) =~= b);
    if head.len() + tail.len() <= 7 {
        let n = (8 - head.len() - tail.len()) as nat;
        let zeros = Seq::new(n, |j: int| 0u16);
        let g = head + zeros + tail;
        assert(parse_v6(t) == Some(g));
        assert(zeros.len() == n);
        assert(g.len() == 8);
        if head.len() <= i < 8 - tail.len() {
            assert(g[i] == zeros[i - head.len()]);
        }
    }
}

/// An IPv4 address may stand for the last two groups: its octets are their upper and lower
/// halves.
pub proof fn law_dotted_ends(a: u8, b: u8, c: u8, d: u8)
    ensures
        parse_v6(
            seq![':', ':'] + (((decimal(a as nat).push('.') + decimal(b as nat)).push('.') + decimal(
                c as nat,
            )).push('.') + decimal(d as nat)),
        ) == Some(
            seq![0u16, 0, 0, 0, 0, 0, (a * 256 + b) as u16, (c * 256 + d) as u16],
        ),
{
    let v = ((decimal(a as nat).push('.') + decimal(b as nat)).push('.') + decimal(c as nat)).push('.')
        + decimal(d as nat);
    let t = seq![':', ':'] + v;
    let none = Seq::<char>::empty();
    law_dotted_addresses(a, b, c, d, v);
    lemma_double_colon(none, v);
    assert(none + seq![':', ':'] + v =~= t);
    assert(t.take(0) =~= none);
    assert(t.skip(2) =~= v);
    lemma_dotted_chars(a, b, c, d);
    crate::text::lemma_split_whole(v, ':');
    assert(v[decimal(a as nat).len() as int] == '.');
    assert(v.contains('.'));
    assert(seq![v].drop_last() =~= Seq::<Text>::empty());
    assert(parse_v6(t)->0 =~= seq![
        0u16,
        0,
        0,
        0,
        0,
        0,
        (a * 256 + b) as u16,
        (c * 256 + d) as u16,
    ]);
}

proof fn lemma_dotted_chars(a: u8, b: u8, c: u8, d: u8)
    ensures
        !(((decimal(a as nat).push('.') + decimal(b as nat)).push('.') + decimal(c as nat)).push('.')
            + decimal(d as nat)).contains(':'),
{
    law_decimal(a as nat);
    law_decimal(b as nat);
    law_decimal(c as nat);
    law_decimal(d as nat);
    let x = decimal(a as nat).push('.') + decimal(b as nat);
    assert forall|i: int| 0 <= i < x.len() implies #[trigger] x[i] != ':' by {
        if i < decimal(a as nat).len() {
            assert(x[i] == decimal(a as nat)[i]);
        } else if i > decimal(a as nat).len() {
            assert(x[i] == decimal(b as nat)[i - decimal(a as nat).len() - 1]);
        }
    }
    let y = x.push('.') + decimal(c as nat);
    assert forall|i: int| 0 <= i < y.len() implies #[trigger] y[i] != ':' by {
        if i < x.len() {
            assert(y[i] == x[i]);
        } else if i > x.len() {
            assert(y[i] == decimal(c as nat)[i - x.len() - 1]);
        }
    }
    let z = y.push('.') + decimal(d as nat);
    assert forall|i: int| 0 <= i < z.len() implies #[trigger] z[i] != ':' by {
        if i < y.len() {
            assert(z[i] == y[i]);
        } else if i > y.len() {
            assert(z[i] == decimal(d as nat)[i - y.len() - 1]);
        }
    }
}

/// A text that is a dotted address is read as one, and any other as an IPv6 address, if it is one.
pub proof fn law_addresses_in_text(t: Text)
    ensures
        parse_v4(t) matches Some(o) ==> parse_ip(t) == Some(IpView::V4(o)),
        parse_v4(t) is None && parse_v6(t) is Some ==> parse_ip(t) == Some(
            IpView::V6(parse_v6(t)->0),
        ),
        parse_v4(t) is None && parse_v6(t) is None ==> parse_ip(t) is None,
{
}

/// An address says its own octets or groups.
pub proof fn law_what_addresses_say(o: [u8; 4], g: [u16; 8])
    ensures
        IpAddress::V4(o)@ == IpView::V4(o@),
        IpAddress::V6(g)@ == IpView::V6(g@),
{
}

} // verus!
