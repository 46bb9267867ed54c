use vstd::prelude::*;
use vstd::string::StringExecFns;

use crate::config_types::InetType;

verus! {

/// An IP address, stored as its numeric parts: four octets for IPv4,
/// eight 16-bit groups for IPv6.
#[derive(Debug, Clone, Copy, PartialEq, Eq, Structural)]
pub enum IpAddress {
    V4(u8, u8, u8, u8),
    V6(u16, u16, u16, u16, u16, u16, u16, u16),
}

impl IpAddress {
    /// The family this address belongs to.
    pub open spec fn family(self) -> InetType {
        if self is V4 {
            InetType::Ipv4
        } else {
            InetType::Ipv6
        }
    }

    pub fn is_ipv4(&self) -> (r: bool)
        ensures
            r == (self is V4),
    {
        match self {
            IpAddress::V4(..) => true,
            IpAddress::V6(..) => false,
        }
    }

    pub fn is_ipv6(&self) -> (r: bool)
        ensures
            r == (self is V6),
    {
        match self {
            IpAddress::V4(..) => false,
            IpAddress::V6(..) => true,
        }
    }

    /// The all-zero address of a family: `0.0.0.0` or `::`.
    pub open spec fn spec_unspecified(t: InetType) -> IpAddress {
        match t {
            InetType::Ipv4 => IpAddress::V4(0, 0, 0, 0),
            InetType::Ipv6 => IpAddress::V6(0, 0, 0, 0, 0, 0, 0, 0),
        }
    }

    pub fn unspecified(t: InetType) -> (r: IpAddress)
        ensures
            r == IpAddress::spec_unspecified(t),
    {
        match t {
            InetType::Ipv4 => IpAddress::V4(0, 0, 0, 0),
            InetType::Ipv6 => IpAddress::V6(0, 0, 0, 0, 0, 0, 0, 0),
        }
    }
}

proof fn lemma_digits_value_congruent(s: Seq<char>, t: Seq<char>, off: int, n: int)
    requires
        0 <= n,
        0 <= off,
        off + n <= s.len(),
        n <= t.len(),
        forall|k: int| 0 <= k < n ==> s[off + k] == t[k],
    ensures
        digits_value(s, off, off + n) == digits_value(t, 0, n),
    decreases n,
{
    if n > 0 {
        lemma_digits_value_congruent(s, t, off, n - 1);
    }
}

proof fn lemma_hex_value_congruent(s: Seq<char>, t: Seq<char>, off: int, n: int)
    requires
        0 <= n,
        0 <= off,
        off + n <= s.len(),
        n <= t.len(),
        forall|k: int| 0 <= k < n ==> s[off + k] == t[k],
    ensures
        hex_value(s, off, off + n) == hex_value(t, 0, n),
    decreases n,
{
    if n > 0 {
        lemma_hex_value_congruent(s, t, off, n - 1);
    }
}

proof fn lemma_scan_digits_stops(s: Seq<char>, i: int, j: int)
    requires
        0 <= i <= j <= s.len(),
        forall|k: int| i <= k < j ==> is_digit(s[k]),
        j == s.len() || !is_digit(s[j]),
    ensures
        scan_digits_end(s, i) == j,
    decreases j - i,
{
    if i < j {
        lemma_scan_digits_stops(s, i + 1, j);
    }
}

proof fn lemma_scan_hex_stops(s: Seq<char>, i: int, j: int)
    requires
        0 <= i <= j <= s.len(),
        forall|k: int| i <= k < j ==> is_hex_digit(s[k]),
        j == s.len() || !is_hex_digit(s[j]),
    ensures
        scan_hex_end(s, i) == j,
    decreases j - i,
{
    if i < j {
        lemma_scan_hex_stops(s, i + 1, j);
    }
}

/// What the decimal writing of a number is made of: digits alone, with
/// no surplus leading zero, as many as the number needs.
pub(crate) proof fn lemma_dec_digits_shape(n: int)
    requires
        0 <= n,
    ensures
        crate::text::dec_digits(n).len() >= 1,
        forall|k: int|
            0 <= k < crate::text::dec_digits(n).len() ==> is_digit(
                #[trigger] crate::text::dec_digits(n)[k],
            ),
        digits_value(crate::text::dec_digits(n), 0, crate::text::dec_digits(n).len() as int) == n,
        n >= 1 ==> crate::text::dec_digits(n)[0] != '0',
        n <= 9 ==> crate::text::dec_digits(n).len() == 1,
        n <= 99 ==> crate::text::dec_digits(n).len() <= 2,
        n <= 999 ==> crate::text::dec_digits(n).len() <= 3,
    decreases n,
{
    let d = crate::text::dec_digits(n);
    if n < 10 {
        assert(digits_value(d, 0, 1) == digits_value(d, 0, 0) * 10 + digit_val(d[0]));
    } else {
        lemma_dec_digits_shape(n / 10);
        let p = crate::text::dec_digits(n / 10);
        assert(d == p + seq![crate::text::spec_digit_char(n % 10)]);
        assert(forall|k: int| 0 <= k < p.len() ==> d[k] == p[k]);
        lemma_digits_value_congruent(d, p, 0, p.len() as int);
        assert(digits_value(d, 0, d.len() as int) == digits_value(d, 0, d.len() - 1) * 10
            + digit_val(d[d.len() - 1]));
    }
}

/// What the hex writing of a group is made of: hex digits alone, as
/// many as the group needs, and at most four for a 16-bit group.
proof fn lemma_hex_digits_shape(n: int)
    requires
        0 <= n,
    ensures
        crate::text::hex_digits(n).len() >= 1,
        forall|k: int|
            0 <= k < crate::text::hex_digits(n).len() ==> is_hex_digit(
                #[trigger] crate::text::hex_digits(n)[k],
            ),
        hex_value(crate::text::hex_digits(n), 0, crate::text::hex_digits(n).len() as int) == n,
        n <= 15 ==> crate::text::hex_digits(n).len() == 1,
        n <= 255 ==> crate::text::hex_digits(n).len() <= 2,
        n <= 4095 ==> crate::text::hex_digits(n).len() <= 3,
        n <= 0xffff ==> crate::text::hex_digits(n).len() <= 4,
        forall|k: int|
            0 <= k < crate::text::hex_digits(n).len() ==> #[trigger] crate::text::hex_digits(
                n,
            )[k] != '.' && crate::text::hex_digits(n)[k] != ':',
    decreases n,
{
    let d = crate::text::hex_digits(n);
    if n < 16 {
        assert(hex_value(d, 0, 1) == hex_value(d, 0, 0) * 16 + hex_val(d[0]));
    } else {
        lemma_hex_digits_shape(n / 16);
        let p = crate::text::hex_digits(n / 16);
        assert(d == p + seq![crate::text::spec_hex_digit_char(n % 16)]);
        assert(forall|k: int| 0 <= k < p.len() ==> d[k] == p[k]);
        lemma_hex_value_congruent(d, p, 0, p.len() as int);
        assert(hex_value(d, 0, d.len() as int) == hex_value(d, 0, d.len() - 1) * 16 + hex_val(
            d[d.len() - 1],
        ));
    }
}

/// The text an address prints as: dotted decimal for IPv4, eight
/// colon-separated lower-case hex groups for IPv6, written out in full.
pub open spec fn spec_ip_text(a: IpAddress) -> Seq<char> {
    match a {
        IpAddress::V4(x, y, z, w) => crate::text::dec_digits(x as int) + "."@
            + crate::text::dec_digits(y as int) + "."@ + crate::text::dec_digits(z as int) + "."@
            + crate::text::dec_digits(w as int),
        IpAddress::V6(g0, g1, g2, g3, g4, g5, g6, g7) => crate::text::hex_digits(g0 as int) + ":"@
            + crate::text::hex_digits(g1 as int) + ":"@ + crate::text::hex_digits(g2 as int)
            + ":"@ + crate::text::hex_digits(g3 as int) + ":"@ + crate::text::hex_digits(
            g4 as int,
        ) + ":"@ + crate::text::hex_digits(g5 as int) + ":"@ + crate::text::hex_digits(g6 as int)
            + ":"@ + crate::text::hex_digits(g7 as int),
    }
}

/// The text of a run of IPv6 groups, colon-separated.
pub open spec fn groups_text(gs: Seq<u16>) -> Seq<char>
    decreases gs.len(),
{
    if gs.len() == 0 {
        Seq::empty()
    } else if gs.len() == 1 {
        crate::text::hex_digits(gs[0] as int)
    } else {
        crate::text::hex_digits(gs[0] as int) + ":"@ + groups_text(gs.drop_first())
    }
}

/// What the text of a group run is made of: it opens with a hex digit,
/// and holds hex digits and colons alone, never a dot.
proof fn lemma_groups_text_chars(gs: Seq<u16>)
    requires
        gs.len() >= 1,
    ensures
        groups_text(gs).len() >= 1,
        is_hex_digit(groups_text(gs)[0]),
        forall|k: int| 0 <= k < groups_text(gs).len() ==> #[trigger] groups_text(gs)[k] != '.',
    decreases gs.len(),
{
    reveal_strlit(":");
    lemma_hex_digits_shape(gs[0] as int);
    if gs.len() > 1 {
        lemma_groups_text_chars(gs.drop_first());
    }
}

/// Reading a printed group run back: the groups come out unchanged,
/// and the run is read to its end.
proof fn lemma_read_groups_of_text(s: Seq<char>, base: int, gs: Seq<u16>, first: bool, room: int)
    requires
        0 <= base <= s.len(),
        room == gs.len() <= 8,
        forall|k: int| 0 <= k < s.len() ==> s[k] != '.',
        gs.len() == 0 ==> base == s.len(),
        gs.len() >= 1 && first ==> s.len() == base + groups_text(gs).len() && (forall|m: int|
            0 <= m < groups_text(gs).len() ==> s[base + m] == groups_text(gs)[m]),
        gs.len() >= 1 && !first ==> s.len() == base + 1 + groups_text(gs).len() && s[base] == ':'
            && (forall|m: int|
            0 <= m < groups_text(gs).len() ==> s[base + 1 + m] == groups_text(gs)[m]),
    ensures
        spec_read_groups(s, base, first, room) == (GroupScan {
            groups: gs,
            end: s.len() as int,
            ipv4: false,
        }),
    decreases gs.len(),
{
    reveal_strlit(":");
    if gs.len() == 0 {
        assert(spec_read_groups(s, base, first, room) =~= GroupScan {
            groups: gs,
            end: s.len() as int,
            ipv4: false,
        });
    } else {
        let gt = groups_text(gs);
        lemma_groups_text_chars(gs);
        lemma_hex_digits_shape(gs[0] as int);
        let h = crate::text::hex_digits(gs[0] as int);
        let g = if first {
            base
        } else {
            base + 1
        };
        assert(forall|m: int| 0 <= m < gt.len() ==> s[g + m] == gt[m]);
        assert(s.len() == g + gt.len());
        if !first {
            assert(s[g + 0] == gt[0]);
            assert(s[base + 1] != ':');
        }
        // The group's own digits, and what stands just after them.
        let rest = gs.drop_first();
        if gs.len() > 1 {
            assert(gt == h + ":"@ + groups_text(rest));
        }
        assert(forall|m: int| 0 <= m < h.len() ==> gt[m] == h[m]);
        assert(forall|m: int| 0 <= m < h.len() ==> s[g + m] == h[m]);
        let j = g + h.len();
        if gs.len() == 1 {
            assert(j == s.len());
        } else {
            assert(gt[h.len() as int] == ':');
            assert(s[g + h.len()] == ':');
        }
        assert forall|k: int| g <= k < j implies is_hex_digit(s[k]) by {
            assert(s[g + (k - g)] == h[k - g]);
        }
        lemma_scan_hex_stops(s, g, j);
        lemma_hex_value_congruent(s, h, g, h.len() as int);
        if room >= 2 {
            assert(spec_ipv4_at(s, g) is None) by {
                let j1 = scan_digits_end(s, g);
                lemma_scan_digits_in_bounds(s, g);
                if octet_ok(s, g, j1) && j1 < s.len() && s[j1] == '.' {
                    assert(s[j1] != '.');
                }
            }
        }
        if gs.len() > 1 {
            assert(forall|m: int|
                0 <= m < groups_text(rest).len() ==> gt[h.len() + 1 + m] == groups_text(
                    rest,
                )[m]);
            assert(forall|m: int|
                0 <= m < groups_text(rest).len() ==> s[j + 1 + m] == groups_text(rest)[m]);
        }
        lemma_read_groups_of_text(s, j, rest, false, room - 1);
        assert(spec_read_groups(s, base, first, room).groups =~= seq![gs[0]] + rest);
        assert(seq![gs[0]] + rest =~= gs);
    }
}

proof fn lemma_scan_digits_in_bounds(s: Seq<char>, i: int)
    requires
        0 <= i <= s.len(),
    ensures
        i <= scan_digits_end(s, i) <= s.len(),
    decreases s.len() - i,
{
    if 0 <= i < s.len() && is_digit(s[i]) {
        lemma_scan_digits_in_bounds(s, i + 1);
    }
}

/// Law: an address written out as text reads back as the same address.
pub proof fn lemma_ip_text_reads_back(a: IpAddress)
    ensures
        spec_parse_ip(spec_ip_text(a)) == Some(a),
{
    match a {
        IpAddress::V4(x, y, z, w) => {
            lemma_ipv4_text_reads_back(x, y, z, w);
        },
        IpAddress::V6(g0, g1, g2, g3, g4, g5, g6, g7) => {
            lemma_ipv6_text_reads_back(g0, g1, g2, g3, g4, g5, g6, g7);
        },
    }
}

#[verifier::rlimit(100)]
proof fn lemma_ipv4_text_reads_back(x: u8, y: u8, z: u8, w: u8)
    ensures
        spec_parse_ip(spec_ip_text(IpAddress::V4(x, y, z, w))) == Some(IpAddress::V4(x, y, z, w)),
{
    reveal_strlit(".");
    let s = spec_ip_text(IpAddress::V4(x, y, z, w));
    let d1 = crate::text::dec_digits(x as int);
    let d2 = crate::text::dec_digits(y as int);
    let d3 = crate::text::dec_digits(z as int);
    let d4 = crate::text::dec_digits(w as int);
    lemma_dec_digits_shape(x as int);
    lemma_dec_digits_shape(y as int);
    lemma_dec_digits_shape(z as int);
    lemma_dec_digits_shape(w as int);
    let n1 = d1.len() as int;
    let n2 = d2.len() as int;
    let n3 = d3.len() as int;
    let n4 = d4.len() as int;
    let o2 = n1 + 1;
    let o3 = n1 + 1 + n2 + 1;
    let o4 = n1 + 1 + n2 + 1 + n3 + 1;
    assert(s.len() == o4 + n4);
    assert(forall|m: int| 0 <= m < n1 ==> s[m] == d1[m]);
    assert(s[n1] == '.');
    assert(forall|m: int| 0 <= m < n2 ==> s[o2 + m] == d2[m]);
    assert(s[o2 + n2] == '.');
    assert(forall|m: int| 0 <= m < n3 ==> s[o3 + m] == d3[m]);
    assert(s[o3 + n3] == '.');
    assert(forall|m: int| 0 <= m < n4 ==> s[o4 + m] == d4[m]);
    lemma_scan_digits_stops(s, 0, n1);
    lemma_scan_digits_stops(s, o2, o2 + n2);
    lemma_scan_digits_stops(s, o3, o3 + n3);
    lemma_scan_digits_stops(s, o4, o4 + n4);
    lemma_digits_value_congruent(s, d1, 0, n1);
    lemma_digits_value_congruent(s, d2, o2, n2);
    lemma_digits_value_congruent(s, d3, o3, n3);
    lemma_digits_value_congruent(s, d4, o4, n4);
    assert(octet_ok(s, 0, n1));
    assert(octet_ok(s, o2, o2 + n2));
    assert(octet_ok(s, o3, o3 + n3));
    assert(octet_ok(s, o4, o4 + n4));
    assert(spec_ipv4_at(s, 0) == Some(((x, y, z, w), s.len() as int)));
}

#[verifier::rlimit(100)]
proof fn lemma_ipv6_text_reads_back(
    g0: u16,
    g1: u16,
    g2: u16,
    g3: u16,
    g4: u16,
    g5: u16,
    g6: u16,
    g7: u16,
)
    ensures
        spec_parse_ip(spec_ip_text(IpAddress::V6(g0, g1, g2, g3, g4, g5, g6, g7))) == Some(
            IpAddress::V6(g0, g1, g2, g3, g4, g5, g6, g7),
        ),
{
    reveal_strlit(":");
    let a = IpAddress::V6(g0, g1, g2, g3, g4, g5, g6, g7);
    let s = spec_ip_text(a);
    let gs = seq![g0, g1, g2, g3, g4, g5, g6, g7];
    lemma_ip_text_as_groups(g0, g1, g2, g3, g4, g5, g6, g7);
    assert(s == groups_text(gs));
    lemma_groups_text_chars(gs);
    lemma_read_groups_of_text(s, 0, gs, true, 8);
    assert(spec_parse_ipv4(s) is None) by {
        let j1 = scan_digits_end(s, 0);
        lemma_scan_digits_in_bounds(s, 0);
        if octet_ok(s, 0, j1) && j1 < s.len() && s[j1] == '.' {
            assert(s[j1] != '.');
        }
    }
    let head = spec_read_groups(s, 0, true, 8);
    assert(head.groups.len() == 8 && head.end == s.len());
    assert(v6_groups(head.groups) == a);
}

#[verifier::rlimit(100)]
proof fn lemma_ip_text_as_groups(
    g0: u16,
    g1: u16,
    g2: u16,
    g3: u16,
    g4: u16,
    g5: u16,
    g6: u16,
    g7: u16,
)
    ensures
        spec_ip_text(IpAddress::V6(g0, g1, g2, g3, g4, g5, g6, g7)) == groups_text(
            seq![g0, g1, g2, g3, g4, g5, g6, g7],
        ),
{
    let q7 = seq![g7];
    let q6 = seq![g6, g7];
    let q5 = seq![g5, g6, g7];
    let q4 = seq![g4, g5, g6, g7];
    let q3 = seq![g3, g4, g5, g6, g7];
    let q2 = seq![g2, g3, g4, g5, g6, g7];
    let q1 = seq![g1, g2, g3, g4, g5, g6, g7];
    let q0 = seq![g0, g1, g2, g3, g4, g5, g6, g7];
    assert(q6.drop_first() =~= q7);
    assert(q5.drop_first() =~= q6);
    assert(q4.drop_first() =~= q5);
    assert(q3.drop_first() =~= q4);
    assert(q2.drop_first() =~= q3);
    assert(q1.drop_first() =~= q2);
    assert(q0.drop_first() =~= q1);
    assert(groups_text(q7) == crate::text::hex_digits(g7 as int));
    assert(groups_text(q6) == crate::text::hex_digits(g6 as int) + ":"@ + groups_text(q7));
    assert(groups_text(q5) == crate::text::hex_digits(g5 as int) + ":"@ + groups_text(q6));
    assert(groups_text(q4) == crate::text::hex_digits(g4 as int) + ":"@ + groups_text(q5));
    assert(groups_text(q3) == crate::text::hex_digits(g3 as int) + ":"@ + groups_text(q4));
    assert(groups_text(q2) == crate::text::hex_digits(g2 as int) + ":"@ + groups_text(q3));
    assert(groups_text(q1) == crate::text::hex_digits(g1 as int) + ":"@ + groups_text(q2));
    assert(groups_text(q0) == crate::text::hex_digits(g0 as int) + ":"@ + groups_text(q1));
    assert(spec_ip_text(IpAddress::V6(g0, g1, g2, g3, g4, g5, g6, g7)) =~= groups_text(q0));
}

/// Writes an address out as text, as `spec_ip_text` says.
pub fn ip_text(a: &IpAddress) -> (s: String)
    ensures
        s@ == spec_ip_text(*a),
{
    let mut s = String::new();
    match a {
        IpAddress::V4(x, y, z, w) => {
            let p0 = crate::text::dec_string(*x as usize);
            s.append(p0.as_str());
            s.append(".");
            let p1 = crate::text::dec_string(*y as usize);
            s.append(p1.as_str());
            s.append(".");
            let p2 = crate::text::dec_string(*z as usize);
            s.append(p2.as_str());
            s.append(".");
            let p3 = crate::text::dec_string(*w as usize);
            s.append(p3.as_str());
        },
        IpAddress::V6(g0, g1, g2, g3, g4, g5, g6, g7) => {
            let p0 = crate::text::hex_string(*g0 as usize);
            s.append(p0.as_str());
            s.append(":");
            let p1 = crate::text::hex_string(*g1 as usize);
            s.append(p1.as_str());
            s.append(":");
            let p2 = crate::text::hex_string(*g2 as usize);
            s.append(p2.as_str());
            s.append(":");
            let p3 = crate::text::hex_string(*g3 as usize);
            s.append(p3.as_str());
            s.append(":");
            let p4 = crate::text::hex_string(*g4 as usize);
            s.append(p4.as_str());
            s.append(":");
            let p5 = crate::text::hex_string(*g5 as usize);
            s.append(p5.as_str());
            s.append(":");
            let p6 = crate::text::hex_string(*g6 as usize);
            s.append(p6.as_str());
            s.append(":");
            let p7 = crate::text::hex_string(*g7 as usize);
            s.append(p7.as_str());
        },
    }
    s
}

/// A socket address: an IP address and a port.
#[derive(Debug, Clone, Copy, PartialEq, Eq, Structural)]
pub struct SockAddr {
    pub ip: IpAddress,
    pub port: u16,
}

pub open spec fn is_digit(c: char) -> bool {
    48 <= c as u32 && c as u32 <= 57
}

pub open spec fn digit_val(c: char) -> u32 {
    ((c as u32) - 48) as u32
}

pub open spec fn is_hex_digit(c: char) -> bool {
    is_digit(c) || (97 <= c as u32 && c as u32 <= 102) || (65 <= c as u32 && c as u32 <= 70)
}

pub open spec fn hex_val(c: char) -> u32 {
    if is_digit(c) {
        digit_val(c)
    } else if 97 <= c as u32 && c as u32 <= 102 {
        ((c as u32) - 87) as u32
    } else {
        ((c as u32) - 55) as u32
    }
}

/// The first position at or after `i` that does not hold a decimal digit.
pub open spec fn scan_digits_end(s: Seq<char>, i: int) -> int
    decreases s.len() - i,
{
    if 0 <= i < s.len() && is_digit(s[i]) {
        scan_digits_end(s, i + 1)
    } else {
        i
    }
}

/// The first position at or after `i` that does not hold a hex digit.
pub open spec fn scan_hex_end(s: Seq<char>, i: int) -> int
    decreases s.len() - i,
{
    if 0 <= i < s.len() && is_hex_digit(s[i]) {
        scan_hex_end(s, i + 1)
    } else {
        i
    }
}

/// The number the decimal digits of `s[i..j]` write.
pub open spec fn digits_value(s: Seq<char>, i: int, j: int) -> int
    decreases j - i,
{
    if i >= j {
        0
    } else {
        digits_value(s, i, j - 1) * 10 + digit_val(s[j - 1])
    }
}

/// The number the hex digits of `s[i..j]` write.
pub open spec fn hex_value(s: Seq<char>, i: int, j: int) -> int
    decreases j - i,
{
    if i >= j {
        0
    } else {
        hex_value(s, i, j - 1) * 16 + hex_val(s[j - 1])
    }
}

proof fn lemma_digits_value_bound(s: Seq<char>, i: int, j: int)
    requires
        i <= j,
        j - i <= 3,
        forall|k: int| i <= k < j ==> is_digit(s[k]),
    ensures
        0 <= digits_value(s, i, j),
        digits_value(s, i, j) <= (if j - i <= 1 {
            9int
        } else if j - i == 2 {
            99int
        } else {
            999int
        }),
    decreases j - i,
{
    if i < j {
        lemma_digits_value_bound(s, i, j - 1);
    }
}

proof fn lemma_hex_value_bound(s: Seq<char>, i: int, j: int)
    requires
        i <= j,
        j - i <= 4,
        forall|k: int| i <= k < j ==> is_hex_digit(s[k]),
    ensures
        0 <= hex_value(s, i, j),
        hex_value(s, i, j) <= (if j - i <= 1 {
            15int
        } else if j - i == 2 {
            255int
        } else if j - i == 3 {
            4095int
        } else {
            65535int
        }),
    decreases j - i,
{
    if i < j {
        lemma_hex_value_bound(s, i, j - 1);
    }
}

/// A well-written decimal octet: one to three digits, no surplus leading
/// zero, and a value of at most 255.
pub open spec fn octet_ok(s: Seq<char>, i: int, j: int) -> bool {
    &&& i < j <= i + 3
    &&& j <= s.len()
    &&& (j - i == 1 || s[i] != '0')
    &&& digits_value(s, i, j) <= 255
}

fn digit_at(v: &Vec<char>, i: usize) -> (r: bool)
    requires
        i < v.len(),
    ensures
        r == is_digit(v@[i as int]),
{
    let u = v[i] as u32;
    48 <= u && u <= 57
}

fn hex_digit_at(v: &Vec<char>, i: usize) -> (r: bool)
    requires
        i < v.len(),
    ensures
        r == is_hex_digit(v@[i as int]),
{
    let u = v[i] as u32;
    (48 <= u && u <= 57) || (97 <= u && u <= 102) || (65 <= u && u <= 70)
}

fn scan_digits(v: &Vec<char>, i: usize) -> (j: usize)
    requires
        i <= v.len(),
    ensures
        j == scan_digits_end(v@, i as int),
        i <= j <= v.len(),
        forall|k: int| i <= k < j ==> is_digit(v@[k]),
    decreases v.len() - i,
{
    let mut j = i;
    while j < v.len() && digit_at(v, j)
        invariant
            i <= j <= v.len(),
            scan_digits_end(v@, i as int) == scan_digits_end(v@, j as int),
            forall|k: int| i <= k < j ==> is_digit(v@[k]),
        decreases v.len() - j,
    {
        j = j + 1;
    }
    j
}

fn scan_hex(v: &Vec<char>, i: usize) -> (j: usize)
    requires
        i <= v.len(),
    ensures
        j == scan_hex_end(v@, i as int),
        i <= j <= v.len(),
        forall|k: int| i <= k < j ==> is_hex_digit(v@[k]),
    decreases v.len() - i,
{
    let mut j = i;
    while j < v.len() && hex_digit_at(v, j)
        invariant
            i <= j <= v.len(),
            scan_hex_end(v@, i as int) == scan_hex_end(v@, j as int),
            forall|k: int| i <= k < j ==> is_hex_digit(v@[k]),
        decreases v.len() - j,
    {
        j = j + 1;
    }
    j
}

fn decimal_value(v: &Vec<char>, i: usize, j: usize) -> (r: u32)
    requires
        i <= j <= v.len(),
        j - i <= 3,
        forall|k: int| i <= k < j ==> is_digit(v@[k]),
    ensures
        r == digits_value(v@, i as int, j as int),
        r <= 999,
{
    let mut r: u32 = 0;
    let mut k = i;
    while k < j
        invariant
            i <= k <= j <= v.len(),
            j - i <= 3,
            forall|kk: int| i <= kk < j ==> is_digit(v@[kk]),
            r == digits_value(v@, i as int, k as int),
            r <= 999,
        decreases j - k,
    {
        proof {
            lemma_digits_value_bound(v@, i as int, k as int);
        }
        let d = v[k] as u32 - 48;
        assert(digits_value(v@, i as int, k + 1) == digits_value(v@, i as int, k as int) * 10
            + digit_val(v@[k as int]));
        r = r * 10 + d;
        k = k + 1;
        proof {
            lemma_digits_value_bound(v@, i as int, k as int);
        }
    }
    r
}

fn hexadecimal_value(v: &Vec<char>, i: usize, j: usize) -> (r: u32)
    requires
        i <= j <= v.len(),
        j - i <= 4,
        forall|k: int| i <= k < j ==> is_hex_digit(v@[k]),
    ensures
        r == hex_value(v@, i as int, j as int),
        r <= 65535,
{
    let mut r: u32 = 0;
    let mut k = i;
    while k < j
        invariant
            i <= k <= j <= v.len(),
            j - i <= 4,
            forall|kk: int| i <= kk < j ==> is_hex_digit(v@[kk]),
            r == hex_value(v@, i as int, k as int),
            r <= 65535,
        decreases j - k,
    {
        proof {
            lemma_hex_value_bound(v@, i as int, k as int);
        }
        let u = v[k] as u32;
        let d = if 48 <= u && u <= 57 {
            u - 48
        } else if 97 <= u && u <= 102 {
            u - 87
        } else {
            u - 55
        };
        assert(hex_value(v@, i as int, k + 1) == hex_value(v@, i as int, k as int) * 16 + hex_val(
            v@[k as int],
        ));
        r = r * 16 + d;
        k = k + 1;
        proof {
            lemma_hex_value_bound(v@, i as int, k as int);
        }
    }
    r
}

fn octet_ok_at(v: &Vec<char>, i: usize, j: usize) -> (r: bool)
    requires
        i <= v.len(),
        i <= j <= v.len(),
        j == scan_digits_end(v@, i as int),
        forall|k: int| i <= k < j ==> is_digit(v@[k]),
    ensures
        r == octet_ok(v@, i as int, j as int),
{
    if i < j && j - i <= 3 {
        if j - i == 1 || v[i] != '0' {
            let val = decimal_value(v, i, j);
            val <= 255
        } else {
            false
        }
    } else {
        false
    }
}

/// A dotted decimal IPv4 address written at position `i`, with the
/// position just after it; the octet runs are maximal.
pub open spec fn spec_ipv4_at(s: Seq<char>, i: int) -> Option<((u8, u8, u8, u8), int)> {
    let j1 = scan_digits_end(s, i);
    if octet_ok(s, i, j1) && j1 < s.len() && s[j1] == '.' {
        let j2 = scan_digits_end(s, j1 + 1);
        if octet_ok(s, j1 + 1, j2) && j2 < s.len() && s[j2] == '.' {
            let j3 = scan_digits_end(s, j2 + 1);
            if octet_ok(s, j2 + 1, j3) && j3 < s.len() && s[j3] == '.' {
                let j4 = scan_digits_end(s, j3 + 1);
                if octet_ok(s, j3 + 1, j4) {
                    Some(
                        (
                            (
                                digits_value(s, i, j1) as u8,
                                digits_value(s, j1 + 1, j2) as u8,
                                digits_value(s, j2 + 1, j3) as u8,
                                digits_value(s, j3 + 1, j4) as u8,
                            ),
                            j4,
                        ),
                    )
                } else {
                    None
                }
            } else {
                None
            }
        } else {
            None
        }
    } else {
        None
    }
}

fn ipv4_at(v: &Vec<char>, i: usize) -> (r: Option<((u8, u8, u8, u8), usize)>)
    requires
        i <= v.len(),
    ensures
        match r {
            Some(t) => spec_ipv4_at(v@, i as int) matches Some(st) && st.0 == t.0 && st.1 == t.1
                as int,
            None => spec_ipv4_at(v@, i as int) is None,
        },
{
    let j1 = scan_digits(v, i);
    if !(octet_ok_at(v, i, j1) && j1 < v.len() && v[j1] == '.') {
        return None;
    }
    let j2 = scan_digits(v, j1 + 1);
    if !(octet_ok_at(v, j1 + 1, j2) && j2 < v.len() && v[j2] == '.') {
        return None;
    }
    let j3 = scan_digits(v, j2 + 1);
    if !(octet_ok_at(v, j2 + 1, j3) && j3 < v.len() && v[j3] == '.') {
        return None;
    }
    let j4 = scan_digits(v, j3 + 1);
    if !octet_ok_at(v, j3 + 1, j4) {
        return None;
    }
    let a = decimal_value(v, i, j1) as u8;
    let b = decimal_value(v, j1 + 1, j2) as u8;
    let c = decimal_value(v, j2 + 1, j3) as u8;
    let d = decimal_value(v, j3 + 1, j4) as u8;
    Some(((a, b, c, d), j4))
}

/// A whole character sequence read as an IPv4 address.
pub open spec fn spec_parse_ipv4(s: Seq<char>) -> Option<IpAddress> {
    match spec_ipv4_at(s, 0) {
        Some(t) => if t.1 == s.len() {
            Some(IpAddress::V4(t.0.0, t.0.1, t.0.2, t.0.3))
        } else {
            None
        },
        None => None,
    }
}

fn parse_ipv4(v: &Vec<char>) -> (r: Option<IpAddress>)
    ensures
        r == spec_parse_ipv4(v@),
{
    match ipv4_at(v, 0) {
        Some(((a, b, c, d), next)) => {
            if next == v.len() {
                Some(IpAddress::V4(a, b, c, d))
            } else {
                None
            }
        },
        None => None,
    }
}

/// What one colon-separated run of IPv6 groups reads as: the group
/// values, the position just after them, and whether the run ended in an
/// embedded dotted-decimal part.
#[verifier::ext_equal]
pub struct GroupScan {
    pub groups: Seq<u16>,
    pub end: int,
    pub ipv4: bool,
}

/// Reads up to `room` colon-separated IPv6 groups at `i`; `first` says
/// whether no group precedes, so no separating colon is wanted. A group
/// is one to four hex digits, or, where two slots are free, a whole
/// dotted-decimal IPv4 address, which fills two groups and ends the run.
/// A `::` is never consumed: the run stops just before it.
pub open spec fn spec_read_groups(s: Seq<char>, i: int, first: bool, room: int) -> GroupScan
    decreases room,
{
    if room <= 0 {
        GroupScan { groups: Seq::empty(), end: i, ipv4: false }
    } else {
        let ok_sep = first || (i < s.len() && s[i] == ':' && !(i + 1 < s.len() && s[i + 1]
            == ':'));
        if !ok_sep {
            GroupScan { groups: Seq::empty(), end: i, ipv4: false }
        } else {
            let g = if first {
                i
            } else {
                i + 1
            };
            if room >= 2 && spec_ipv4_at(s, g) is Some {
                let t = spec_ipv4_at(s, g)->Some_0;
                GroupScan {
                    groups: seq![
                        ((t.0.0 as int * 256 + t.0.1 as int) as u16),
                        ((t.0.2 as int * 256 + t.0.3 as int) as u16),
                    ],
                    end: t.1,
                    ipv4: true,
                }
            } else {
                let j = scan_hex_end(s, g);
                if j == g || j - g > 4 {
                    GroupScan { groups: Seq::empty(), end: i, ipv4: false }
                } else {
                    let rest = spec_read_groups(s, j, false, room - 1);
                    GroupScan {
                        groups: seq![(hex_value(s, g, j) as u16)] + rest.groups,
                        end: rest.end,
                        ipv4: rest.ipv4,
                    }
                }
            }
        }
    }
}

#[verifier::rlimit(60)]
fn read_groups(v: &Vec<char>, start: usize, limit: usize) -> (r: (Vec<u16>, usize, bool))
    requires
        start <= v.len(),
        limit <= 8,
    ensures
        ({
            let sp = spec_read_groups(v@, start as int, true, limit as int);
            &&& sp.groups == r.0@
            &&& sp.end == r.1 as int
            &&& sp.ipv4 == r.2
            &&& start <= r.1 <= v.len()
            &&& r.0.len() <= limit
        }),
{
    let ghost full = spec_read_groups(v@, start as int, true, limit as int);
    let mut acc: Vec<u16> = Vec::new();
    let mut i = start;
    loop
        invariant
            start <= i <= v.len(),
            limit <= 8,
            acc.len() <= limit,
            ({
                let rest = spec_read_groups(
                    v@,
                    i as int,
                    acc.len() == 0,
                    (limit - acc.len()) as int,
                );
                &&& full.groups == acc@ + rest.groups
                &&& full.end == rest.end
                &&& full.ipv4 == rest.ipv4
            }),
            full == spec_read_groups(v@, start as int, true, limit as int),
        ensures
            start <= i <= v.len(),
            acc.len() <= limit,
            full.groups == acc@,
            full.end == i as int,
            full.ipv4 == false,
        decreases limit - acc.len(),
    {
        let ghost room = (limit - acc.len()) as int;
        let ghost rest = spec_read_groups(v@, i as int, acc.len() == 0, room);
        if acc.len() == limit {
            proof {
                assert(rest.groups =~= Seq::<u16>::empty());
                assert(acc@ + Seq::<u16>::empty() =~= acc@);
            }
            break ;
        }
        let first = acc.len() == 0;
        let ok_sep = first || (i < v.len() && v[i] == ':' && !(i + 1 < v.len() && v[i + 1]
            == ':'));
        if !ok_sep {
            proof {
                assert(rest.groups =~= Seq::<u16>::empty());
                assert(acc@ + Seq::<u16>::empty() =~= acc@);
            }
            break ;
        }
        let g = if first {
            i
        } else {
            i + 1
        };
        if limit - acc.len() >= 2 {
            match ipv4_at(v, g) {
                Some(((a, b, c, d), next)) => {
                    let g1 = (a as u16) * 256 + (b as u16);
                    let g2 = (c as u16) * 256 + (d as u16);
                    let ghost acc_old = acc@;
                    acc.push(g1);
                    acc.push(g2);
                    proof {
                        assert(rest.groups =~= seq![g1, g2]);
                        assert(acc@ =~= acc_old + seq![g1, g2]);
                        assert(full.groups == acc@);
                    }
                    return (acc, next, true);
                },
                None => {},
            }
        }
        let j = scan_hex(v, g);
        if j == g || j - g > 4 {
            proof {
                assert(rest.groups =~= Seq::<u16>::empty());
                assert(acc@ + Seq::<u16>::empty() =~= acc@);
            }
            break ;
        }
        let val = hexadecimal_value(v, g, j) as u16;
        let ghost acc_old = acc@;
        acc.push(val);
        i = j;
        proof {
            let rest2 = spec_read_groups(v@, j as int, false, (limit - acc.len()) as int);
            assert(rest.groups == seq![val] + rest2.groups);
            assert(acc_old + (seq![val] + rest2.groups) =~= (acc_old + seq![val]) + rest2.groups);
            assert(acc@ =~= acc_old + seq![val]);
        }
    }
    (acc, i, false)
}

/// The eight-group IPv6 address a group sequence writes.
pub open spec fn v6_groups(g: Seq<u16>) -> IpAddress {
    IpAddress::V6(g[0], g[1], g[2], g[3], g[4], g[5], g[6], g[7])
}

/// A whole character sequence read as an IPv6 address: eight groups, or
/// two shorter runs around one `::` that stands for the missing zero
/// groups, of which there is at least one.
pub open spec fn spec_parse_ipv6(s: Seq<char>) -> Option<IpAddress> {
    let head = spec_read_groups(s, 0, true, 8);
    if head.groups.len() == 8 {
        if head.end == s.len() {
            Some(v6_groups(head.groups))
        } else {
            None
        }
    } else if head.ipv4 {
        None
    } else if head.end + 1 < s.len() && s[head.end] == ':' && s[head.end + 1] == ':' {
        let tail = spec_read_groups(s, head.end + 2, true, 7 - head.groups.len());
        if tail.end == s.len() {
            Some(
                v6_groups(
                    head.groups + Seq::new(
                        (8 - head.groups.len() - tail.groups.len()) as nat,
                        |k: int| 0u16,
                    ) + tail.groups,
                ),
            )
        } else {
            None
        }
    } else {
        None
    }
}

fn parse_ipv6(v: &Vec<char>) -> (r: Option<IpAddress>)
    ensures
        r == spec_parse_ipv6(v@),
{
    let (head, hend, hv4) = read_groups(v, 0, 8);
    if head.len() == 8 {
        if hend == v.len() {
            return Some(
                IpAddress::V6(
                    head[0],
                    head[1],
                    head[2],
                    head[3],
                    head[4],
                    head[5],
                    head[6],
                    head[7],
                ),
            );
        } else {
            return None;
        }
    }
    if hv4 {
        return None;
    }
    if !(hend < v.len() && v[hend] == ':' && hend + 1 < v.len() && v[hend + 1] == ':') {
        return None;
    }
    let (tail, tend, _tv4) = read_groups(v, hend + 2, 8 - head.len() - 1);
    if tend != v.len() {
        return None;
    }
    let ghost head_sq = head@;
    let ghost tail_sq = tail@;
    let zeros: usize = 8 - head.len() - tail.len();
    let mut out = head;
    let mut z: usize = 0;
    while z < zeros
        invariant
            z <= zeros,
            out@ == head_sq + Seq::new(z as nat, |k: int| 0u16),
        decreases zeros - z,
    {
        out.push(0);
        z = z + 1;
        proof {
            assert(out@ =~= head_sq + Seq::new(z as nat, |k: int| 0u16));
        }
    }
    let mut t: usize = 0;
    while t < tail.len()
        invariant
            t <= tail.len(),
            tail@ == tail_sq,
            out@ == head_sq + Seq::new(zeros as nat, |k: int| 0u16) + tail_sq.take(t as int),
        decreases tail.len() - t,
    {
        out.push(tail[t]);
        t = t + 1;
        proof {
            assert(out@ =~= head_sq + Seq::new(zeros as nat, |k: int| 0u16) + tail_sq.take(
                t as int,
            ));
        }
    }
    proof {
        assert(tail_sq.take(tail_sq.len() as int) =~= tail_sq);
        assert(out@ == head_sq + Seq::new(zeros as nat, |k: int| 0u16) + tail_sq);
        assert(out@.len() == 8);
    }
    Some(IpAddress::V6(out[0], out[1], out[2], out[3], out[4], out[5], out[6], out[7]))
}

/// A textual IP address: dotted decimal IPv4 where it reads as one, else
/// IPv6.
pub open spec fn spec_parse_ip(s: Seq<char>) -> Option<IpAddress> {
    if spec_parse_ipv4(s) is Some {
        spec_parse_ipv4(s)
    } else {
        spec_parse_ipv6(s)
    }
}

/// Parses a textual IPv4 or IPv6 address.
pub fn parse_ip(s: &str) -> (r: Result<IpAddress, &'static str>)
    ensures
        match spec_parse_ip(s@) {
            Some(a) => r == Ok::<IpAddress, &'static str>(a),
            None => r matches Err(m) && m@ == "invalid IP address syntax"@,
        },
{
    let v = crate::text::str_to_chars(s);
    match parse_ipv4(&v) {
        Some(a) => Ok(a),
        None => match parse_ipv6(&v) {
            Some(a) => Ok(a),
            None => Err("invalid IP address syntax"),
        },
    }
}

} // verus!
