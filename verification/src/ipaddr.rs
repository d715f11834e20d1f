//! IP addresses and CIDR networks as plain values: textual parsing for both
//! families, canonical text, and prefix containment. An address is the
//! family flag plus right-aligned bits; a network adds a prefix length.
use vstd::prelude::*;
use vstd::string::StrSliceExecFns;
use vstd::arithmetic::power2::pow2;
use crate::strutil;

verus! {

/// An IP address value: family flag and right-aligned address bits.
#[derive(Clone, Copy, Debug, PartialEq, Eq, Structural)]
pub struct IpValue {
    pub v4: bool,
    pub bits: u128,
}

/// A v4 address keeps its bits below 2^32.
pub open spec fn ip_wf(ip: IpValue) -> bool {
    ip.v4 ==> ip.bits < 0x100000000u128
}

/// A CIDR network: an address and a prefix length.
#[derive(Clone, Copy, Debug, PartialEq, Eq, Structural)]
pub struct IpNetwork {
    pub ip: IpValue,
    pub prefix: u8,
}

pub open spec fn net_wf(n: IpNetwork) -> bool {
    ip_wf(n.ip) && (if n.ip.v4 {
        n.prefix <= 32
    } else {
        n.prefix <= 128
    })
}

// ---------------------------------------------------------------- IPv4

/// A dotted-quad octet: one to three digits, no leading zero, at most 255.
pub open spec fn valid_octet(p: Seq<char>) -> bool {
    1 <= p.len() <= 3 && strutil::all_digits(p) && strutil::digits_val(p) <= 255 && (p.len() > 1
        ==> p[0] != '0')
}

/// What the dotted-quad grammar accepts: four octets joined by dots.
pub open spec fn spec_parse_ipv4(s: Seq<char>) -> Option<u32> {
    let parts = strutil::spec_split(s, '.');
    if parts.len() == 4 && valid_octet(parts[0]) && valid_octet(parts[1]) && valid_octet(parts[2])
        && valid_octet(parts[3]) {
        Some(
            (strutil::digits_val(parts[0]) * 0x1000000 + strutil::digits_val(parts[1]) * 0x10000
                + strutil::digits_val(parts[2]) * 0x100 + strutil::digits_val(parts[3])) as u32,
        )
    } else {
        None
    }
}

fn parse_octet(p: &str) -> (r: Option<u8>)
    ensures
        match r {
            Some(v) => valid_octet(p@) && strutil::digits_val(p@) == v,
            None => !valid_octet(p@),
        },
{
    let n = p.unicode_len();
    if n == 0 || n > 3 {
        return None;
    }
    if !strutil::check_all_digits(p) {
        return None;
    }
    if n > 1 && p.get_char(0) == '0' {
        return None;
    }
    let mut acc: u32 = 0;
    let mut i: usize = 0;
    while i < n
        invariant
            0 <= i <= n,
            1 <= n <= 3,
            n == p@.len(),
            strutil::all_digits(p@),
            acc == strutil::digits_val(p@.take(i as int)),
            i == 0 ==> acc == 0,
            i == 1 ==> acc <= 9,
            i == 2 ==> acc <= 99,
            i == 3 ==> acc <= 999,
        decreases n - i,
    {
        let c = p.get_char(i);
        assert(strutil::is_digit(p@[i as int]));
        let d: u32 = c as u32 - '0' as u32;
        proof {
            assert(p@.take(i as int + 1).drop_last() =~= p@.take(i as int));
            assert(p@.take(i as int + 1).last() == p@[i as int]);
            assert(strutil::digit_val(p@[i as int]) == d);
        }
        acc = acc * 10 + d;
        i += 1;
    }
    proof {
        assert(p@.take(n as int) =~= p@);
    }
    if acc > 255 {
        return None;
    }
    Some(acc as u8)
}

/// Parses a dotted-quad IPv4 address.
pub fn parse_ipv4(s: &str) -> (r: Option<u32>)
    ensures
        r == spec_parse_ipv4(s@),
{
    let parts = strutil::split_char(s, '.');
    let ghost pv = parts@.map_values(|p: String| p@);
    if parts.len() != 4 {
        return None;
    }
    let o0 = parse_octet(parts[0].as_str());
    let o1 = parse_octet(parts[1].as_str());
    let o2 = parse_octet(parts[2].as_str());
    let o3 = parse_octet(parts[3].as_str());
    proof {
        assert(pv[0] == parts@[0]@);
        assert(pv[1] == parts@[1]@);
        assert(pv[2] == parts@[2]@);
        assert(pv[3] == parts@[3]@);
    }
    match (o0, o1, o2, o3) {
        (Some(a), Some(b), Some(c), Some(d)) => Some(
            (a as u32) * 0x1000000 + (b as u32) * 0x10000 + (c as u32) * 0x100 + (d as u32),
        ),
        _ => None,
    }
}

// ---------------------------------------------------------------- IPv6

pub open spec fn is_hex_digit(c: char) -> bool {
    strutil::is_digit(c) || ('a' <= c && c <= 'f') || ('A' <= c && c <= 'F')
}

pub open spec fn hex_val(c: char) -> int {
    if strutil::is_digit(c) {
        strutil::digit_val(c)
    } else if 'a' <= c && c <= 'f' {
        c as int - 'a' as int + 10
    } else {
        c as int - 'A' as int + 10
    }
}

/// Value of a hex digit string read in base sixteen.
pub open spec fn hex_digits_val(s: Seq<char>) -> int
    decreases s.len(),
{
    if s.len() == 0 {
        0
    } else {
        hex_digits_val(s.drop_last()) * 16 + hex_val(s.last())
    }
}

/// A group of an IPv6 address: one to four hex digits.
pub open spec fn valid_group(p: Seq<char>) -> bool {
    1 <= p.len() <= 4 && forall|i: int| 0 <= i < p.len() ==> is_hex_digit(p[i])
}

/// Index of the first "::", or -1.
pub open spec fn spec_find_dcolon(s: Seq<char>) -> int
    decreases s.len(),
{
    if s.len() < 2 {
        -1
    } else if s[0] == ':' && s[1] == ':' {
        0
    } else {
        let r = spec_find_dcolon(s.drop_first());
        if r < 0 {
            -1
        } else {
            r + 1
        }
    }
}

/// The group values of a piece list; the last piece may be an embedded
/// dotted-quad (two groups) when `allow_v4_tail` holds.
pub open spec fn spec_groups_of(parts: Seq<Seq<char>>, allow_v4_tail: bool) -> Option<Seq<int>>
    decreases parts.len(),
{
    if parts.len() == 0 {
        Some(Seq::empty())
    } else if parts.len() == 1 {
        let p = parts[0];
        if valid_group(p) {
            Some(seq![hex_digits_val(p)])
        } else if allow_v4_tail {
            match spec_parse_ipv4(p) {
                Some(v) => Some(seq![v as int / 0x10000, v as int % 0x10000]),
                None => None,
            }
        } else {
            None
        }
    } else if !valid_group(parts[0]) {
        None
    } else {
        match spec_groups_of(parts.drop_first(), allow_v4_tail) {
            Some(rest) => Some(seq![hex_digits_val(parts[0])] + rest),
            None => None,
        }
    }
}

/// Eight group values packed into address bits.
pub open spec fn spec_groups_to_bits(gs: Seq<int>) -> int
    decreases gs.len(),
{
    if gs.len() == 0 {
        0
    } else {
        spec_groups_to_bits(gs.drop_last()) * 0x10000 + gs.last()
    }
}

pub open spec fn groups_in_range(gs: Seq<int>) -> bool {
    forall|i: int| 0 <= i < gs.len() ==> 0 <= #[trigger] gs[i] < 0x10000
}

/// What the IPv6 grammar accepts: eight groups, or two group runs joined by
/// one "::" standing for the missing zero groups.
pub open spec fn spec_parse_ipv6(s: Seq<char>) -> Option<u128> {
    let d = spec_find_dcolon(s);
    if d < 0 {
        match spec_groups_of(strutil::spec_split(s, ':'), true) {
            Some(gs) => if gs.len() == 8 {
                Some(spec_groups_to_bits(gs) as u128)
            } else {
                None
            },
            None => None,
        }
    } else {
        let left = s.take(d);
        let right = s.skip(d + 2);
        let lgs = if left.len() == 0 {
            Some(Seq::<int>::empty())
        } else {
            spec_groups_of(strutil::spec_split(left, ':'), false)
        };
        let rgs = if right.len() == 0 {
            Some(Seq::<int>::empty())
        } else {
            spec_groups_of(strutil::spec_split(right, ':'), true)
        };
        match (lgs, rgs) {
            (Some(l), Some(r)) => if l.len() + r.len() <= 7 {
                let zeros = Seq::new((8 - l.len() - r.len()) as nat, |i: int| 0int);
                Some(spec_groups_to_bits(l + zeros + r) as u128)
            } else {
                None
            },
            _ => None,
        }
    }
}

/// An address of either family, v4 preferred.
pub open spec fn spec_parse_ip(s: Seq<char>) -> Option<IpValue> {
    match spec_parse_ipv4(s) {
        Some(v) => Some(IpValue { v4: true, bits: v as u128 }),
        None => match spec_parse_ipv6(s) {
            Some(b) => Some(IpValue { v4: false, bits: b }),
            None => None,
        },
    }
}

/// A network: an address with `/prefix`, or a bare address taken as a full
/// prefix.
pub open spec fn spec_parse_cidr(s: Seq<char>) -> Option<IpNetwork> {
    let sl = strutil::spec_find(s, '/');
    if sl < 0 {
        match spec_parse_ip(s) {
            Some(ip) => Some(
                IpNetwork {
                    ip,
                    prefix: if ip.v4 {
                        32
                    } else {
                        128
                    },
                },
            ),
            None => None,
        }
    } else {
        let addr = s.take(sl);
        let pfx = s.skip(sl + 1);
        match (spec_parse_ip(addr), strutil::spec_parse_u8(pfx)) {
            (Some(ip), Some(p)) => if (ip.v4 && p <= 32) || (!ip.v4 && p <= 128) {
                Some(IpNetwork { ip, prefix: p })
            } else {
                None
            },
            _ => None,
        }
    }
}

fn find_dcolon(s: &str) -> (r: Option<usize>)
    ensures
        match r {
            Some(i) => spec_find_dcolon(s@) == i && i + 2 <= s@.len(),
            None => spec_find_dcolon(s@) < 0,
        },
{
    let n = s.unicode_len();
    if n < 2 {
        proof {
            lemma_dcolon_none(s@);
        }
        return None;
    }
    let mut i: usize = 0;
    while i + 1 < n
        invariant
            0 <= i <= n - 1,
            2 <= n,
            n == s@.len(),
            forall|j: int| 0 <= j < i ==> !(#[trigger] s@[j] == ':' && s@[j + 1] == ':'),
        decreases n - i,
    {
        if s.get_char(i) == ':' && s.get_char(i + 1) == ':' {
            proof {
                lemma_dcolon_first(s@, i as int);
            }
            return Some(i);
        }
        i += 1;
    }
    proof {
        lemma_dcolon_none(s@);
    }
    None
}

proof fn lemma_dcolon_first(s: Seq<char>, k: int)
    requires
        0 <= k,
        k + 2 <= s.len(),
        s[k] == ':' && s[k + 1] == ':',
        forall|j: int| 0 <= j < k ==> !(#[trigger] s[j] == ':' && s[j + 1] == ':'),
    ensures
        spec_find_dcolon(s) == k,
    decreases s.len(),
{
    if k > 0 {
        assert(forall|j: int|
            0 <= j < s.drop_first().len() ==> #[trigger] s.drop_first()[j] == s[j + 1]);
        lemma_dcolon_first(s.drop_first(), k - 1);
    }
}

proof fn lemma_dcolon_none(s: Seq<char>)
    requires
        forall|j: int| 0 <= j && j + 1 < s.len() ==> !(#[trigger] s[j] == ':' && s[j + 1] == ':'),
    ensures
        spec_find_dcolon(s) < 0,
    decreases s.len(),
{
    if s.len() >= 2 {
        assert(forall|j: int|
            0 <= j < s.drop_first().len() ==> #[trigger] s.drop_first()[j] == s[j + 1]);
        lemma_dcolon_none(s.drop_first());
    }
}

fn check_valid_group(p: &str) -> (r: Option<u32>)
    ensures
        match r {
            Some(v) => valid_group(p@) && hex_digits_val(p@) == v && v < 0x10000,
            None => !valid_group(p@),
        },
{
    let n = p.unicode_len();
    if n == 0 || n > 4 {
        return None;
    }
    let mut acc: u32 = 0;
    let mut i: usize = 0;
    while i < n
        invariant
            0 <= i <= n,
            1 <= n <= 4,
            n == p@.len(),
            forall|j: int| 0 <= j < i ==> is_hex_digit(p@[j]),
            acc == hex_digits_val(p@.take(i as int)),
            i == 0 ==> acc == 0,
            i == 1 ==> acc < 0x10,
            i == 2 ==> acc < 0x100,
            i == 3 ==> acc < 0x1000,
            i == 4 ==> acc < 0x10000,
        decreases n - i,
    {
        let c = p.get_char(i);
        let hv: u32 = if c >= '0' && c <= '9' {
            c as u32 - '0' as u32
        } else if c >= 'a' && c <= 'f' {
            c as u32 - 'a' as u32 + 10
        } else if c >= 'A' && c <= 'F' {
            c as u32 - 'A' as u32 + 10
        } else {
            assert(!is_hex_digit(p@[i as int]));
            return None;
        };
        proof {
            assert(is_hex_digit(p@[i as int]));
            assert(hex_val(p@[i as int]) == hv);
            assert(p@.take(i as int + 1).drop_last() =~= p@.take(i as int));
            assert(p@.take(i as int + 1).last() == p@[i as int]);
        }
        acc = acc * 16 + hv;
        i += 1;
    }
    proof {
        assert(p@.take(n as int) =~= p@);
    }
    Some(acc)
}

/// `o` with `prefix` prepended when present.
pub open spec fn opt_prepend(prefix: Seq<int>, o: Option<Seq<int>>) -> Option<Seq<int>> {
    match o {
        Some(r) => Some(prefix + r),
        None => None,
    }
}

/// The group values of a piece list, mirroring `spec_groups_of`.
fn groups_of(parts: &Vec<String>, allow_v4_tail: bool) -> (r: Option<Vec<u32>>)
    requires
        parts@.len() >= 1,
    ensures
        match r {
            Some(gs) => spec_groups_of(parts@.map_values(|p: String| p@), allow_v4_tail) == Some(
                gs@.map_values(|g: u32| g as int),
            ) && groups_in_range(gs@.map_values(|g: u32| g as int)),
            None => spec_groups_of(parts@.map_values(|p: String| p@), allow_v4_tail) is None,
        },
{
    let ghost pv = parts@.map_values(|p: String| p@);
    let mut acc: Vec<u32> = Vec::new();
    let mut i: usize = 0;
    proof {
        assert(pv.skip(0) =~= pv);
        assert(acc@.map_values(|g: u32| g as int) =~= Seq::<int>::empty());
        assert(opt_prepend(Seq::<int>::empty(), spec_groups_of(pv, allow_v4_tail))
            == spec_groups_of(pv, allow_v4_tail)) by {
            if spec_groups_of(pv, allow_v4_tail) is Some {
                assert(Seq::<int>::empty() + spec_groups_of(pv, allow_v4_tail)->Some_0
                    =~= spec_groups_of(pv, allow_v4_tail)->Some_0);
            }
        }
    }
    while i < parts.len() - 1
        invariant
            0 <= i <= pv.len() - 1,
            1 <= pv.len(),
            pv == parts@.map_values(|p: String| p@),
            groups_in_range(acc@.map_values(|g: u32| g as int)),
            spec_groups_of(pv, allow_v4_tail) == opt_prepend(
                acc@.map_values(|g: u32| g as int),
                spec_groups_of(pv.skip(i as int), allow_v4_tail),
            ),
        decreases pv.len() - i,
    {
        proof {
            assert(pv.skip(i as int).len() == pv.len() - i);
            assert(pv.skip(i as int)[0] == pv[i as int]);
            assert(pv.skip(i as int).drop_first() =~= pv.skip(i as int + 1));
        }
        match check_valid_group(parts[i].as_str()) {
            Some(g) => {
                proof {
                    let accv = acc@.map_values(|x: u32| x as int);
                    let accv2 = (acc@.push(g)).map_values(|x: u32| x as int);
                    assert(accv2 =~= accv + seq![g as int]);
                    let tail = spec_groups_of(pv.skip(i as int + 1), allow_v4_tail);
                    assert(spec_groups_of(pv.skip(i as int), allow_v4_tail) == opt_prepend(
                        seq![hex_digits_val(pv[i as int])],
                        tail,
                    ));
                    if tail is Some {
                        assert(accv + (seq![g as int] + tail->Some_0) =~= accv2 + tail->Some_0);
                    }
                    assert(groups_in_range(accv2)) by {
                        assert(forall|j: int| 0 <= j < accv.len() ==> accv2[j] == #[trigger] accv[j]);
                        assert(accv2[accv.len() as int] == g as int);
                    }
                }
                acc.push(g);
            },
            None => {
                return None;
            },
        }
        i += 1;
    }
    proof {
        assert(pv.skip(i as int).len() == 1);
        assert(pv.skip(i as int)[0] == pv[i as int]);
    }
    match check_valid_group(parts[i].as_str()) {
        Some(g) => {
            proof {
                assert(spec_groups_of(pv.skip(i as int), allow_v4_tail) == Some(
                    seq![hex_digits_val(pv[i as int])],
                ));
                let accv = acc@.map_values(|x: u32| x as int);
                let accv2 = (acc@.push(g)).map_values(|x: u32| x as int);
                assert(accv2 =~= accv + seq![g as int]);
                assert(groups_in_range(accv2)) by {
                    assert(forall|j: int| 0 <= j < accv.len() ==> accv2[j] == #[trigger] accv[j]);
                    assert(accv2[accv.len() as int] == g as int);
                }
            }
            acc.push(g);
            Some(acc)
        },
        None => {
            if !allow_v4_tail {
                return None;
            }
            match parse_ipv4(parts[i].as_str()) {
                Some(v) => {
                    let hi: u32 = v / 0x10000;
                    let lo: u32 = v % 0x10000;
                    proof {
                        assert(spec_groups_of(pv.skip(i as int), allow_v4_tail) == Some(
                            seq![v as int / 0x10000, v as int % 0x10000],
                        ));
                        let accv = acc@.map_values(|x: u32| x as int);
                        let accv2 = (acc@.push(hi).push(lo)).map_values(|x: u32| x as int);
                        assert(accv2 =~= accv + seq![v as int / 0x10000, v as int % 0x10000]);
                        assert(groups_in_range(accv2)) by {
                            assert(forall|j: int|
                                0 <= j < accv.len() ==> accv2[j] == #[trigger] accv[j]);
                            assert(accv2[accv.len() as int] == v as int / 0x10000);
                            assert(accv2[accv.len() as int + 1] == v as int % 0x10000);
                        }
                    }
                    acc.push(hi);
                    acc.push(lo);
                    Some(acc)
                },
                None => None,
            }
        },
    }
}

proof fn lemma_groups_to_bits_bound(gs: Seq<int>)
    requires
        groups_in_range(gs),
        gs.len() <= 8,
    ensures
        0 <= spec_groups_to_bits(gs) < pow2((16 * gs.len()) as nat),
    decreases gs.len(),
{
    vstd::arithmetic::power2::lemma2_to64();
    if gs.len() == 0 {
        assert(pow2(0) == 1);
    } else {
        let prefix = gs.drop_last();
        assert(groups_in_range(prefix)) by {
            assert(forall|i: int| 0 <= i < prefix.len() ==> prefix[i] == #[trigger] gs[i]);
        }
        lemma_groups_to_bits_bound(prefix);
        let p = spec_groups_to_bits(prefix);
        let w = pow2((16 * prefix.len()) as nat);
        assert(pow2((16 * gs.len()) as nat) == w * pow2(16)) by {
            vstd::arithmetic::power2::lemma_pow2_adds(
                (16 * prefix.len()) as nat,
                16,
            );
        }
        assert(p * 0x10000 + gs.last() < w * 0x10000) by (nonlinear_arith)
            requires
                p < w,
                0 <= gs.last() < 0x10000,
        ;
        assert(pow2(16) == 0x10000);
    }
}

fn groups_to_bits(gs: &Vec<u32>) -> (r: u128)
    requires
        gs@.len() == 8,
        groups_in_range(gs@.map_values(|g: u32| g as int)),
    ensures
        r == spec_groups_to_bits(gs@.map_values(|g: u32| g as int)),
{
    let ghost gv = gs@.map_values(|g: u32| g as int);
    let mut acc: u128 = 0;
    let mut i: usize = 0;
    proof {
        vstd::arithmetic::power2::lemma2_to64();
    }
    while i < 8
        invariant
            0 <= i <= 8,
            gs@.len() == 8,
            gv == gs@.map_values(|g: u32| g as int),
            groups_in_range(gv),
            acc == spec_groups_to_bits(gv.take(i as int)),
            acc < pow2((16 * i) as nat),
        decreases 8 - i,
    {
        let g = gs[i];
        proof {
            assert(gv.take(i as int + 1).drop_last() =~= gv.take(i as int));
            assert(gv.take(i as int + 1).last() == gv[i as int]);
            assert(groups_in_range(gv.take(i as int + 1))) by {
                assert(forall|j: int|
                    0 <= j < i + 1 ==> gv.take(i as int + 1)[j] == #[trigger] gv[j]);
            }
            lemma_groups_to_bits_bound(gv.take(i as int + 1));
            lemma_pow2_128_values();
            if 16 * i < 112 {
                vstd::arithmetic::power2::lemma_pow2_strictly_increases((16 * i) as nat, 112);
            }
            assert((acc as int) * 0x10000 + (g as int) < 0x100000000000000000000000000000000)
                by (nonlinear_arith)
                requires
                    (acc as int) <= 0x10000000000000000000000000000 - 1,
                    0 <= (g as int) < 0x10000,
            ;
        }
        acc = acc * 0x10000 + (g as u128);
        i += 1;
    }
    proof {
        assert(gv.take(8) =~= gv);
    }
    acc
}

/// Parses an IPv6 address.
pub fn parse_ipv6(s: &str) -> (r: Option<u128>)
    ensures
        r == spec_parse_ipv6(s@),
{
    let n = s.unicode_len();
    match find_dcolon(s) {
        None => {
            let parts = strutil::split_char(s, ':');
            proof {
                strutil::lemma_split_len(s@, ':');
            }
            match groups_of(&parts, true) {
                Some(gs) => {
                    if gs.len() == 8 {
                        Some(groups_to_bits(&gs))
                    } else {
                        None
                    }
                },
                None => None,
            }
        },
        Some(d) => {
            let left = s.substring_char(0, d);
            let right = s.substring_char(d + 2, n);
            proof {
                assert(left@ =~= s@.take(d as int));
                assert(right@ =~= s@.skip(d as int + 2));
            }
            let lgs: Option<Vec<u32>> = if left.unicode_len() == 0 {
                let empty_groups: Vec<u32> = Vec::new();
                proof {
                    assert(empty_groups@.map_values(|g: u32| g as int) =~= Seq::<int>::empty());
                }
                Some(empty_groups)
            } else {
                let lparts = strutil::split_char(left, ':');
                proof {
                    strutil::lemma_split_len(left@, ':');
                }
                groups_of(&lparts, false)
            };
            let rgs: Option<Vec<u32>> = if right.unicode_len() == 0 {
                let empty_groups: Vec<u32> = Vec::new();
                proof {
                    assert(empty_groups@.map_values(|g: u32| g as int) =~= Seq::<int>::empty());
                }
                Some(empty_groups)
            } else {
                let rparts = strutil::split_char(right, ':');
                proof {
                    strutil::lemma_split_len(right@, ':');
                }
                groups_of(&rparts, true)
            };
            match (lgs, rgs) {
                (Some(l), Some(rr)) => {
                    if l.len() <= 7 && rr.len() <= 7 - l.len() {
                        let mut full: Vec<u32> = Vec::new();
                        let ghost lv = l@.map_values(|g: u32| g as int);
                        let ghost rv = rr@.map_values(|g: u32| g as int);
                        let ghost zeros = Seq::new((8 - lv.len() - rv.len()) as nat, |i: int| 0int);
                        let mut i: usize = 0;
                        while i < l.len()
                            invariant
                                0 <= i <= l@.len(),
                                lv == l@.map_values(|g: u32| g as int),
                                full@.map_values(|g: u32| g as int) =~= lv.take(i as int),
                            decreases l@.len() - i,
                        {
                            let g = l[i];
                            proof {
                                assert((full@ + seq![g]).map_values(|x: u32| x as int) =~= full@
                                    .map_values(|x: u32| x as int) + seq![g as int]);
                                assert(lv.take(i as int).push(lv[i as int]) =~= lv.take(
                                    i as int + 1,
                                ));
                            }
                            full.push(g);
                            i += 1;
                        }
                        let zeros_needed: usize = 8 - l.len() - rr.len();
                        let mut z: usize = 0;
                        while z < zeros_needed
                            invariant
                                0 <= z <= zeros_needed,
                                zeros_needed == 8 - lv.len() - rv.len(),
                                lv.len() + rv.len() <= 7,
                                zeros == Seq::new((8 - lv.len() - rv.len()) as nat, |i: int| 0int),
                                full@.map_values(|g: u32| g as int) =~= lv + zeros.take(z as int),
                            decreases zeros_needed - z,
                        {
                            proof {
                                assert((full@ + seq![0u32]).map_values(|x: u32| x as int) =~= full@
                                    .map_values(|x: u32| x as int) + seq![0int]);
                                assert((lv + zeros.take(z as int)).push(0int) =~= lv + zeros.take(
                                    z as int + 1,
                                ));
                            }
                            full.push(0u32);
                            z += 1;
                        }
                        let mut j: usize = 0;
                        proof {
                            assert(zeros.take(zeros_needed as int) =~= zeros);
                        }
                        while j < rr.len()
                            invariant
                                0 <= j <= rr@.len(),
                                rv == rr@.map_values(|g: u32| g as int),
                                full@.map_values(|g: u32| g as int) =~= lv + zeros + rv.take(
                                    j as int,
                                ),
                            decreases rr@.len() - j,
                        {
                            let g = rr[j];
                            proof {
                                assert((full@ + seq![g]).map_values(|x: u32| x as int) =~= full@
                                    .map_values(|x: u32| x as int) + seq![g as int]);
                                assert((lv + zeros + rv.take(j as int)).push(rv[j as int]) =~= lv
                                    + zeros + rv.take(j as int + 1));
                            }
                            full.push(g);
                            j += 1;
                        }
                        proof {
                            assert(rv.take(rv.len() as int) =~= rv);
                            assert(full@.map_values(|g: u32| g as int) =~= lv + zeros + rv);
                            assert(groups_in_range(lv + zeros + rv)) by {
                                assert(forall|k: int|
                                    0 <= k < lv.len() ==> (lv + zeros + rv)[k] == #[trigger] lv[k]);
                                assert(forall|k: int|
                                    lv.len() <= k < lv.len() + zeros.len() ==> (lv + zeros + rv)[k]
                                        == 0);
                                assert(forall|k: int|
                                    lv.len() + zeros.len() <= k < 8 ==> (lv + zeros + rv)[k]
                                        == #[trigger] rv[k - lv.len() - zeros.len()]);
                            }
                        }
                        Some(groups_to_bits(&full))
                    } else {
                        None
                    }
                },
                _ => None,
            }
        },
    }
}

/// Parses an address of either family.
pub fn parse_ip(s: &str) -> (r: Option<IpValue>)
    ensures
        r == spec_parse_ip(s@),
        r matches Some(ip) ==> ip_wf(ip),
{
    match parse_ipv4(s) {
        Some(v) => Some(IpValue { v4: true, bits: v as u128 }),
        None => match parse_ipv6(s) {
            Some(b) => Some(IpValue { v4: false, bits: b }),
            None => None,
        },
    }
}

/// Parses a network: `addr/prefix`, or a bare address as a full prefix.
pub fn parse_cidr(s: &str) -> (r: Option<IpNetwork>)
    ensures
        r == spec_parse_cidr(s@),
        r matches Some(n) ==> net_wf(n),
{
    let n = s.unicode_len();
    match strutil::find_char(s, '/') {
        None => {
            match parse_ip(s) {
                Some(ip) => Some(
                    IpNetwork {
                        ip,
                        prefix: if ip.v4 {
                            32
                        } else {
                            128
                        },
                    },
                ),
                None => None,
            }
        },
        Some(sl) => {
            let addr = s.substring_char(0, sl);
            let pfx = s.substring_char(sl + 1, n);
            proof {
                assert(addr@ =~= s@.take(sl as int));
                assert(pfx@ =~= s@.skip(sl as int + 1));
            }
            match (parse_ip(addr), strutil::parse_u8(pfx)) {
                (Some(ip), Some(p)) => {
                    if (ip.v4 && p <= 32) || (!ip.v4 && p <= 128) {
                        Some(IpNetwork { ip, prefix: p })
                    } else {
                        None
                    }
                },
                _ => None,
            }
        },
    }
}

// ------------------------------------------------------------ containment

/// Whether a network contains an address: same family and equal bits above
/// the prefix.
pub open spec fn spec_net_contains(n: IpNetwork, ip: IpValue) -> bool {
    n.ip.v4 == ip.v4 && {
        let width: int = if n.ip.v4 {
            32
        } else {
            128
        };
        n.prefix == 0 || {
            let sh = (width - n.prefix) as nat;
            n.ip.bits as int / pow2(sh) as int == ip.bits as int / pow2(sh) as int
        }
    }
}

proof fn lemma_pow2_128_values()
    ensures
        pow2(16) == 0x10000,
        pow2(32) == 0x100000000,
        pow2(48) == 0x1000000000000,
        pow2(64) == 0x10000000000000000,
        pow2(80) == 0x100000000000000000000,
        pow2(96) == 0x1000000000000000000000000,
        pow2(112) == 0x10000000000000000000000000000,
        pow2(128) == 0x100000000000000000000000000000000,
{
    vstd::arithmetic::power2::lemma2_to64();
    vstd::arithmetic::power2::lemma2_to64_rest();
    vstd::arithmetic::power2::lemma_pow2_adds(64, 16);
    vstd::arithmetic::power2::lemma_pow2_adds(80, 16);
    vstd::arithmetic::power2::lemma_pow2_adds(96, 16);
    vstd::arithmetic::power2::lemma_pow2_adds(112, 16);
}

fn pow2_u128(e: u32) -> (r: u128)
    requires
        e <= 127,
    ensures
        r == pow2(e as nat),
        r >= 1,
{
    let mut r: u128 = 1;
    let mut j: u32 = 0;
    proof {
        vstd::arithmetic::power2::lemma2_to64();
    }
    while j < e
        invariant
            0 <= j <= e <= 127,
            r == pow2(j as nat),
            r >= 1,
        decreases e - j,
    {
        proof {
            lemma_pow2_128_values();
            vstd::arithmetic::power2::lemma_pow2_strictly_increases(j as nat, 128);
            vstd::arithmetic::power2::lemma_pow2_strictly_increases((j + 1) as nat, 128);
            vstd::arithmetic::power2::lemma_pow2_unfold((j + 1) as nat);
        }
        r = r * 2;
        j += 1;
    }
    r
}

/// Containment check, per `spec_net_contains`.
pub fn net_contains(n: &IpNetwork, ip: &IpValue) -> (r: bool)
    requires
        net_wf(*n),
    ensures
        r == spec_net_contains(*n, *ip),
{
    if n.ip.v4 != ip.v4 {
        return false;
    }
    if n.prefix == 0 {
        return true;
    }
    let width: u32 = if n.ip.v4 {
        32
    } else {
        128
    };
    let sh: u32 = width - (n.prefix as u32);
    let p = pow2_u128(sh);
    (n.ip.bits / p) == (ip.bits / p)
}

/// Whether any network of the list contains the address.
pub open spec fn spec_any_contains(nets: Seq<IpNetwork>, ip: IpValue) -> bool {
    exists|i: int| 0 <= i < nets.len() && spec_net_contains(#[trigger] nets[i], ip)
}

/// First-match scan over a network list.
pub fn any_contains(nets: &Vec<IpNetwork>, ip: &IpValue) -> (r: bool)
    requires
        forall|i: int| 0 <= i < nets@.len() ==> net_wf(#[trigger] nets@[i]),
    ensures
        r == spec_any_contains(nets@, *ip),
{
    let mut i: usize = 0;
    while i < nets.len()
        invariant
            0 <= i <= nets@.len(),
            forall|j: int| 0 <= j < nets@.len() ==> net_wf(#[trigger] nets@[j]),
            forall|j: int| 0 <= j < i ==> !spec_net_contains(#[trigger] nets@[j], *ip),
        decreases nets@.len() - i,
    {
        let n = nets[i];
        if net_contains(&n, ip) {
            return true;
        }
        i += 1;
    }
    false
}

// ------------------------------------------------------------- formatting

/// The decimal digit characters.
pub open spec fn digit_char(d: int) -> char {
    if d == 0 {
        '0'
    } else if d == 1 {
        '1'
    } else if d == 2 {
        '2'
    } else if d == 3 {
        '3'
    } else if d == 4 {
        '4'
    } else if d == 5 {
        '5'
    } else if d == 6 {
        '6'
    } else if d == 7 {
        '7'
    } else if d == 8 {
        '8'
    } else {
        '9'
    }
}

/// The lower-case hex digit characters.
pub open spec fn hex_char(d: int) -> char {
    if d < 10 {
        digit_char(d)
    } else if d == 10 {
        'a'
    } else if d == 11 {
        'b'
    } else if d == 12 {
        'c'
    } else if d == 13 {
        'd'
    } else if d == 14 {
        'e'
    } else {
        'f'
    }
}

/// Decimal text of a value below 1000, without leading zeros.
pub open spec fn spec_dec_text(n: int) -> Seq<char> {
    if n < 10 {
        seq![digit_char(n)]
    } else if n < 100 {
        seq![digit_char(n / 10), digit_char(n % 10)]
    } else {
        seq![digit_char(n / 100), digit_char((n / 10) % 10), digit_char(n % 10)]
    }
}

/// Lower-case hex text of a value below 0x10000, without leading zeros.
pub open spec fn spec_hex_text(n: int) -> Seq<char>
    decreases n,
{
    if n < 16 {
        seq![hex_char(n)]
    } else {
        spec_hex_text(n / 16).push(hex_char(n % 16))
    }
}

/// The sixteen-bit groups of a v6 address, most significant first.
pub open spec fn spec_v6_groups(b: int) -> Seq<int> {
    seq![
        b / pow2(112) as int % 0x10000,
        b / pow2(96) as int % 0x10000,
        b / pow2(80) as int % 0x10000,
        b / pow2(64) as int % 0x10000,
        b / pow2(48) as int % 0x10000,
        b / pow2(32) as int % 0x10000,
        b / pow2(16) as int % 0x10000,
        b % 0x10000,
    ]
}

/// The length of the zero-group run at the front.
pub open spec fn spec_zrun(gs: Seq<int>) -> int
    decreases gs.len(),
{
    if gs.len() == 0 || gs[0] != 0 {
        0
    } else {
        1 + spec_zrun(gs.drop_first())
    }
}

/// The start and length of the leftmost longest zero-group run of length
/// two or more; start -1 when there is none.
pub open spec fn spec_best_run(gs: Seq<int>) -> (int, int)
    decreases gs.len(),
{
    if gs.len() == 0 {
        (-1, 0)
    } else {
        let cur = spec_zrun(gs);
        let rest = spec_best_run(gs.drop_first());
        let rest_here: (int, int) = if rest.0 < 0 {
            (-1, 0)
        } else {
            (rest.0 + 1, rest.1)
        };
        if cur >= 2 && cur >= rest_here.1 {
            (0, cur)
        } else {
            rest_here
        }
    }
}

/// Hex group texts joined by colons.
pub open spec fn spec_join_hex(gs: Seq<int>) -> Seq<char>
    decreases gs.len(),
{
    if gs.len() == 0 {
        Seq::empty()
    } else if gs.len() == 1 {
        spec_hex_text(gs[0])
    } else {
        spec_hex_text(gs[0]) + seq![':'] + spec_join_hex(gs.drop_first())
    }
}

/// The canonical text of an address: dotted-quad for v4; for v6 the
/// groups in lower-case hex joined by colons, with the leftmost longest
/// run of two or more zero groups compressed to "::".
pub open spec fn spec_ip_text(ip: IpValue) -> Seq<char> {
    if ip.v4 {
        let b = ip.bits as int;
        spec_dec_text(b / 0x1000000 % 0x100) + seq![
            '.',
        ] + spec_dec_text(b / 0x10000 % 0x100) + seq![
            '.',
        ] + spec_dec_text(b / 0x100 % 0x100) + seq!['.'] + spec_dec_text(b % 0x100)
    } else {
        let gs = spec_v6_groups(ip.bits as int);
        let best = spec_best_run(gs);
        if best.0 < 0 {
            spec_join_hex(gs)
        } else {
            spec_join_hex(gs.take(best.0)) + seq![':', ':'] + spec_join_hex(gs.skip(best.0 + best.1))
        }
    }
}

proof fn lemma_zrun_bounds(gs: Seq<int>)
    ensures
        0 <= spec_zrun(gs) <= gs.len(),
    decreases gs.len(),
{
    if gs.len() > 0 && gs[0] == 0 {
        lemma_zrun_bounds(gs.drop_first());
    }
}

proof fn lemma_best_run_bounds(gs: Seq<int>)
    ensures
        spec_best_run(gs).0 >= 0 ==> spec_best_run(gs).0 + spec_best_run(gs).1 <= gs.len()
            && spec_best_run(gs).1 >= 2,
        spec_best_run(gs).0 >= -1,
    decreases gs.len(),
{
    if gs.len() > 0 {
        lemma_zrun_bounds(gs);
        lemma_best_run_bounds(gs.drop_first());
    }
}

fn push_dec_u8(out: &mut String, n: u32)
    requires
        n < 256,
    ensures
        final(out)@ == old(out)@ + spec_dec_text(n as int),
{
    let d0: u32 = n / 100;
    let d1: u32 = (n / 10) % 10;
    let d2: u32 = n % 10;
    if n >= 100 {
        push_digit(out, d0);
        push_digit(out, d1);
        push_digit(out, d2);
        proof {
            assert(old(out)@.push(digit_char(d0 as int)).push(digit_char(d1 as int)).push(
                digit_char(d2 as int),
            ) =~= old(out)@ + spec_dec_text(n as int));
        }
    } else if n >= 10 {
        push_digit(out, n / 10);
        push_digit(out, d2);
        proof {
            assert(old(out)@.push(digit_char(n as int / 10)).push(digit_char(d2 as int)) =~= old(
                out,
            )@ + spec_dec_text(n as int));
        }
    } else {
        push_digit(out, n);
        proof {
            assert(old(out)@.push(digit_char(n as int)) =~= old(out)@ + spec_dec_text(n as int));
        }
    }
}

fn push_digit(out: &mut String, d: u32)
    requires
        d < 10,
    ensures
        final(out)@ == old(out)@.push(digit_char(d as int)),
{
    let c: char = match d {
        0 => '0',
        1 => '1',
        2 => '2',
        3 => '3',
        4 => '4',
        5 => '5',
        6 => '6',
        7 => '7',
        8 => '8',
        _ => '9',
    };
    crate::strutil::push_char(out, c);
}

fn push_hex_digit(out: &mut String, d: u32)
    requires
        d < 16,
    ensures
        final(out)@ == old(out)@.push(hex_char(d as int)),
{
    let c: char = match d {
        0 => '0',
        1 => '1',
        2 => '2',
        3 => '3',
        4 => '4',
        5 => '5',
        6 => '6',
        7 => '7',
        8 => '8',
        9 => '9',
        10 => 'a',
        11 => 'b',
        12 => 'c',
        13 => 'd',
        14 => 'e',
        _ => 'f',
    };
    crate::strutil::push_char(out, c);
}

fn push_hex_u16(out: &mut String, n: u32)
    requires
        n < 0x10000,
    ensures
        final(out)@ == old(out)@ + spec_hex_text(n as int),
    decreases n,
{
    if n < 16 {
        push_hex_digit(out, n);
        proof {
            assert(old(out)@.push(hex_char(n as int)) =~= old(out)@ + spec_hex_text(n as int));
        }
    } else {
        push_hex_u16(out, n / 16);
        push_hex_digit(out, n % 16);
        proof {
            assert((old(out)@ + spec_hex_text(n as int / 16)).push(hex_char(n as int % 16)) =~= old(
                out,
            )@ + spec_hex_text(n as int));
        }
    }
}

fn v6_groups(b: u128) -> (r: Vec<u32>)
    ensures
        r@.map_values(|g: u32| g as int) == spec_v6_groups(b as int),
        r@.len() == 8,
        forall|i: int| 0 <= i < 8 ==> #[trigger] r@[i] < 0x10000,
{
    proof {
        lemma_pow2_128_values();
    }
    let mut gs: Vec<u32> = Vec::new();
    gs.push((b / 0x10000000000000000000000000000u128 % 0x10000) as u32);
    gs.push((b / 0x1000000000000000000000000u128 % 0x10000) as u32);
    gs.push((b / 0x100000000000000000000u128 % 0x10000) as u32);
    gs.push((b / 0x10000000000000000u128 % 0x10000) as u32);
    gs.push((b / 0x1000000000000u128 % 0x10000) as u32);
    gs.push((b / 0x100000000u128 % 0x10000) as u32);
    gs.push((b / 0x10000u128 % 0x10000) as u32);
    gs.push((b % 0x10000) as u32);
    proof {
        assert(gs@.map_values(|g: u32| g as int) =~= spec_v6_groups(b as int));
    }
    gs
}

/// The leftmost longest zero run, scanned back to front.
fn best_run(gs: &Vec<u32>) -> (r: Option<(usize, usize)>)
    requires
        gs@.len() == 8,
    ensures
        match r {
            Some(se) => spec_best_run(gview(gs@)) == (se.0 as int, se.1 as int) && se.0 + se.1
                <= 8 && se.1 >= 2,
            None => spec_best_run(gview(gs@)).0 < 0,
        },
{
    let ghost full = gview(gs@);
    let mut best: Option<(usize, usize)> = None;
    let mut zrun_next: usize = 0;
    let mut i: usize = 8;
    proof {
        assert(full.skip(8) =~= Seq::<int>::empty());
    }
    while i > 0
        invariant
            0 <= i <= 8,
            full == gview(gs@),
            full.len() == 8,
            zrun_next == spec_zrun(full.skip(i as int)),
            zrun_next <= 8 - i,
            match best {
                Some(se) => spec_best_run(full.skip(i as int)) == (se.0 as int - i, se.1 as int)
                    && i <= se.0 && se.0 + se.1 <= 8 && se.1 >= 2,
                None => spec_best_run(full.skip(i as int)).0 < 0,
            },
        decreases i,
    {
        let j = i - 1;
        proof {
            assert(full.skip(j as int)[0] == full[j as int]);
            assert(full[j as int] == gs@[j as int] as int);
            assert(full.skip(j as int).drop_first() =~= full.skip(j as int + 1));
        }
        let cur: usize = if gs[j] != 0 {
            0
        } else {
            1 + zrun_next
        };
        let take_here: bool = cur >= 2 && (match best {
            Some(se) => cur >= se.1,
            None => true,
        });
        if take_here {
            best = Some((j, cur));
        }
        zrun_next = cur;
        i = j;
    }
    proof {
        assert(full.skip(0) =~= full);
    }
    best
}

/// The ghost view of a group vector.
pub open spec fn gview(gs: Seq<u32>) -> Seq<int> {
    gs.map_values(|g: u32| g as int)
}

fn join_hex(out: &mut String, gs: &Vec<u32>, from: usize, to: usize)
    requires
        from <= to <= gs@.len(),
        forall|i: int| 0 <= i < gs@.len() ==> #[trigger] gs@[i] < 0x10000,
    ensures
        final(out)@ == old(out)@ + spec_join_hex(gview(gs@).subrange(from as int, to as int)),
    decreases to - from,
{
    proof {
        assert(gview(gs@).subrange(from as int, to as int).len() == to - from);
    }
    if from >= to {
        proof {
            assert(old(out)@ + spec_join_hex(gview(gs@).subrange(from as int, to as int)) =~= old(
                out,
            )@);
        }
        return ;
    }
    proof {
        assert(gview(gs@).subrange(from as int, to as int)[0] == gview(gs@)[from as int]);
        assert(gview(gs@)[from as int] == gs@[from as int] as int);
        assert(gview(gs@).subrange(from as int, to as int).drop_first() =~= gview(gs@).subrange(
            from as int + 1,
            to as int,
        ));
    }
    push_hex_u16(out, gs[from]);
    if from + 1 < to {
        crate::strutil::push_char(out, ':');
        join_hex(out, gs, from + 1, to);
        proof {
            let sub = gview(gs@).subrange(from as int, to as int);
            assert(final(out)@ =~= old(out)@ + (spec_hex_text(sub[0]) + seq![':'] + spec_join_hex(
                sub.drop_first(),
            )));
        }
    } else {
        proof {
            let sub = gview(gs@).subrange(from as int, to as int);
            assert(sub.len() == 1);
            assert(final(out)@ =~= old(out)@ + spec_join_hex(sub));
        }
    }
}

/// The canonical text of an address, per `spec_ip_text`.
pub fn ip_text(ip: &IpValue) -> (r: String)
    requires
        ip_wf(*ip),
    ensures
        r@ == spec_ip_text(*ip),
{
    let mut out = String::new();
    if ip.v4 {
        let b: u32 = ip.bits as u32;
        push_dec_u8(&mut out, b / 0x1000000 % 0x100);
        crate::strutil::push_char(&mut out, '.');
        push_dec_u8(&mut out, b / 0x10000 % 0x100);
        crate::strutil::push_char(&mut out, '.');
        push_dec_u8(&mut out, b / 0x100 % 0x100);
        crate::strutil::push_char(&mut out, '.');
        push_dec_u8(&mut out, b % 0x100);
        proof {
            assert(b == ip.bits as int);
            assert(out@ =~= spec_ip_text(*ip));
        }
    } else {
        let gs = v6_groups(ip.bits);
        let ghost full = gview(gs@);
        proof {
            assert(full == spec_v6_groups(ip.bits as int));
        }
        match best_run(&gs) {
            None => {
                join_hex(&mut out, &gs, 0, 8);
                proof {
                    assert(full.subrange(0, 8) =~= full);
                    assert(out@ =~= spec_ip_text(*ip));
                }
            },
            Some(se) => {
                let (bs, bl) = se;
                join_hex(&mut out, &gs, 0, bs);
                crate::strutil::push_char(&mut out, ':');
                crate::strutil::push_char(&mut out, ':');
                let ghost mid = out@;
                join_hex(&mut out, &gs, bs + bl, 8);
                proof {
                    assert(full.subrange(0, bs as int) =~= full.take(bs as int));
                    assert(full.subrange(bs as int + bl as int, 8) =~= full.skip(
                        bs as int + bl as int,
                    ));
                    assert(out@ =~= spec_join_hex(full.take(bs as int)) + seq![':', ':']
                        + spec_join_hex(full.skip(bs as int + bl as int)));
                    assert(out@ =~= spec_ip_text(*ip));
                }
            },
        }
    }
    out
}

} // verus!
