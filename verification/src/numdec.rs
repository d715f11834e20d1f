//! Numeric constraint values: decimal literals parsed and compared exactly.
//! The grammar is the usual float literal one (sign, digits, optional point,
//! optional exponent, `inf`/`infinity`/`nan` in any letter case); values are
//! compared as exact decimals, and any comparison against `nan` is false.
use vstd::prelude::*;
use vstd::string::StrSliceExecFns;
use crate::strutil;
use crate::vercmp;

verus! {

/// A parsed decimal in ghost form. A finite number is `0.sig * 10^exp`
/// with `sig` carrying no leading or trailing zeros; zero has an empty
/// `sig`, `neg` false and `exp` zero.
pub enum SpecDec {
    Nan,
    Inf { neg: bool },
    Num { neg: bool, sig: Seq<char>, exp: int },
}

/// A parsed decimal in executable form, mirroring `SpecDec`.
pub enum Decimal {
    Nan,
    Inf { neg: bool },
    Num { neg: bool, sig: Vec<char>, exp: i128 },
}

impl Decimal {
    pub open spec fn dec_view(&self) -> SpecDec {
        match self {
            Decimal::Nan => SpecDec::Nan,
            Decimal::Inf { neg } => SpecDec::Inf { neg: *neg },
            Decimal::Num { neg, sig, exp } => SpecDec::Num {
                neg: *neg,
                sig: sig@,
                exp: *exp as int,
            },
        }
    }
}

/// The upper-case form of the letters that spell `inf`, `infinity`, `nan`.
pub open spec fn upper_char(c: char) -> char {
    match c {
        'i' => 'I',
        'n' => 'N',
        'f' => 'F',
        'a' => 'A',
        't' => 'T',
        'y' => 'Y',
        _ => c,
    }
}

/// Case-insensitive match of `t` against a lower-case pattern.
pub open spec fn matches_ci(t: Seq<char>, pat: Seq<char>) -> bool {
    t.len() == pat.len() && forall|i: int|
        0 <= i < t.len() ==> t[i] == pat[i] || t[i] == upper_char(#[trigger] pat[i])
}

/// Exponent values clamp at this bound; mantissas long enough to make the
/// clamp observable cannot arise in practice.
pub const EXP_CLAMP: u64 = 1000000000000000000;

/// The clamped value of an exponent digit string.
pub open spec fn spec_exp_val(digits: Seq<char>) -> int {
    if strutil::digits_val(digits) > EXP_CLAMP {
        EXP_CLAMP as int
    } else {
        strutil::digits_val(digits)
    }
}

/// The signed exponent part after `e`/`E`: an optional sign, then digits.
pub open spec fn spec_parse_exp(s: Seq<char>) -> Option<int> {
    let (neg, t) = if s.len() > 0 && (s[0] == '+' || s[0] == '-') {
        (s[0] == '-', s.drop_first())
    } else {
        (false, s)
    };
    if t.len() == 0 || !strutil::all_digits(t) {
        None
    } else if neg {
        Some(-spec_exp_val(t))
    } else {
        Some(spec_exp_val(t))
    }
}

/// Leading zeros stripped.
pub open spec fn spec_strip0_front(s: Seq<char>) -> Seq<char>
    decreases s.len(),
{
    if s.len() > 0 && s[0] == '0' {
        spec_strip0_front(s.drop_first())
    } else {
        s
    }
}

/// Trailing zeros stripped.
pub open spec fn spec_strip0_back(s: Seq<char>) -> Seq<char>
    decreases s.len(),
{
    if s.len() > 0 && s.last() == '0' {
        spec_strip0_back(s.drop_last())
    } else {
        s
    }
}

/// The number of leading zeros.
pub open spec fn spec_lead0(s: Seq<char>) -> int {
    s.len() - spec_strip0_front(s).len()
}

/// The finite value `0.digits * 10^(exp + intlen)` in normal form.
pub open spec fn spec_make_num(neg: bool, digits: Seq<char>, point_exp: int) -> SpecDec {
    let sig = spec_strip0_back(spec_strip0_front(digits));
    if sig.len() == 0 {
        SpecDec::Num { neg: false, sig: Seq::empty(), exp: 0 }
    } else {
        SpecDec::Num { neg, sig, exp: point_exp - spec_lead0(digits) }
    }
}

/// The mantissa (digits with at most one point) and exponent combined.
pub open spec fn spec_parse_mantissa(neg: bool, mant: Seq<char>, exp: int) -> Option<SpecDec> {
    let dot = strutil::spec_find(mant, '.');
    let int_part = if dot < 0 {
        mant
    } else {
        mant.take(dot)
    };
    let frac_part = if dot < 0 {
        Seq::empty()
    } else {
        mant.skip(dot + 1)
    };
    if !strutil::all_digits(int_part) || !strutil::all_digits(frac_part) || int_part.len()
        + frac_part.len() == 0 {
        None
    } else {
        Some(spec_make_num(neg, int_part + frac_part, exp + int_part.len()))
    }
}

/// What the decimal parser accepts, mirroring the float literal grammar.
pub open spec fn spec_parse_dec(s: Seq<char>) -> Option<SpecDec> {
    let (neg, t) = if s.len() > 0 && (s[0] == '+' || s[0] == '-') {
        (s[0] == '-', s.drop_first())
    } else {
        (false, s)
    };
    if matches_ci(t, "inf"@) || matches_ci(t, "infinity"@) {
        Some(SpecDec::Inf { neg })
    } else if matches_ci(t, "nan"@) {
        Some(SpecDec::Nan)
    } else {
        let e = spec_find_e(t);
        if e < 0 {
            spec_parse_mantissa(neg, t, 0)
        } else {
            match spec_parse_exp(t.skip(e + 1)) {
                Some(exp) => spec_parse_mantissa(neg, t.take(e), exp),
                None => None,
            }
        }
    }
}

/// Index of the first `e` or `E`, or -1.
pub open spec fn spec_find_e(s: Seq<char>) -> int
    decreases s.len(),
{
    if s.len() == 0 {
        -1
    } else if s[0] == 'e' || s[0] == 'E' {
        0
    } else {
        let r = spec_find_e(s.drop_first());
        if r < 0 {
            -1
        } else {
            r + 1
        }
    }
}

/// Magnitude order of two normal-form positives: by exponent, then by the
/// significand digits lexicographically.
pub open spec fn spec_mag_cmp(asig: Seq<char>, aexp: int, bsig: Seq<char>, bexp: int) -> int {
    if aexp != bexp {
        if aexp < bexp {
            -1
        } else {
            1
        }
    } else {
        vercmp::spec_lex_cmp(asig, bsig)
    }
}

/// Order of two parsed decimals; `None` when either is `nan`.
pub open spec fn spec_dec_cmp(a: SpecDec, b: SpecDec) -> Option<int> {
    match (a, b) {
        (SpecDec::Nan, _) => None,
        (_, SpecDec::Nan) => None,
        (SpecDec::Inf { neg: an }, SpecDec::Inf { neg: bn }) => if an == bn {
            Some(0)
        } else if an {
            Some(-1)
        } else {
            Some(1)
        },
        (SpecDec::Inf { neg: an }, SpecDec::Num { .. }) => if an {
            Some(-1)
        } else {
            Some(1)
        },
        (SpecDec::Num { .. }, SpecDec::Inf { neg: bn }) => if bn {
            Some(1)
        } else {
            Some(-1)
        },
        (
            SpecDec::Num { neg: an, sig: asig, exp: aexp },
            SpecDec::Num { neg: bn, sig: bsig, exp: bexp },
        ) => {
            if asig.len() == 0 && bsig.len() == 0 {
                Some(0)
            } else if asig.len() == 0 {
                Some(if bn { 1 } else { -1 })
            } else if bsig.len() == 0 {
                Some(if an { -1 } else { 1 })
            } else if an != bn {
                Some(if an { -1 } else { 1 })
            } else if an {
                Some(-spec_mag_cmp(asig, aexp, bsig, bexp))
            } else {
                Some(spec_mag_cmp(asig, aexp, bsig, bexp))
            }
        },
    }
}

/// Order of two decimal literal strings; `None` when either fails to parse
/// or is `nan`.
pub open spec fn spec_num_cmp(a: Seq<char>, b: Seq<char>) -> Option<int> {
    match (spec_parse_dec(a), spec_parse_dec(b)) {
        (Some(x), Some(y)) => spec_dec_cmp(x, y),
        _ => None,
    }
}

fn exec_matches_ci(t: &str, pat: &str) -> (r: bool)
    ensures
        r == matches_ci(t@, pat@),
{
    let tlen = t.unicode_len();
    let plen = pat.unicode_len();
    if tlen != plen {
        return false;
    }
    let mut i: usize = 0;
    while i < tlen
        invariant
            0 <= i <= tlen,
            tlen == t@.len(),
            tlen == pat@.len(),
            forall|j: int| 0 <= j < i ==> t@[j] == pat@[j] || t@[j] == upper_char(#[trigger] pat@[j]),
        decreases tlen - i,
    {
        let tc = t.get_char(i);
        let pc = pat.get_char(i);
        let up = match pc {
            'i' => 'I',
            'n' => 'N',
            'f' => 'F',
            'a' => 'A',
            't' => 'T',
            'y' => 'Y',
            _ => pc,
        };
        if tc != pc && tc != up {
            assert(!(t@[i as int] == pat@[i as int] || t@[i as int] == upper_char(pat@[i as int])));
            return false;
        }
        i += 1;
    }
    true
}

fn find_e(s: &str) -> (r: Option<usize>)
    ensures
        match r {
            Some(i) => spec_find_e(s@) == i,
            None => spec_find_e(s@) < 0,
        },
{
    let n = s.unicode_len();
    let mut i: usize = 0;
    while i < n
        invariant
            0 <= i <= n,
            n == s@.len(),
            forall|j: int| 0 <= j < i ==> s@[j] != 'e' && s@[j] != 'E',
        decreases n - i,
    {
        let c = s.get_char(i);
        if c == 'e' || c == 'E' {
            proof {
                lemma_find_e_first(s@, i as int);
            }
            return Some(i);
        }
        i += 1;
    }
    proof {
        lemma_find_e_none(s@);
    }
    None
}

proof fn lemma_find_e_first(s: Seq<char>, k: int)
    requires
        0 <= k < s.len(),
        s[k] == 'e' || s[k] == 'E',
        forall|j: int| 0 <= j < k ==> s[j] != 'e' && s[j] != 'E',
    ensures
        spec_find_e(s) == k,
    decreases s.len(),
{
    if k > 0 {
        lemma_find_e_first(s.drop_first(), k - 1);
    }
}

proof fn lemma_find_e_none(s: Seq<char>)
    requires
        forall|j: int| 0 <= j < s.len() ==> s[j] != 'e' && s[j] != 'E',
    ensures
        spec_find_e(s) < 0,
    decreases s.len(),
{
    if s.len() > 0 {
        lemma_find_e_none(s.drop_first());
    }
}

/// Accumulates the clamped value of an exponent digit string.
fn exp_digits_val(t: &str) -> (r: u64)
    requires
        strutil::all_digits(t@),
    ensures
        r == spec_exp_val(t@),
{
    let n = t.unicode_len();
    let mut acc: u64 = 0;
    let mut i: usize = 0;
    while i < n
        invariant
            0 <= i <= n,
            n == t@.len(),
            strutil::all_digits(t@),
            acc == spec_exp_val(t@.take(i as int)),
            acc <= EXP_CLAMP,
        decreases n - i,
    {
        let c = t.get_char(i);
        assert(strutil::is_digit(t@[i as int]));
        let d: u64 = (c as u32 - '0' as u32) as u64;
        proof {
            assert(strutil::all_digits(t@.take(i as int + 1)));
            assert(t@.take(i as int + 1).drop_last() =~= t@.take(i as int));
            assert(t@.take(i as int + 1).last() == t@[i as int]);
            assert(strutil::digit_val(t@[i as int]) == d);
            lemma_exp_step(t@.take(i as int), t@.take(i as int + 1), d as int);
        }
        if acc > (EXP_CLAMP - d) / 10 {
            proof {
                assert(acc * 10 + d > EXP_CLAMP) by (nonlinear_arith)
                    requires
                        acc > (EXP_CLAMP - d) / 10,
                        d <= 9,
                        acc <= EXP_CLAMP,
                ;
            }
            acc = EXP_CLAMP;
        } else {
            proof {
                assert(acc * 10 + d <= EXP_CLAMP) by (nonlinear_arith)
                    requires
                        acc <= (EXP_CLAMP - d) / 10,
                        d <= 9,
                ;
            }
            acc = acc * 10 + d;
        }
        i += 1;
    }
    proof {
        assert(t@.take(n as int) =~= t@);
    }
    acc
}

fn parse_exp(s: &str) -> (r: Option<i64>)
    ensures
        match spec_parse_exp(s@) {
            Some(v) => r matches Some(e) && e == v,
            None => r is None,
        },
{
    let n = s.unicode_len();
    let (neg, t): (bool, &str) = if n >= 1 && (s.get_char(0) == '+' || s.get_char(0) == '-') {
        proof {
            assert(s@.skip(1) =~= s@.drop_first());
        }
        (s.get_char(0) == '-', s.substring_char(1, n))
    } else {
        proof {
            assert(s@.skip(0) =~= s@);
        }
        (false, s.substring_char(0, n))
    };
    if t.unicode_len() == 0 || !strutil::check_all_digits(t) {
        return None;
    }
    let v = exp_digits_val(t);
    if neg {
        Some(-(v as i64))
    } else {
        Some(v as i64)
    }
}

fn parse_mantissa(neg: bool, mant: &str, exp: i64) -> (r: Option<Decimal>)
    ensures
        match spec_parse_mantissa(neg, mant@, exp as int) {
            Some(sd) => r matches Some(d) && d.dec_view() == sd,
            None => r is None,
        },
{
    let mlen = mant.unicode_len();
    let (int_part, frac_part): (&str, &str) = match strutil::find_char(mant, '.') {
        None => {
            proof {
                assert(mant@.skip(0) =~= mant@);
                assert(mant@.subrange(mlen as int, mlen as int) =~= Seq::<char>::empty());
            }
            (mant.substring_char(0, mlen), mant.substring_char(mlen, mlen))
        },
        Some(d) => (mant.substring_char(0, d), mant.substring_char(d + 1, mlen)),
    };
    if !strutil::check_all_digits(int_part) || !strutil::check_all_digits(frac_part) {
        return None;
    }
    let ilen = int_part.unicode_len();
    let flen = frac_part.unicode_len();
    if ilen == 0 && flen == 0 {
        return None;
    }
    let mut digits: Vec<char> = Vec::new();
    let mut i: usize = 0;
    while i < ilen
        invariant
            0 <= i <= ilen,
            ilen == int_part@.len(),
            digits@ == int_part@.take(i as int),
        decreases ilen - i,
    {
        digits.push(int_part.get_char(i));
        proof {
            assert(digits@ =~= int_part@.take(i as int + 1));
        }
        i += 1;
    }
    proof {
        assert(int_part@.take(ilen as int) =~= int_part@);
    }
    let mut j: usize = 0;
    while j < flen
        invariant
            0 <= j <= flen,
            flen == frac_part@.len(),
            ilen == int_part@.len(),
            digits@ == int_part@ + frac_part@.take(j as int),
        decreases flen - j,
    {
        digits.push(frac_part.get_char(j));
        proof {
            assert(digits@ =~= int_part@ + frac_part@.take(j as int + 1));
        }
        j += 1;
    }
    proof {
        assert(frac_part@.take(flen as int) =~= frac_part@);
        assert(digits@ == int_part@ + frac_part@);
    }
    let dlen = digits.len();
    proof {
        assert(digits@.skip(0) =~= digits@);
    }
    let mut lo: usize = 0;
    while lo < dlen && digits[lo] == '0'
        invariant
            0 <= lo <= dlen,
            dlen == digits@.len(),
            spec_strip0_front(digits@) == spec_strip0_front(digits@.skip(lo as int)),
        decreases dlen - lo,
    {
        proof {
            assert(digits@.skip(lo as int)[0] == digits@[lo as int]);
            assert(digits@.skip(lo as int).drop_first() =~= digits@.skip(lo as int + 1));
        }
        lo += 1;
    }
    proof {
        if lo < dlen {
            assert(digits@.skip(lo as int)[0] == digits@[lo as int]);
        }
        assert(spec_strip0_front(digits@) == digits@.skip(lo as int));
    }
    let mut hi: usize = dlen;
    while hi > lo && digits[hi - 1] == '0'
        invariant
            lo <= hi <= dlen,
            dlen == digits@.len(),
            spec_strip0_front(digits@) == digits@.skip(lo as int),
            spec_strip0_back(digits@.skip(lo as int)) == spec_strip0_back(
                digits@.subrange(lo as int, hi as int),
            ),
        decreases hi,
    {
        proof {
            assert(digits@.subrange(lo as int, hi as int).drop_last() =~= digits@.subrange(
                lo as int,
                hi as int - 1,
            ));
            assert(digits@.subrange(lo as int, hi as int).last() == digits@[hi - 1]);
        }
        hi -= 1;
    }
    proof {
        let piece = digits@.subrange(lo as int, hi as int);
        if hi > lo {
            assert(piece.last() == digits@[hi - 1]);
        }
        assert(spec_strip0_back(piece) == piece);
        assert(digits@.skip(lo as int) =~= digits@.subrange(lo as int, dlen as int));
    }
    let mut sig: Vec<char> = Vec::new();
    let mut k: usize = lo;
    while k < hi
        invariant
            lo <= k <= hi <= dlen,
            dlen == digits@.len(),
            sig@ == digits@.subrange(lo as int, k as int),
        decreases hi - k,
    {
        sig.push(digits[k]);
        proof {
            assert(digits@.subrange(lo as int, k as int).push(digits@[k as int]) =~= digits@
                .subrange(lo as int, k as int + 1));
        }
        k += 1;
    }
    if sig.len() == 0 {
        let empty_sig: Vec<char> = Vec::new();
        proof {
            assert(empty_sig@ =~= Seq::<char>::empty());
        }
        Some(Decimal::Num { neg: false, sig: empty_sig, exp: 0 })
    } else {
        let point_exp: i128 = exp as i128 + ilen as i128;
        let exp_norm: i128 = point_exp - lo as i128;
        Some(Decimal::Num { neg, sig, exp: exp_norm })
    }
}

/// Parses a decimal literal; mirrors the float literal grammar, with
/// `inf`, `infinity` and `nan` accepted in any letter case.
pub fn parse_dec(s: &str) -> (r: Option<Decimal>)
    ensures
        match spec_parse_dec(s@) {
            Some(sd) => r matches Some(d) && d.dec_view() == sd,
            None => r is None,
        },
{
    let n = s.unicode_len();
    let (neg, t): (bool, &str) = if n >= 1 && (s.get_char(0) == '+' || s.get_char(0) == '-') {
        proof {
            assert(s@.skip(1) =~= s@.drop_first());
        }
        (s.get_char(0) == '-', s.substring_char(1, n))
    } else {
        proof {
            assert(s@.skip(0) =~= s@);
        }
        (false, s.substring_char(0, n))
    };
    if exec_matches_ci(t, "inf") || exec_matches_ci(t, "infinity") {
        return Some(Decimal::Inf { neg });
    }
    if exec_matches_ci(t, "nan") {
        return Some(Decimal::Nan);
    }
    let tlen = t.unicode_len();
    match find_e(t) {
        None => parse_mantissa(neg, t, 0),
        Some(e) => {
            proof {
                lemma_find_e_in_bounds(t@);
            }
            let exp_str = t.substring_char(e + 1, tlen);
            match parse_exp(exp_str) {
                None => None,
                Some(exp) => parse_mantissa(neg, t.substring_char(0, e), exp),
            }
        },
    }
}

proof fn lemma_find_e_in_bounds(s: Seq<char>)
    ensures
        spec_find_e(s) < s.len(),
    decreases s.len(),
{
    if s.len() > 0 && !(s[0] == 'e' || s[0] == 'E') {
        lemma_find_e_in_bounds(s.drop_first());
    }
}

fn lex_cmp_chars(a: &Vec<char>, b: &Vec<char>) -> (r: i8)
    ensures
        r == vercmp::spec_lex_cmp(a@, b@),
{
    proof {
        assert(a@.skip(0) =~= a@);
        assert(b@.skip(0) =~= b@);
    }
    let mut i: usize = 0;
    loop
        invariant
            0 <= i <= a@.len(),
            i <= b@.len(),
            vercmp::spec_lex_cmp(a@, b@) == vercmp::spec_lex_cmp(
                a@.skip(i as int),
                b@.skip(i as int),
            ),
        decreases a@.len() - i,
    {
        proof {
            assert(a@.skip(i as int).len() == a@.len() - i);
            assert(b@.skip(i as int).len() == b@.len() - i);
        }
        if i >= a.len() && i >= b.len() {
            return 0;
        }
        if i >= a.len() {
            return -1;
        }
        if i >= b.len() {
            return 1;
        }
        let ca = a[i];
        let cb = b[i];
        proof {
            assert(a@.skip(i as int)[0] == a@[i as int]);
            assert(b@.skip(i as int)[0] == b@[i as int]);
        }
        if ca != cb {
            if ca < cb {
                return -1;
            } else {
                return 1;
            }
        }
        proof {
            assert(a@.skip(i as int).drop_first() =~= a@.skip(i as int + 1));
            assert(b@.skip(i as int).drop_first() =~= b@.skip(i as int + 1));
        }
        i += 1;
    }
}

fn dec_cmp(a: &Decimal, b: &Decimal) -> (r: Option<i8>)
    ensures
        match spec_dec_cmp(a.dec_view(), b.dec_view()) {
            Some(c) => r matches Some(rc) && rc == c,
            None => r is None,
        },
{
    match (a, b) {
        (Decimal::Nan, _) => None,
        (_, Decimal::Nan) => None,
        (Decimal::Inf { neg: an }, Decimal::Inf { neg: bn }) => {
            if an == bn {
                Some(0)
            } else if *an {
                Some(-1)
            } else {
                Some(1)
            }
        },
        (Decimal::Inf { neg: an }, Decimal::Num { .. }) => {
            if *an {
                Some(-1)
            } else {
                Some(1)
            }
        },
        (Decimal::Num { .. }, Decimal::Inf { neg: bn }) => {
            if *bn {
                Some(1)
            } else {
                Some(-1)
            }
        },
        (
            Decimal::Num { neg: an, sig: asig, exp: aexp },
            Decimal::Num { neg: bn, sig: bsig, exp: bexp },
        ) => {
            if asig.len() == 0 && bsig.len() == 0 {
                Some(0)
            } else if asig.len() == 0 {
                Some(if *bn { 1 } else { -1 })
            } else if bsig.len() == 0 {
                Some(if *an { -1 } else { 1 })
            } else if an != bn {
                Some(if *an { -1 } else { 1 })
            } else {
                let mag: i8 = if *aexp != *bexp {
                    if *aexp < *bexp {
                        -1
                    } else {
                        1
                    }
                } else {
                    proof {
                        vercmp::lemma_lex_cmp_range(asig@, bsig@);
                    }
                    lex_cmp_chars(asig, bsig)
                };
                if *an {
                    Some(-mag)
                } else {
                    Some(mag)
                }
            }
        },
    }
}

/// Compares two decimal literals; `None` when either fails to parse or is
/// `nan`, otherwise negative, zero or positive.
pub fn num_cmp(a: &str, b: &str) -> (r: Option<i8>)
    ensures
        match spec_num_cmp(a@, b@) {
            Some(c) => r matches Some(rc) && rc == c,
            None => r is None,
        },
{
    let da = parse_dec(a);
    let db = parse_dec(b);
    match (da, db) {
        (Some(x), Some(y)) => dec_cmp(&x, &y),
        _ => None,
    }
}

proof fn lemma_exp_step(prefix: Seq<char>, next: Seq<char>, d: int)
    requires
        strutil::all_digits(next),
        next.len() == prefix.len() + 1,
        next.drop_last() == prefix,
        strutil::digit_val(next.last()) == d,
        0 <= d <= 9,
    ensures
        strutil::digits_val(next) == strutil::digits_val(prefix) * 10 + d,
        strutil::digits_val(prefix) > EXP_CLAMP ==> strutil::digits_val(next) > EXP_CLAMP,
        strutil::digits_val(prefix) >= 0,
{
    assert(strutil::all_digits(prefix)) by {
        assert(forall|i: int| 0 <= i < prefix.len() ==> prefix[i] == #[trigger] next[i]);
    }
    strutil::lemma_digits_val_bounds(prefix);
    let p = strutil::digits_val(prefix);
    assert(p > EXP_CLAMP ==> p * 10 + d > EXP_CLAMP) by (nonlinear_arith)
        requires
            p >= 0,
            d >= 0,
    ;
}

} // verus!
