//! Character-level string helpers: equality, substring tests, trimming,
//! splitting and decimal parsing, each with an exact specification.
use vstd::prelude::*;
use vstd::string::StrSliceExecFns;
use vstd::string::StringExecFns;

verus! {

/// Relies on String::push: appends exactly one character to the string.
#[verifier::external_body]
pub fn push_char(s: &mut String, c: char)
    ensures
        final(s)@ == old(s)@.push(c),
{
    s.push(c);
}

/// What str::to_lowercase returns: a pure function of the characters alone.
pub uninterp spec fn lower_of(s: Seq<char>) -> Seq<char>;

/// Relies on str::to_lowercase: the result depends on the characters alone,
/// and an empty string stays empty.
#[verifier::external_body]
pub fn to_lowercase(s: &str) -> (r: String)
    ensures
        r@ == lower_of(s@),
        s@.len() == 0 ==> r@.len() == 0,
{
    s.to_lowercase()
}

/// Character-for-character equality of two string slices.
pub fn str_eq(a: &str, b: &str) -> (r: bool)
    ensures
        r == (a@ == b@),
{
    let alen = a.unicode_len();
    let blen = b.unicode_len();
    if alen != blen {
        assert(a@ != b@);
        return false;
    }
    let mut i: usize = 0;
    while i < alen
        invariant
            0 <= i <= alen,
            alen == a@.len(),
            alen == b@.len(),
            forall|j: int| 0 <= j < i ==> a@[j] == b@[j],
        decreases alen - i,
    {
        if a.get_char(i) != b.get_char(i) {
            assert(a@ != b@);
            return false;
        }
        i += 1;
    }
    assert(a@ =~= b@);
    true
}

pub open spec fn spec_starts_with(s: Seq<char>, p: Seq<char>) -> bool {
    p.len() <= s.len() && s.subrange(0, p.len() as int) == p
}

pub open spec fn spec_ends_with(s: Seq<char>, p: Seq<char>) -> bool {
    p.len() <= s.len() && s.subrange(s.len() - p.len(), s.len() as int) == p
}

pub open spec fn spec_contains_sub(s: Seq<char>, p: Seq<char>) -> bool {
    exists|k: int|
        0 <= k <= s.len() - p.len() && #[trigger] s.subrange(k, k + p.len()) == p
}

pub fn starts_with(s: &str, p: &str) -> (r: bool)
    ensures
        r == spec_starts_with(s@, p@),
{
    let slen = s.unicode_len();
    let plen = p.unicode_len();
    if plen > slen {
        return false;
    }
    str_eq(s.substring_char(0, plen), p)
}

pub fn ends_with(s: &str, p: &str) -> (r: bool)
    ensures
        r == spec_ends_with(s@, p@),
{
    let slen = s.unicode_len();
    let plen = p.unicode_len();
    if plen > slen {
        return false;
    }
    str_eq(s.substring_char(slen - plen, slen), p)
}

pub fn contains_sub(s: &str, p: &str) -> (r: bool)
    ensures
        r == spec_contains_sub(s@, p@),
{
    let slen = s.unicode_len();
    let plen = p.unicode_len();
    if plen > slen {
        assert(!spec_contains_sub(s@, p@));
        return false;
    }
    if plen == 0 {
        proof {
            assert(s@.subrange(0, 0 + p@.len() as int) =~= p@);
            assert(spec_contains_sub(s@, p@));
        }
        return true;
    }
    let mut k: usize = 0;
    while k <= slen - plen
        invariant
            0 <= k <= slen - plen + 1,
            slen == s@.len(),
            plen == p@.len(),
            1 <= plen <= slen,
            forall|j: int| 0 <= j < k ==> #[trigger] s@.subrange(j, j + p@.len()) != p@,
        decreases slen - k,
    {
        if str_eq(s.substring_char(k, k + plen), p) {
            return true;
        }
        k += 1;
    }
    false
}

pub open spec fn is_space_char(c: char) -> bool {
    c == ' ' || c == '\t' || c == '\n' || c == '\r'
}

pub open spec fn spec_trim_front(s: Seq<char>) -> Seq<char>
    decreases s.len(),
{
    if s.len() > 0 && is_space_char(s[0]) {
        spec_trim_front(s.drop_first())
    } else {
        s
    }
}

pub open spec fn spec_trim_back(s: Seq<char>) -> Seq<char>
    decreases s.len(),
{
    if s.len() > 0 && is_space_char(s.last()) {
        spec_trim_back(s.drop_last())
    } else {
        s
    }
}

/// ASCII whitespace stripped from both ends.
pub open spec fn spec_trim(s: Seq<char>) -> Seq<char> {
    spec_trim_back(spec_trim_front(s))
}

fn exec_is_space(c: char) -> (r: bool)
    ensures
        r == is_space_char(c),
{
    c == ' ' || c == '\t' || c == '\n' || c == '\r'
}

/// ASCII whitespace trimming from both ends, like str::trim on ASCII input.
pub fn trim(s: &str) -> (r: &str)
    ensures
        r@ == spec_trim(s@),
{
    let n = s.unicode_len();
    proof {
        assert(s@.skip(0) =~= s@);
    }
    let mut start: usize = 0;
    while start < n && exec_is_space(s.get_char(start))
        invariant
            0 <= start <= n,
            n == s@.len(),
            spec_trim_front(s@) == spec_trim_front(s@.skip(start as int)),
        decreases n - start,
    {
        proof {
            assert(s@.skip(start as int).drop_first() =~= s@.skip(start as int + 1));
        }
        start += 1;
    }
    proof {
        if start < n {
            assert(!is_space_char(s@.skip(start as int)[0]));
        }
        assert(spec_trim_front(s@) == s@.skip(start as int));
    }
    let mut end: usize = n;
    while end > start && exec_is_space(s.get_char(end - 1))
        invariant
            start <= end <= n,
            n == s@.len(),
            spec_trim_front(s@) == s@.skip(start as int),
            spec_trim_back(s@.skip(start as int)) == spec_trim_back(
                s@.subrange(start as int, end as int),
            ),
        decreases end,
    {
        proof {
            assert(s@.subrange(start as int, end as int).drop_last() =~= s@.subrange(
                start as int,
                end as int - 1,
            ));
            assert(s@.subrange(start as int, end as int).last() == s@[end - 1]);
        }
        end -= 1;
    }
    proof {
        let piece = s@.subrange(start as int, end as int);
        if end > start {
            assert(piece.last() == s@[end - 1]);
            assert(!is_space_char(piece.last()));
        }
        assert(spec_trim_back(piece) == piece);
        assert(s@.skip(start as int) =~= s@.subrange(start as int, n as int));
        assert(spec_trim(s@) == piece);
    }
    s.substring_char(start, end)
}

/// Index of the first occurrence of `sep`, or -1 when absent.
pub open spec fn spec_find(s: Seq<char>, sep: char) -> int
    decreases s.len(),
{
    if s.len() == 0 {
        -1
    } else if s[0] == sep {
        0
    } else {
        let r = spec_find(s.drop_first(), sep);
        if r < 0 {
            -1
        } else {
            r + 1
        }
    }
}

pub proof fn lemma_find_first(s: Seq<char>, sep: char, k: int)
    requires
        0 <= k < s.len(),
        s[k] == sep,
        forall|j: int| 0 <= j < k ==> s[j] != sep,
    ensures
        spec_find(s, sep) == k,
    decreases s.len(),
{
    if k > 0 {
        lemma_find_first(s.drop_first(), sep, k - 1);
    }
}

pub proof fn lemma_find_none(s: Seq<char>, sep: char)
    requires
        forall|j: int| 0 <= j < s.len() ==> s[j] != sep,
    ensures
        spec_find(s, sep) == -1,
    decreases s.len(),
{
    if s.len() > 0 {
        lemma_find_none(s.drop_first(), sep);
    }
}

/// Finds the first occurrence of `sep`.
pub fn find_char(s: &str, sep: char) -> (r: Option<usize>)
    ensures
        match r {
            Some(i) => spec_find(s@, sep) == i && i < s@.len() && s@[i as int] == sep,
            None => spec_find(s@, sep) < 0,
        },
{
    let n = s.unicode_len();
    let mut i: usize = 0;
    while i < n
        invariant
            0 <= i <= n,
            n == s@.len(),
            forall|j: int| 0 <= j < i ==> s@[j] != sep,
        decreases n - i,
    {
        if s.get_char(i) == sep {
            proof {
                lemma_find_first(s@, sep, i as int);
            }
            return Some(i);
        }
        i += 1;
    }
    proof {
        lemma_find_none(s@, sep);
    }
    None
}

/// Whether every character is a decimal digit.
pub fn check_all_digits(s: &str) -> (r: bool)
    ensures
        r == all_digits(s@),
{
    let n = s.unicode_len();
    let mut i: usize = 0;
    while i < n
        invariant
            0 <= i <= n,
            n == s@.len(),
            forall|j: int| 0 <= j < i ==> is_digit(s@[j]),
        decreases n - i,
    {
        let c = s.get_char(i);
        if !(c >= '0' && c <= '9') {
            assert(!is_digit(s@[i as int]));
            return false;
        }
        i += 1;
    }
    true
}

/// The pieces of `s` between occurrences of `sep`, like str::split.
pub open spec fn spec_split(s: Seq<char>, sep: char) -> Seq<Seq<char>>
    decreases s.len(),
{
    let i = spec_find(s, sep);
    if i < 0 || i >= s.len() {
        seq![s]
    } else {
        seq![s.take(i)] + spec_split(s.skip(i + 1), sep)
    }
}

pub proof fn lemma_split_len(s: Seq<char>, sep: char)
    ensures
        spec_split(s, sep).len() >= 1,
    decreases s.len(),
{
    let i = spec_find(s, sep);
    if 0 <= i < s.len() {
        lemma_split_len(s.skip(i + 1), sep);
    }
}

/// Splits on `sep`; each piece is returned as an owned string.
pub fn split_char(s: &str, sep: char) -> (r: Vec<String>)
    ensures
        r@.map_values(|p: String| p@) == spec_split(s@, sep),
{
    let n = s.unicode_len();
    let mut result: Vec<String> = Vec::new();
    proof {
        assert(s@.skip(0) =~= s@);
        assert(result@.map_values(|p: String| p@) =~= Seq::<Seq<char>>::empty());
        assert(Seq::<Seq<char>>::empty() + spec_split(s@, sep) =~= spec_split(s@, sep));
    }
    let mut start: usize = 0;
    let mut i: usize = 0;
    while i < n
        invariant
            0 <= start <= i <= n,
            n == s@.len(),
            forall|j: int| start <= j < i ==> s@[j] != sep,
            spec_split(s@, sep) == result@.map_values(|p: String| p@) + spec_split(
                s@.skip(start as int),
                sep,
            ),
        decreases n - i,
    {
        if s.get_char(i) == sep {
            let piece: String = s.substring_char(start, i).to_owned();
            proof {
                let rest = s@.skip(start as int);
                assert(forall|j: int|
                    0 <= j < i - start ==> rest[j] == s@[start + j] && rest[j] != sep);
                assert(rest[i - start as int] == sep);
                lemma_find_first(rest, sep, i - start as int);
                assert(rest.take(i - start as int) =~= s@.subrange(start as int, i as int));
                assert(rest.skip(i - start as int + 1) =~= s@.skip(i as int + 1));
                assert(spec_split(rest, sep) == seq![piece@] + spec_split(s@.skip(i as int + 1), sep));
                assert((result@ + seq![piece]).map_values(|p: String| p@) =~= result@.map_values(
                    |p: String| p@,
                ) + seq![piece@]);
            }
            result.push(piece);
            start = i + 1;
        }
        i += 1;
    }
    let piece: String = s.substring_char(start, n).to_owned();
    proof {
        let rest = s@.skip(start as int);
        assert(forall|j: int| 0 <= j < rest.len() ==> rest[j] == s@[start + j] && rest[j] != sep);
        lemma_find_none(rest, sep);
        assert(spec_split(rest, sep) == seq![rest]);
        assert(rest =~= s@.subrange(start as int, n as int));
        assert((result@ + seq![piece]).map_values(|p: String| p@) =~= result@.map_values(
            |p: String| p@,
        ) + seq![piece@]);
    }
    result.push(piece);
    result
}

/// The pieces of a comma-separated list, each trimmed of ASCII whitespace.
pub open spec fn spec_split_trimmed(s: Seq<char>, sep: char) -> Seq<Seq<char>> {
    spec_split(s, sep).map_values(|p: Seq<char>| spec_trim(p))
}

/// Splits on `sep` and trims every piece.
pub fn split_trimmed(s: &str, sep: char) -> (r: Vec<String>)
    ensures
        r@.map_values(|p: String| p@) == spec_split_trimmed(s@, sep),
{
    let pieces = split_char(s, sep);
    let mut result: Vec<String> = Vec::new();
    let mut i: usize = 0;
    while i < pieces.len()
        invariant
            0 <= i <= pieces.len(),
            pieces@.map_values(|p: String| p@) == spec_split(s@, sep),
            result@.len() == i,
            forall|j: int| 0 <= j < i ==> result@.map_values(|p: String| p@)[j] == spec_trim(
                pieces@[j]@,
            ),
        decreases pieces.len() - i,
    {
        let t = trim(pieces[i].as_str()).to_owned();
        result.push(t);
        i += 1;
    }
    proof {
        assert(result@.map_values(|p: String| p@) =~= spec_split_trimmed(s@, sep));
    }
    result
}

/// The ghost view of a list of strings.
pub open spec fn strs_view(l: Seq<String>) -> Seq<Seq<char>> {
    l.map_values(|v: String| v@)
}

/// Membership of a string in a list.
pub open spec fn spec_str_list_has(values: Seq<Seq<char>>, v: Seq<char>) -> bool {
    exists|i: int| 0 <= i < values.len() && #[trigger] values[i] == v
}

/// Membership scan, per `spec_str_list_has`.
pub fn list_has(values: &Vec<String>, v: &str) -> (r: bool)
    ensures
        r == spec_str_list_has(strs_view(values@), v@),
{
    let mut i: usize = 0;
    while i < values.len()
        invariant
            0 <= i <= values@.len(),
            forall|j: int| 0 <= j < i ==> #[trigger] strs_view(values@)[j] != v@,
        decreases values@.len() - i,
    {
        if str_eq(values[i].as_str(), v) {
            assert(strs_view(values@)[i as int] == v@);
            return true;
        }
        proof {
            assert(strs_view(values@)[i as int] == values@[i as int]@);
        }
        i += 1;
    }
    false
}

pub open spec fn is_digit(c: char) -> bool {
    '0' <= c && c <= '9'
}

pub open spec fn digit_val(c: char) -> int {
    c as int - '0' as int
}

/// Value of a digit string read in base ten.
pub open spec fn digits_val(s: Seq<char>) -> int
    decreases s.len(),
{
    if s.len() == 0 {
        0
    } else {
        digits_val(s.drop_last()) * 10 + digit_val(s.last())
    }
}

pub open spec fn all_digits(s: Seq<char>) -> bool {
    forall|i: int| 0 <= i < s.len() ==> is_digit(s[i])
}

pub proof fn lemma_digits_val_bounds(s: Seq<char>)
    requires
        all_digits(s),
    ensures
        digits_val(s) >= 0,
        s.len() > 0 ==> digits_val(s) >= digits_val(s.drop_last()),
    decreases s.len(),
{
    if s.len() > 0 {
        assert(all_digits(s.drop_last()));
        lemma_digits_val_bounds(s.drop_last());
    }
}

/// What an unsigned decimal parse accepts: an optional leading '+', then
/// at least one digit, with the value within range.
pub open spec fn spec_parse_u64(s: Seq<char>) -> Option<u64> {
    let t = if s.len() >= 1 && s[0] == '+' {
        s.drop_first()
    } else {
        s
    };
    if t.len() == 0 || !all_digits(t) || digits_val(t) > u64::MAX {
        None
    } else {
        Some(digits_val(t) as u64)
    }
}

fn parse_digits_u64(t: &str) -> (r: Option<u64>)
    ensures
        r matches Some(v) ==> t@.len() > 0 && all_digits(t@) && digits_val(t@) == v,
        r is None ==> t@.len() == 0 || !all_digits(t@) || digits_val(t@) > u64::MAX,
{
    let n = t.unicode_len();
    if n == 0 {
        return None;
    }
    let mut acc: u64 = 0;
    let mut i: usize = 0;
    while i < n
        invariant
            0 <= i <= n,
            n == t@.len(),
            all_digits(t@.take(i as int)),
            acc == digits_val(t@.take(i as int)),
        decreases n - i,
    {
        let c = t.get_char(i);
        if !(c >= '0' && c <= '9') {
            assert(!is_digit(t@[i as int]));
            return None;
        }
        let d: u64 = (c as u32 - '0' as u32) as u64;
        if acc > (u64::MAX - d) / 10 {
            proof {
                assert(t@.take(i as int + 1).drop_last() =~= t@.take(i as int));
                assert(t@.take(i as int + 1).last() == t@[i as int]);
                assert(digit_val(t@[i as int]) == d);
                assert(acc * 10 + d > u64::MAX) by (nonlinear_arith)
                    requires
                        acc > (u64::MAX - d) / 10,
                        d <= 9,
                        acc <= u64::MAX,
                ;
                assert(digits_val(t@.take(i as int + 1)) > u64::MAX);
                if all_digits(t@) {
                    lemma_digits_take_monotone(t@, i as int + 1);
                }
            }
            return None;
        }
        proof {
            assert(t@.take(i as int + 1).drop_last() =~= t@.take(i as int));
            assert(t@.take(i as int + 1).last() == t@[i as int]);
            assert(digit_val(t@[i as int]) == d);
            assert(acc * 10 + d <= u64::MAX) by (nonlinear_arith)
                requires
                    acc <= (u64::MAX - d) / 10,
                    d <= 9,
            ;
        }
        acc = acc * 10 + d;
        i += 1;
    }
    proof {
        assert(t@.take(n as int) =~= t@);
    }
    Some(acc)
}

proof fn lemma_digits_take_monotone(s: Seq<char>, k: int)
    requires
        0 <= k <= s.len(),
        all_digits(s),
        digits_val(s.take(k)) > u64::MAX,
    ensures
        digits_val(s) > u64::MAX,
    decreases s.len() - k,
{
    if k < s.len() {
        assert(s.take(k + 1).drop_last() =~= s.take(k));
        assert(is_digit(s.take(k + 1).last()));
        assert(digits_val(s.take(k + 1)) == digits_val(s.take(k)) * 10 + digit_val(
            s.take(k + 1).last(),
        ));
        lemma_digits_take_monotone(s, k + 1);
    } else {
        assert(s.take(k) =~= s);
    }
}

/// Parses an unsigned 64-bit decimal, like u64::from_str.
pub fn parse_u64(s: &str) -> (r: Option<u64>)
    ensures
        r == spec_parse_u64(s@),
{
    let n = s.unicode_len();
    let t = if n >= 1 && s.get_char(0) == '+' {
        proof {
            assert(s@.skip(1) =~= s@.drop_first());
        }
        s.substring_char(1, n)
    } else {
        proof {
            assert(s@.skip(0) =~= s@);
        }
        s.substring_char(0, n)
    };
    parse_digits_u64(t)
}

/// What a u32 decimal parse accepts.
pub open spec fn spec_parse_u32(s: Seq<char>) -> Option<u32> {
    match spec_parse_u64(s) {
        Some(v) => if v <= u32::MAX as u64 {
            Some(v as u32)
        } else {
            None
        },
        None => None,
    }
}

/// Parses an unsigned 32-bit decimal, like u32::from_str.
pub fn parse_u32(s: &str) -> (r: Option<u32>)
    ensures
        r == spec_parse_u32(s@),
{
    match parse_u64(s) {
        Some(v) => if v <= u32::MAX as u64 {
            Some(v as u32)
        } else {
            None
        },
        None => None,
    }
}

/// What a u8 decimal parse accepts.
pub open spec fn spec_parse_u8(s: Seq<char>) -> Option<u8> {
    match spec_parse_u64(s) {
        Some(v) => if v <= u8::MAX as u64 {
            Some(v as u8)
        } else {
            None
        },
        None => None,
    }
}

/// Parses an unsigned 8-bit decimal, like u8::from_str.
pub fn parse_u8(s: &str) -> (r: Option<u8>)
    ensures
        r == spec_parse_u8(s@),
{
    match parse_u64(s) {
        Some(v) => if v <= u8::MAX as u64 {
            Some(v as u8)
        } else {
            None
        },
        None => None,
    }
}

} // verus!
