//! Semantic-version values and their precedence, as the constraint language
//! compares them: numeric core first, then pre-release identifiers by the
//! semver precedence rules, then build metadata as a final tiebreak.
use vstd::prelude::*;
use vstd::string::StrSliceExecFns;
use crate::strutil;

verus! {

/// A semantic version. Pre-release and build identifiers are stored already
/// split on '.'.
pub struct Version {
    pub major: u64,
    pub minor: u64,
    pub patch: u64,
    pub pre: Vec<String>,
    pub build: Vec<String>,
}

/// The ghost view of a version: plain numbers and identifier sequences.
pub struct VersionView {
    pub major: u64,
    pub minor: u64,
    pub patch: u64,
    pub pre: Seq<Seq<char>>,
    pub build: Seq<Seq<char>>,
}

impl Version {
    pub open spec fn pre_view(&self) -> Seq<Seq<char>> {
        self.pre@.map_values(|p: String| p@)
    }

    pub open spec fn build_view(&self) -> Seq<Seq<char>> {
        self.build@.map_values(|p: String| p@)
    }

    pub open spec fn vview(&self) -> VersionView {
        VersionView {
            major: self.major,
            minor: self.minor,
            patch: self.patch,
            pre: self.pre_view(),
            build: self.build_view(),
        }
    }
}

/// The view of a freshly parsed version string.
pub open spec fn spec_version_of(w: (u64, u64, u64, Seq<char>, Seq<char>)) -> VersionView {
    VersionView {
        major: w.0,
        minor: w.1,
        patch: w.2,
        pre: spec_idents_of(w.3),
        build: spec_idents_of(w.4),
    }
}

/// What semver::Version::parse returns: the numeric triple and the raw
/// pre-release and build strings; a pure function of the text alone.
pub uninterp spec fn semver_of(s: Seq<char>) -> Option<(u64, u64, u64, Seq<char>, Seq<char>)>;

/// Relies on semver::Version::parse: it rejects malformed versions, and on
/// success yields the numeric triple with the pre-release and build strings.
#[verifier::external_body]
fn parse_raw(s: &str) -> (r: Option<(u64, u64, u64, String, String)>)
    ensures
        match (r, semver_of(s@)) {
            (Some(v), Some(w)) => v.0 == w.0 && v.1 == w.1 && v.2 == w.2 && v.3@ == w.3 && v.4@
                == w.4,
            (None, None) => true,
            _ => false,
        },
{
    match semver::Version::parse(s) {
        Ok(v) => Some(
            (
                v.major,
                v.minor,
                v.patch,
                v.pre.as_str().to_string(),
                v.build.as_str().to_string(),
            ),
        ),
        Err(_) => None,
    }
}

/// The identifiers of a dotted identifier string: none when it is empty.
pub open spec fn spec_idents_of(s: Seq<char>) -> Seq<Seq<char>> {
    if s.len() == 0 {
        Seq::empty()
    } else {
        strutil::spec_split(s, '.')
    }
}

impl Version {
    /// Parses a semantic version; `None` exactly when the text is not a
    /// valid semver.
    pub fn parse(s: &str) -> (r: Option<Version>)
        ensures
            match semver_of(s@) {
                Some(w) => r matches Some(v) && v.major == w.0 && v.minor == w.1 && v.patch == w.2
                    && v.pre_view() == spec_idents_of(w.3) && v.build_view() == spec_idents_of(w.4),
                None => r is None,
            },
    {
        match parse_raw(s) {
            Some(raw) => {
                let (major, minor, patch, pre, build) = raw;
                let pre_ids: Vec<String> = if pre.as_str().unicode_len() == 0 {
                    let empty_ids: Vec<String> = Vec::new();
                    proof {
                        assert(empty_ids@.map_values(|p: String| p@)
                            =~= Seq::<Seq<char>>::empty());
                    }
                    empty_ids
                } else {
                    strutil::split_char(pre.as_str(), '.')
                };
                let build_ids: Vec<String> = if build.as_str().unicode_len() == 0 {
                    let empty_ids: Vec<String> = Vec::new();
                    proof {
                        assert(empty_ids@.map_values(|p: String| p@)
                            =~= Seq::<Seq<char>>::empty());
                    }
                    empty_ids
                } else {
                    strutil::split_char(build.as_str(), '.')
                };
                Some(Version { major, minor, patch, pre: pre_ids, build: build_ids })
            },
            None => None,
        }
    }
}

/// Lexicographic comparison of two character sequences by code point.
pub open spec fn spec_lex_cmp(a: Seq<char>, b: Seq<char>) -> int
    decreases a.len(),
{
    if a.len() == 0 && b.len() == 0 {
        0
    } else if a.len() == 0 {
        -1
    } else if b.len() == 0 {
        1
    } else if a[0] != b[0] {
        if (a[0] as int) < (b[0] as int) {
            -1
        } else {
            1
        }
    } else {
        spec_lex_cmp(a.drop_first(), b.drop_first())
    }
}

/// One pre-release identifier against another: digit-only identifiers
/// compare numerically (by length, then lexically, as they carry no leading
/// zeros), numeric ranks below alphanumeric, and alphanumerics compare
/// lexically in ASCII order.
pub open spec fn spec_pre_ident_cmp(a: Seq<char>, b: Seq<char>) -> int {
    if strutil::all_digits(a) && strutil::all_digits(b) {
        if a.len() != b.len() {
            if a.len() < b.len() {
                -1
            } else {
                1
            }
        } else {
            spec_lex_cmp(a, b)
        }
    } else if strutil::all_digits(a) {
        -1
    } else if strutil::all_digits(b) {
        1
    } else {
        spec_lex_cmp(a, b)
    }
}

/// Leading zeros stripped from a digit identifier.
pub open spec fn spec_strip_zeros(s: Seq<char>) -> Seq<char>
    decreases s.len(),
{
    if s.len() > 0 && s[0] == '0' {
        spec_strip_zeros(s.drop_first())
    } else {
        s
    }
}

/// One build identifier against another: digit-only identifiers compare by
/// their value and then by their number of leading zeros.
pub open spec fn spec_build_ident_cmp(a: Seq<char>, b: Seq<char>) -> int {
    if strutil::all_digits(a) && strutil::all_digits(b) {
        let ta = spec_strip_zeros(a);
        let tb = spec_strip_zeros(b);
        if ta.len() != tb.len() {
            if ta.len() < tb.len() {
                -1
            } else {
                1
            }
        } else if spec_lex_cmp(ta, tb) != 0 {
            spec_lex_cmp(ta, tb)
        } else if a.len() != b.len() {
            if a.len() < b.len() {
                -1
            } else {
                1
            }
        } else {
            0
        }
    } else if strutil::all_digits(a) {
        -1
    } else if strutil::all_digits(b) {
        1
    } else {
        spec_lex_cmp(a, b)
    }
}

/// Identifier lists compare pairwise; when one runs out first it ranks
/// lower.
pub open spec fn spec_idents_cmp(a: Seq<Seq<char>>, b: Seq<Seq<char>>, build_rules: bool) -> int
    decreases a.len(),
{
    if a.len() == 0 && b.len() == 0 {
        0
    } else if a.len() == 0 {
        -1
    } else if b.len() == 0 {
        1
    } else {
        let c = if build_rules {
            spec_build_ident_cmp(a[0], b[0])
        } else {
            spec_pre_ident_cmp(a[0], b[0])
        };
        if c != 0 {
            c
        } else {
            spec_idents_cmp(a.drop_first(), b.drop_first(), build_rules)
        }
    }
}

/// Pre-release precedence: a version without pre-release identifiers ranks
/// above any with them.
pub open spec fn spec_pre_cmp(a: Seq<Seq<char>>, b: Seq<Seq<char>>) -> int {
    if a.len() == 0 && b.len() == 0 {
        0
    } else if a.len() == 0 {
        1
    } else if b.len() == 0 {
        -1
    } else {
        spec_idents_cmp(a, b, false)
    }
}

/// Total order on versions: numeric core, then pre-release precedence, then
/// build metadata.
pub open spec fn spec_version_cmp(a: VersionView, b: VersionView) -> int {
    if a.major != b.major {
        if a.major < b.major {
            -1
        } else {
            1
        }
    } else if a.minor != b.minor {
        if a.minor < b.minor {
            -1
        } else {
            1
        }
    } else if a.patch != b.patch {
        if a.patch < b.patch {
            -1
        } else {
            1
        }
    } else {
        let p = spec_pre_cmp(a.pre, b.pre);
        if p != 0 {
            p
        } else {
            spec_idents_cmp(a.build, b.build, true)
        }
    }
}

/// The lexicographic comparison only yields -1, 0 or 1.
pub proof fn lemma_lex_cmp_range(a: Seq<char>, b: Seq<char>)
    ensures
        -1 <= spec_lex_cmp(a, b) <= 1,
    decreases a.len(),
{
    if a.len() > 0 && b.len() > 0 && a[0] == b[0] {
        lemma_lex_cmp_range(a.drop_first(), b.drop_first());
    }
}

fn lex_cmp(a: &str, b: &str) -> (r: i8)
    ensures
        r == spec_lex_cmp(a@, b@),
{
    let alen = a.unicode_len();
    let blen = b.unicode_len();
    proof {
        assert(a@.skip(0) =~= a@);
        assert(b@.skip(0) =~= b@);
    }
    let mut i: usize = 0;
    loop
        invariant
            0 <= i <= alen,
            i <= blen,
            alen == a@.len(),
            blen == b@.len(),
            spec_lex_cmp(a@, b@) == spec_lex_cmp(a@.skip(i as int), b@.skip(i as int)),
        decreases alen - i,
    {
        proof {
            assert(a@.skip(i as int).len() == alen - i);
            assert(b@.skip(i as int).len() == blen - i);
        }
        if i >= alen && i >= blen {
            return 0;
        }
        if i >= alen {
            return -1;
        }
        if i >= blen {
            return 1;
        }
        let ca = a.get_char(i);
        let cb = b.get_char(i);
        proof {
            assert(a@.skip(i as int)[0] == a@[i as int]);
            assert(b@.skip(i as int)[0] == b@[i as int]);
        }
        if ca != cb {
            if (ca as u32) < (cb as u32) {
                return -1;
            } else {
                return 1;
            }
        }
        proof {
            assert(a@.skip(i as int).drop_first() =~= a@.skip(i as int + 1));
            assert(b@.skip(i as int).drop_first() =~= b@.skip(i as int + 1));
        }
        i += 1;
    }
}

fn strip_zeros(s: &str) -> (r: &str)
    ensures
        r@ == spec_strip_zeros(s@),
{
    let n = s.unicode_len();
    proof {
        assert(s@.skip(0) =~= s@);
    }
    let mut i: usize = 0;
    while i < n && s.get_char(i) == '0'
        invariant
            0 <= i <= n,
            n == s@.len(),
            spec_strip_zeros(s@) == spec_strip_zeros(s@.skip(i as int)),
        decreases n - i,
    {
        proof {
            assert(s@.skip(i as int)[0] == s@[i as int]);
            assert(s@.skip(i as int).drop_first() =~= s@.skip(i as int + 1));
        }
        i += 1;
    }
    proof {
        if i < n {
            assert(s@.skip(i as int)[0] == s@[i as int]);
        }
        assert(spec_strip_zeros(s@.skip(i as int)) == s@.skip(i as int));
    }
    s.substring_char(i, n)
}

fn pre_ident_cmp(a: &str, b: &str) -> (r: i8)
    ensures
        r == spec_pre_ident_cmp(a@, b@),
{
    let an = strutil::check_all_digits(a);
    let bn = strutil::check_all_digits(b);
    if an && bn {
        let alen = a.unicode_len();
        let blen = b.unicode_len();
        if alen != blen {
            if alen < blen {
                -1
            } else {
                1
            }
        } else {
            lex_cmp(a, b)
        }
    } else if an {
        -1
    } else if bn {
        1
    } else {
        lex_cmp(a, b)
    }
}

fn build_ident_cmp(a: &str, b: &str) -> (r: i8)
    ensures
        r == spec_build_ident_cmp(a@, b@),
{
    let an = strutil::check_all_digits(a);
    let bn = strutil::check_all_digits(b);
    if an && bn {
        let ta = strip_zeros(a);
        let tb = strip_zeros(b);
        let talen = ta.unicode_len();
        let tblen = tb.unicode_len();
        if talen != tblen {
            if talen < tblen {
                -1
            } else {
                1
            }
        } else {
            let c = lex_cmp(ta, tb);
            if c != 0 {
                c
            } else {
                let alen = a.unicode_len();
                let blen = b.unicode_len();
                if alen != blen {
                    if alen < blen {
                        -1
                    } else {
                        1
                    }
                } else {
                    0
                }
            }
        }
    } else if an {
        -1
    } else if bn {
        1
    } else {
        lex_cmp(a, b)
    }
}

fn idents_cmp(a: &Vec<String>, b: &Vec<String>, build_rules: bool) -> (r: i8)
    ensures
        r == spec_idents_cmp(
            a@.map_values(|p: String| p@),
            b@.map_values(|p: String| p@),
            build_rules,
        ),
{
    let ghost av = a@.map_values(|p: String| p@);
    let ghost bv = b@.map_values(|p: String| p@);
    let mut i: usize = 0;
    proof {
        assert(av.skip(0) =~= av);
        assert(bv.skip(0) =~= bv);
    }
    loop
        invariant
            0 <= i <= a@.len(),
            i <= b@.len(),
            av == a@.map_values(|p: String| p@),
            bv == b@.map_values(|p: String| p@),
            spec_idents_cmp(av, bv, build_rules) == spec_idents_cmp(
                av.skip(i as int),
                bv.skip(i as int),
                build_rules,
            ),
        decreases a@.len() - i,
    {
        proof {
            assert(av.skip(i as int).len() == av.len() - i);
            assert(bv.skip(i as int).len() == bv.len() - i);
        }
        if i >= a.len() && i >= b.len() {
            return 0;
        }
        if i >= a.len() {
            return -1;
        }
        if i >= b.len() {
            return 1;
        }
        proof {
            assert(av.skip(i as int)[0] == av[i as int]);
            assert(bv.skip(i as int)[0] == bv[i as int]);
        }
        let c = if build_rules {
            build_ident_cmp(a[i].as_str(), b[i].as_str())
        } else {
            pre_ident_cmp(a[i].as_str(), b[i].as_str())
        };
        if c != 0 {
            return c;
        }
        proof {
            assert(av.skip(i as int).drop_first() =~= av.skip(i as int + 1));
            assert(bv.skip(i as int).drop_first() =~= bv.skip(i as int + 1));
        }
        i += 1;
    }
}

/// Compares two versions: negative, zero or positive as the first ranks
/// below, equal to or above the second.
pub fn version_cmp(a: &Version, b: &Version) -> (r: i8)
    ensures
        r == spec_version_cmp(a.vview(), b.vview()),
{
    if a.major != b.major {
        return if a.major < b.major {
            -1
        } else {
            1
        };
    }
    if a.minor != b.minor {
        return if a.minor < b.minor {
            -1
        } else {
            1
        };
    }
    if a.patch != b.patch {
        return if a.patch < b.patch {
            -1
        } else {
            1
        };
    }
    let p = if a.pre.len() == 0 && b.pre.len() == 0 {
        0
    } else if a.pre.len() == 0 {
        1
    } else if b.pre.len() == 0 {
        -1
    } else {
        idents_cmp(&a.pre, &b.pre, false)
    };
    if p != 0 {
        return p;
    }
    idents_cmp(&a.build, &b.build, true)
}

} // verus!
