//! Location (colo) codes: extraction from CDN response headers and matching
//! against the wanted codes.

use vstd::prelude::*;
use vstd::string::StrSliceExecFns;
use crate::hash::FastBuildHasher;
use crate::text::{chars_of, trim_bounds, trim};
use crate::traits::{HttpingResponse, Rand};

verus! {

/// What the regex `pattern` finds first (leftmost-first) in `hay`, as matched text;
/// nothing when it finds nothing or the pattern does not compile.
pub uninterp spec fn regex_first_match(pattern: Seq<char>, hay: Seq<char>) -> Option<Seq<char>>;

/// The successive non-overlapping matches of the regex `pattern` in `hay`, as matched
/// texts; none when the pattern does not compile.
pub uninterp spec fn regex_all_matches(pattern: Seq<char>, hay: Seq<char>) -> Seq<Seq<char>>;

/// The full Unicode upper-case mapping of `s`, as `str::to_uppercase` computes it.
pub uninterp spec fn uppercase(s: Seq<char>) -> Seq<char>;

/// Whether `c` is an ASCII upper-case letter.
pub open spec fn is_ascii_upper(c: char) -> bool {
    'A' <= c && c <= 'Z'
}

/// Whether `c` is an ASCII lower-case letter.
pub open spec fn is_ascii_lower(c: char) -> bool {
    'a' <= c && c <= 'z'
}

/// Whether `s[i..i + n]` lies within `s` and is made of ASCII upper-case letters.
pub open spec fn caps_at(s: Seq<char>, i: int, n: nat) -> bool {
    &&& 0 <= i
    &&& i + n <= s.len()
    &&& forall|j: int| i <= j < i + n ==> is_ascii_upper(#[trigger] s[j])
}

/// The leftmost position at or after `from` where `n` ASCII capitals start.
pub open spec fn caps_from(s: Seq<char>, from: int, n: nat) -> Option<int>
    decreases s.len() - from,
{
    if from < 0 || from >= s.len() || from + n > s.len() {
        None
    } else if caps_at(s, from, n) {
        Some(from)
    } else {
        caps_from(s, from + 1, n)
    }
}

/// The leftmost run of `n` ASCII capitals in `s` (what the regex `[A-Z]{n}` finds).
pub open spec fn first_caps(s: Seq<char>, n: nat) -> Option<Seq<char>> {
    match caps_from(s, 0, n) {
        Some(i) => Some(s.subrange(i, i + n)),
        None => None,
    }
}

/// The successive non-overlapping runs of three ASCII capitals found by scanning `s`
/// from `from`, each search resuming where the previous run ends.
pub open spec fn caps3_runs_from(s: Seq<char>, from: int) -> Seq<Seq<char>>
    decreases s.len() - from,
{
    if from < 0 || from >= s.len() || from + 3 > s.len() {
        seq![]
    } else if caps_at(s, from, 3) {
        seq![s.subrange(from, from + 3)] + caps3_runs_from(s, from + 3)
    } else {
        caps3_runs_from(s, from + 1)
    }
}

/// The successive non-overlapping runs of three ASCII capitals in `s` (the matches
/// that `find_iter` of the regex `[A-Z]{3}` yields).
pub open spec fn caps3_runs(s: Seq<char>) -> Seq<Seq<char>> {
    caps3_runs_from(s, 0)
}

/// The last of the runs of three ASCII capitals in `s`.
pub open spec fn last_caps3(s: Seq<char>) -> Option<Seq<char>> {
    if caps3_runs(s).len() > 0 {
        Some(caps3_runs(s).last())
    } else {
        None
    }
}

/// The first two characters of `s` when both are ASCII lower-case letters (what the
/// regex `^[a-z]{2}` finds).
pub open spec fn lower_pair(s: Seq<char>) -> Option<Seq<char>> {
    if s.len() >= 2 && is_ascii_lower(s[0]) && is_ascii_lower(s[1]) {
        Some(s.take(2))
    } else {
        None
    }
}

/// `s` with its ASCII lower-case letters made upper-case.
pub open spec fn ascii_upper(s: Seq<char>) -> Seq<char> {
    s.map_values(|c: char| if is_ascii_lower(c) { ((c as int) - 32) as char } else { c })
}

/// The characters of an optional string.
pub open spec fn opt_string_view(m: Option<String>) -> Option<Seq<char>> {
    match m {
        Some(s) => Some(s@),
        None => None,
    }
}

/// Compiles `pattern` with `regex::Regex::new` and returns the text of the first
/// match that `Regex::find` reports in `hay`. The contract names that result as a
/// function of the pattern and the haystack, and states it for the three patterns the
/// library uses: `[A-Z]{3}` and `[A-Z]{2}` find the leftmost run of that many ASCII
/// capitals (the class `A-Z` holds those 26 letters only, and `find` is leftmost),
/// `^[a-z]{2}` the first two characters when both are ASCII lower-case letters.
#[verifier::external_body]
fn regex_first(pattern: &str, hay: &str) -> (m: Option<String>)
    ensures
        match m {
            Some(s) => regex_first_match(pattern@, hay@) == Some(s@),
            None => regex_first_match(pattern@, hay@) == None::<Seq<char>>,
        },
        pattern@ == iata_pattern() ==> opt_string_view(m) == first_caps(hay@, 3),
        pattern@ == country_pattern() ==> opt_string_view(m) == first_caps(hay@, 2),
        pattern@ == gcore_pattern() ==> opt_string_view(m) == lower_pair(hay@),
{
    match regex::Regex::new(pattern) {
        Ok(re) => match re.find(hay) {
            Some(found) => Some(found.as_str().to_string()),
            None => None,
        },
        Err(_) => None,
    }
}

/// The characters of each string of a sequence.
pub open spec fn string_views(v: Seq<String>) -> Seq<Seq<char>> {
    v.map_values(|t: String| t@)
}

/// Compiles `pattern` with `regex::Regex::new` and returns the texts of all the matches
/// that `Regex::find_iter` yields in `hay`, in order; none when the pattern does not
/// compile. The contract names that sequence as a function of the pattern and the
/// haystack, and states it for `[A-Z]{3}`: the matches are the successive
/// non-overlapping leftmost runs of three ASCII capitals, each search resuming where
/// the previous match ends.
#[verifier::external_body]
fn regex_matches(pattern: &str, hay: &str) -> (m: Vec<String>)
    ensures
        string_views(m@) == regex_all_matches(pattern@, hay@),
        pattern@ == iata_pattern() ==> string_views(m@) == caps3_runs(hay@),
{
    match regex::Regex::new(pattern) {
        Ok(re) => re.find_iter(hay).map(|x| x.as_str().to_string()).collect(),
        Err(_) => Vec::new(),
    }
}

/// Whether every character of `t` is ASCII.
pub open spec fn is_ascii_text(t: Seq<char>) -> bool {
    forall|i: int| 0 <= i < t.len() ==> (#[trigger] t[i] as int) < 128
}

/// The upper-case form of `t` used for location codes: ASCII upper-casing on ASCII
/// text, the full Unicode mapping otherwise.
pub open spec fn upcase(t: Seq<char>) -> Seq<char> {
    if is_ascii_text(t) {
        ascii_upper(t)
    } else {
        uppercase(t)
    }
}

/// Calls `str::to_uppercase`; the contract names its result (the Unicode upper-case
/// mapping of the characters), spells the mapping out for ASCII text, where it turns
/// `a`-`z` into `A`-`Z` and keeps every other character, and states that no character
/// maps to nothing (each maps to one or more characters).
#[verifier::external_body]
fn to_upper(s: &str) -> (r: String)
    ensures
        r@ == uppercase(s@),
        is_ascii_text(s@) ==> r@ == ascii_upper(s@),
        r@.len() >= s@.len(),
{
    s.to_uppercase()
}

/// A set of location codes, kept in a `hashbrown::HashSet` hashed by `FastBuildHasher`.
#[verifier::external_body]
pub struct ColoSet {
    inner: hashbrown::HashSet<String, FastBuildHasher>,
}

/// The codes a `ColoSet` holds.
pub uninterp spec fn colo_set_contents(s: ColoSet) -> Set<Seq<char>>;

impl ColoSet {
    /// Calls `hashbrown::HashSet::with_hasher`: an empty set.
    #[verifier::external_body]
    fn with_hasher(hasher: FastBuildHasher) -> (s: ColoSet)
        ensures
            colo_set_contents(s) == Set::<Seq<char>>::empty(),
    {
        ColoSet { inner: hashbrown::HashSet::with_hasher(hasher) }
    }

    /// Calls `hashbrown::HashSet::insert`: afterwards the set also holds `value`.
    #[verifier::external_body]
    fn insert(&mut self, value: String)
        ensures
            colo_set_contents(*final(self)) == colo_set_contents(*old(self)).insert(value@),
    {
        self.inner.insert(value);
    }

    /// Calls `hashbrown::HashSet::contains`: whether the set holds `value`.
    #[verifier::external_body]
    fn contains(&self, value: &str) -> (b: bool)
        ensures
            b == colo_set_contents(*self).contains(value@),
    {
        self.inner.contains(value)
    }
}

/// The pieces of `rest` split at commas, the first beginning with `cur`.
pub open spec fn comma_pieces_from(cur: Seq<char>, rest: Seq<char>) -> Seq<Seq<char>>
    decreases rest.len(),
{
    if rest.len() == 0 {
        seq![cur]
    } else if rest[0] == ',' {
        seq![cur] + comma_pieces_from(Seq::empty(), rest.drop_first())
    } else {
        comma_pieces_from(cur.push(rest[0]), rest.drop_first())
    }
}

/// The codes named by comma-separated pieces: each piece trimmed and upper-cased,
/// empty results left out.
pub open spec fn codes_of(ps: Seq<Seq<char>>) -> Set<Seq<char>>
    decreases ps.len(),
{
    if ps.len() == 0 {
        Set::empty()
    } else {
        let u = upcase(trim(ps.last()));
        let rest = codes_of(ps.drop_last());
        if u.len() > 0 {
            rest.insert(u)
        } else {
            rest
        }
    }
}

/// The wanted codes of a target text: none (every code wanted) when the text is blank,
/// else the codes of its comma-separated pieces.
pub open spec fn target_codes(text: Seq<char>) -> Option<Set<Seq<char>>> {
    if trim(text).len() == 0 {
        None
    } else {
        Some(codes_of(comma_pieces_from(Seq::empty(), text)))
    }
}

/// Whether `colo` is wanted by a matcher with targets `targets`: never when empty,
/// always when every code is wanted, else when its upper-case form is a target.
pub open spec fn colo_wanted(targets: Option<Set<Seq<char>>>, colo: Seq<char>) -> bool {
    colo.len() > 0 && match targets {
        Some(codes) => codes.contains(upcase(colo)),
        None => true,
    }
}

/// Extracts location codes from responses and decides whether a code is wanted.
pub struct ColoMatcher {
    target_colos: Option<ColoSet>,
}

impl View for ColoMatcher {
    type V = Option<Set<Seq<char>>>;

    /// The wanted codes, upper case; `None` when every code is wanted.
    closed spec fn view(&self) -> Option<Set<Seq<char>>> {
        match self.target_colos {
            Some(s) => Some(colo_set_contents(s)),
            None => None,
        }
    }
}

/// Three consecutive ASCII upper-case letters: an airport (IATA) code.
pub open spec fn iata_pattern() -> Seq<char> {
    "[A-Z]{3}"@
}

/// Two consecutive ASCII upper-case letters: a country code.
pub open spec fn country_pattern() -> Seq<char> {
    "[A-Z]{2}"@
}

/// Two ASCII lower-case letters at the start: a G-Core location prefix.
pub open spec fn gcore_pattern() -> Seq<char> {
    "^[a-z]{2}"@
}

/// The leftmost run of `n` ASCII capitals in a header value, when the header is present.
pub open spec fn header_caps(h: Option<Seq<char>>, n: nat) -> Option<Seq<char>> {
    match h {
        Some(v) => first_caps(v, n),
        None => None,
    }
}

/// The two leading ASCII lower-case letters of a header value, when present.
pub open spec fn header_lower_pair(h: Option<Seq<char>>) -> Option<Seq<char>> {
    match h {
        Some(v) => lower_pair(v),
        None => None,
    }
}

/// Whether `needle` occurs in `s`.
pub open spec fn has_infix(s: Seq<char>, needle: Seq<char>) -> bool {
    exists|i: int| 0 <= i <= s.len() - needle.len() && #[trigger] s.subrange(i, i + needle.len()) == needle
}

/// `s` with every leading repetition of the non-empty `p` removed.
pub open spec fn strip_prefixes(s: Seq<char>, p: Seq<char>) -> Seq<char>
    decreases s.len(),
{
    if p.len() > 0 && p.len() <= s.len() && s.take(p.len() as int) == p {
        strip_prefixes(s.skip(p.len() as int), p)
    } else {
        s
    }
}

/// The location code read from the response headers `server`, `cf-ray`, `x-77-pop`,
/// `x-amz-cf-pop`, `x-served-by` and `x-id-fe`, tried in that order; empty when
/// none of them gives one.
pub open spec fn colo_choice(
    server: Option<Seq<char>>,
    cf_ray: Option<Seq<char>>,
    pop77: Option<Seq<char>>,
    amz_pop: Option<Seq<char>>,
    served_by: Option<Seq<char>>,
    id_fe: Option<Seq<char>>,
) -> Seq<char> {
    if server == Some("cloudflare"@) && header_caps(cf_ray, 3) is Some {
        header_caps(cf_ray, 3)->0
    } else if server == Some("CDN77-Turbo"@) && header_caps(pop77, 2) is Some {
        header_caps(pop77, 2)->0
    } else if server is Some && has_infix(server->0, "BunnyCDN-"@) && first_caps(
        strip_prefixes(server->0, "BunnyCDN-"@),
        2,
    ) is Some {
        first_caps(strip_prefixes(server->0, "BunnyCDN-"@), 2)->0
    } else if header_caps(amz_pop, 3) is Some {
        header_caps(amz_pop, 3)->0
    } else if served_by is Some && last_caps3(served_by->0) is Some {
        last_caps3(served_by->0)->0
    } else if header_lower_pair(id_fe) is Some {
        ascii_upper(header_lower_pair(id_fe)->0)
    } else {
        Seq::empty()
    }
}

/// The location code of a response: what `colo_choice` picks from the values of its
/// headers `server`, `cf-ray`, `x-77-pop`, `x-amz-cf-pop`, `x-served-by` and `x-id-fe`.
pub open spec fn response_colo<R: HttpingResponse + ?Sized>(resp: &R) -> Seq<char> {
    colo_choice(
        resp.header_spec("server"@),
        resp.header_spec("cf-ray"@),
        resp.header_spec("x-77-pop"@),
        resp.header_spec("x-amz-cf-pop"@),
        resp.header_spec("x-served-by"@),
        resp.header_spec("x-id-fe"@),
    )
}

/// Whether two character sequences are equal.
fn chars_equal(a: &Vec<char>, b: &Vec<char>) -> (r: bool)
    ensures
        r == (a@ == b@),
{
    if a.len() != b.len() {
        return false;
    }
    let mut i: usize = 0;
    while i < a.len()
        invariant
            a@.len() == b@.len(),
            i <= a@.len(),
            forall|j: int| 0 <= j < i ==> a@[j] == b@[j],
        decreases a.len() - i,
    {
        if a[i] != b[i] {
            return false;
        }
        i = i + 1;
    }
    assert(a@ =~= b@);
    true
}

/// Whether `s[at..]` begins with `p`.
fn starts_at(s: &Vec<char>, at: usize, p: &Vec<char>) -> (r: bool)
    requires
        at <= s@.len(),
    ensures
        r == (p@.len() <= s@.len() - at && s@.subrange(at as int, at + p@.len()) == p@),
{
    let slen = s.len();
    if p.len() > slen - at {
        return false;
    }
    let mut i: usize = 0;
    while i < p.len()
        invariant
            slen == s@.len(),
            at <= slen,
            p@.len() <= s@.len() - at,
            i <= p@.len(),
            forall|j: int| 0 <= j < i ==> s@[at + j] == p@[j],
        decreases p.len() - i,
    {
        if s[at + i] != p[i] {
            assert(s@.subrange(at as int, at + p@.len())[i as int] != p@[i as int]);
            return false;
        }
        i = i + 1;
    }
    assert(s@.subrange(at as int, at + p@.len()) =~= p@);
    true
}

/// Whether `p` occurs in `s`.
fn contains_infix(s: &Vec<char>, p: &Vec<char>) -> (r: bool)
    ensures
        r == has_infix(s@, p@),
{
    let slen = s.len();
    let plen = p.len();
    if plen > slen {
        return false;
    }
    let last = slen - plen;
    let mut i: usize = 0;
    loop
        invariant
            slen == s@.len(),
            plen == p@.len(),
            last == slen - plen,
            i <= last,
            forall|j: int| 0 <= j < i ==> #[trigger] s@.subrange(j, j + p@.len()) != p@,
        decreases last - i,
    {
        if starts_at(s, i, p) {
            return true;
        }
        if i == last {
            return false;
        }
        i = i + 1;
    }
}

/// The index where `s` is left after removing every leading repetition of `p`.
fn strip_prefixes_at(s: &Vec<char>, p: &Vec<char>) -> (k: usize)
    requires
        p@.len() > 0,
    ensures
        k <= s@.len(),
        s@.skip(k as int) == strip_prefixes(s@, p@),
{
    let slen = s.len();
    let mut k: usize = 0;
    proof {
        assert(s@.skip(0) =~= s@);
    }
    while starts_at(s, k, p)
        invariant
            slen == s@.len(),
            k <= s@.len(),
            p@.len() > 0,
            strip_prefixes(s@.skip(k as int), p@) == strip_prefixes(s@, p@),
        decreases s@.len() - k,
    {
        proof {
            let t = s@.skip(k as int);
            assert(t.take(p@.len() as int) =~= s@.subrange(k as int, k + p@.len()));
            assert(t.skip(p@.len() as int) =~= s@.skip(k + p@.len()));
        }
        k = k + p.len();
    }
    proof {
        let t = s@.skip(k as int);
        if p@.len() <= t.len() {
            assert(t.take(p@.len() as int) =~= s@.subrange(k as int, k + p@.len()));
        }
    }
    k
}

/// The characters of an optional text.
pub open spec fn opt_view(h: Option<&str>) -> Option<Seq<char>> {
    match h {
        Some(v) => Some(v@),
        None => None,
    }
}

/// The first match of `pattern` in a header value, when the header is present.
fn find_first(pattern: &str, header: Option<&str>) -> (m: Option<String>)
    ensures
        pattern@ == iata_pattern() ==> opt_string_view(m) == header_caps(opt_view(header), 3),
        pattern@ == country_pattern() ==> opt_string_view(m) == header_caps(opt_view(header), 2),
        pattern@ == gcore_pattern() ==> opt_string_view(m) == header_lower_pair(opt_view(header)),
{
    match header {
        Some(h) => regex_first(pattern, h),
        None => None,
    }
}

/// Adds the code named by the piece `cs[a..b]` of `text`, if it names one.
fn add_code(set: &mut ColoSet, text: &str, cs: &Vec<char>, a: usize, b: usize)
    requires
        cs@ == text@,
        a <= b <= cs@.len(),
    ensures
        ({
            let u = upcase(trim(cs@.subrange(a as int, b as int)));
            colo_set_contents(*final(set)) == if u.len() > 0 {
                colo_set_contents(*old(set)).insert(u)
            } else {
                colo_set_contents(*old(set))
            }
        }),
{
    let (lo, hi) = trim_bounds(cs, a, b);
    let piece = text.substring_char(lo, hi);
    let code = to_upper(piece);
    if !code.as_str().is_empty() {
        set.insert(code);
    }
}

impl ColoMatcher {
    /// A matcher for the comma-separated codes in `target_colos_str`, its set hashed
    /// with a seed drawn from `rng`.
    pub fn new<G: Rand + ?Sized>(target_colos_str: &str, rng: &mut G) -> (m: Self)
        ensures
            m@ == target_codes(target_colos_str@),
            G::obeys_rand_spec() ==> final(rng).drawn().len() == old(rng).drawn().len() + 1
                && final(rng).drawn().drop_last() == old(rng).drawn(),
    {
        Self::new_with_hasher(target_colos_str, FastBuildHasher::from_rng(rng))
    }

    /// A matcher for the comma-separated codes in `target_colos_str`: every code is
    /// wanted when the text is blank, else exactly the trimmed, upper-cased,
    /// non-empty pieces.
    pub fn new_with_hasher(target_colos_str: &str, hasher: FastBuildHasher) -> (m: Self)
        ensures
            m@ == target_codes(target_colos_str@),
    {
        let cs = chars_of(target_colos_str);
        let n = cs.len();
        let (lo, hi) = trim_bounds(&cs, 0, n);
        assert(cs@.subrange(0, n as int) =~= cs@);
        if lo == hi {
            return Self { target_colos: None };
        }
        let mut set = ColoSet::with_hasher(hasher);
        let ghost mut done: Seq<Seq<char>> = Seq::empty();
        let mut seg_start: usize = 0;
        let mut i: usize = 0;
        proof {
            assert(cs@.skip(0) =~= cs@);
            assert(cs@.subrange(0, 0) =~= Seq::<char>::empty());
        }
        while i < n
            invariant
                n == cs@.len(),
                cs@ == target_colos_str@,
                seg_start <= i <= n,
                done + comma_pieces_from(cs@.subrange(seg_start as int, i as int), cs@.skip(i as int))
                    == comma_pieces_from(Seq::empty(), target_colos_str@),
                colo_set_contents(set) == codes_of(done),
            decreases n - i,
        {
            proof {
                assert(cs@.skip(i as int).drop_first() =~= cs@.skip(i + 1));
            }
            if cs[i] == ',' {
                let ghost piece = cs@.subrange(seg_start as int, i as int);
                add_code(&mut set, target_colos_str, &cs, seg_start, i);
                proof {
                    let d2 = done.push(piece);
                    assert(d2.drop_last() =~= done);
                    done = d2;
                    assert(cs@.subrange(i + 1, i + 1) =~= Seq::<char>::empty());
                }
                seg_start = i + 1;
            } else {
                proof {
                    assert(cs@.subrange(seg_start as int, i as int).push(cs@[i as int])
                        =~= cs@.subrange(seg_start as int, i + 1));
                }
            }
            i = i + 1;
        }
        let ghost piece = cs@.subrange(seg_start as int, n as int);
        proof {
            assert(cs@.skip(n as int) =~= Seq::<char>::empty());
        }
        add_code(&mut set, target_colos_str, &cs, seg_start, n);
        proof {
            let d2 = done.push(piece);
            assert(d2.drop_last() =~= done);
            done = d2;
            assert(done == comma_pieces_from(Seq::empty(), target_colos_str@));
        }
        Self { target_colos: Some(set) }
    }

    /// The location code of a response, read from its headers `server`, `cf-ray`,
    /// `x-77-pop`, `x-amz-cf-pop`, `x-served-by` and `x-id-fe` (and no others, nor its
    /// status); empty when none gives one. For a response type that keeps to the
    /// specification of `HttpingResponse` the code is exactly `response_colo`; for any
    /// type it is empty or two or three ASCII capitals.
    pub fn extract_colo<R: HttpingResponse + ?Sized>(&self, resp: &R) -> (colo: String)
        ensures
            R::obeys_response_spec() ==> colo@ == response_colo(resp),
            colo@.len() == 0 || ((colo@.len() == 2 || colo@.len() == 3) && all_caps(colo@)),
    {
        let server = resp.header("server");
        let cf_ray = resp.header("cf-ray");
        let pop77 = resp.header("x-77-pop");
        let amz_pop = resp.header("x-amz-cf-pop");
        let served_by = resp.header("x-served-by");
        let id_fe = resp.header("x-id-fe");
        proof {
            law_colo_is_capitals(
                opt_view(server),
                opt_view(cf_ray),
                opt_view(pop77),
                opt_view(amz_pop),
                opt_view(served_by),
                opt_view(id_fe),
            );
        }
        self.colo_from_headers(server, cf_ray, pop77, amz_pop, served_by, id_fe)
    }

    /// The location code given by the values of the response headers `server`,
    /// `cf-ray`, `x-77-pop`, `x-amz-cf-pop`, `x-served-by` and `x-id-fe`.
    pub fn colo_from_headers(
        &self,
        server: Option<&str>,
        cf_ray: Option<&str>,
        pop77: Option<&str>,
        amz_pop: Option<&str>,
        served_by: Option<&str>,
        id_fe: Option<&str>,
    ) -> (colo: String)
        ensures
            colo@ == colo_choice(
                opt_view(server),
                opt_view(cf_ray),
                opt_view(pop77),
                opt_view(amz_pop),
                opt_view(served_by),
                opt_view(id_fe),
            ),
    {
        if let Some(sv) = server {
            let sv_chars = chars_of(sv);
            if chars_equal(&sv_chars, &chars_of("cloudflare")) {
                if let Some(m) = find_first("[A-Z]{3}", cf_ray) {
                    return m;
                }
            }
            if chars_equal(&sv_chars, &chars_of("CDN77-Turbo")) {
                if let Some(m) = find_first("[A-Z]{2}", pop77) {
                    return m;
                }
            }
            let bunny = chars_of("BunnyCDN-");
            proof {
                reveal_strlit("BunnyCDN-");
            }
            if contains_infix(&sv_chars, &bunny) {
                let k = strip_prefixes_at(&sv_chars, &bunny);
                let stripped = sv.substring_char(k, sv_chars.len());
                if let Some(m) = regex_first("[A-Z]{2}", stripped) {
                    return m;
                }
            }
        }
        if let Some(m) = find_first("[A-Z]{3}", amz_pop) {
            return m;
        }
        if let Some(sb) = served_by {
            let mut all = regex_matches("[A-Z]{3}", sb);
            if let Some(m) = all.pop() {
                proof {
                    assert(string_views(all@.push(m)).last() == m@);
                }
                return m;
            }
        }
        if let Some(m) = find_first("^[a-z]{2}", id_fe) {
            return to_upper(m.as_str());
        }
        String::new()
    }

    /// Whether `colo` is wanted: never when empty, always when every code is wanted,
    /// else when its upper-case form is one of the wanted codes.
    pub fn is_match(&self, colo: &str) -> (b: bool)
        ensures
            b == colo_wanted(self@, colo@),
    {
        if colo.is_empty() {
            return false;
        }
        match &self.target_colos {
            Some(set) => {
                let up = to_upper(colo);
                set.contains(up.as_str())
            },
            None => true,
        }
    }
}

/// A blank target text wants every location code that is not empty.
pub proof fn law_blank_targets_want_every_code(text: Seq<char>, colo: Seq<char>)
    requires
        trim(text).len() == 0,
        colo.len() > 0,
    ensures
        colo_wanted(target_codes(text), colo),
{
}

/// Wanting a code ignores its case: a code is wanted exactly when its upper-case
/// form is one of the (upper-case) targets.
pub proof fn law_matching_ignores_case(targets: Set<Seq<char>>, colo: Seq<char>)
    requires
        colo.len() > 0,
    ensures
        colo_wanted(Some(targets), colo) == targets.contains(upcase(colo)),
{
}

/// Whether `c` is a code of ASCII capitals only.
pub open spec fn all_caps(c: Seq<char>) -> bool {
    forall|j: int| 0 <= j < c.len() ==> is_ascii_upper(#[trigger] c[j])
}

/// A leftmost run found by `caps_from` is a run of capitals.
proof fn lemma_caps_from(s: Seq<char>, from: int, n: nat)
    ensures
        caps_from(s, from, n) matches Some(i) ==> caps_at(s, i, n),
    decreases s.len() - from,
{
    if !(from < 0 || from >= s.len() || from + n > s.len()) && !caps_at(s, from, n) {
        lemma_caps_from(s, from + 1, n);
    }
}

/// The first run of `n` capitals is `n` capitals.
proof fn lemma_first_caps(s: Seq<char>, n: nat)
    ensures
        first_caps(s, n) matches Some(c) ==> c.len() == n && all_caps(c),
{
    lemma_caps_from(s, 0, n);
    if let Some(i) = caps_from(s, 0, n) {
        let c = s.subrange(i, i + n);
        assert forall|j: int| 0 <= j < c.len() implies is_ascii_upper(#[trigger] c[j]) by {
            assert(c[j] == s[i + j]);
        }
    }
}

/// Every run found by the scan is three capitals.
proof fn lemma_caps3_runs_from(s: Seq<char>, from: int)
    ensures
        forall|k: int| 0 <= k < caps3_runs_from(s, from).len() ==> {
            let c = #[trigger] caps3_runs_from(s, from)[k];
            c.len() == 3 && all_caps(c)
        },
    decreases s.len() - from,
{
    if from < 0 || from >= s.len() || from + 3 > s.len() {
    } else if caps_at(s, from, 3) {
        let c = s.subrange(from, from + 3);
        assert forall|j: int| 0 <= j < c.len() implies is_ascii_upper(#[trigger] c[j]) by {
            assert(c[j] == s[from + j]);
        }
        lemma_caps3_runs_from(s, from + 3);
        let r = caps3_runs_from(s, from + 3);
        assert forall|k: int| 0 <= k < caps3_runs_from(s, from).len() implies {
            let c2 = #[trigger] caps3_runs_from(s, from)[k];
            c2.len() == 3 && all_caps(c2)
        } by {
            assert(caps3_runs_from(s, from) == seq![c] + r);
            if k > 0 {
                assert(caps3_runs_from(s, from)[k] == r[k - 1]);
            } else {
                assert(caps3_runs_from(s, from)[k] == c);
            }
        }
    } else {
        lemma_caps3_runs_from(s, from + 1);
        assert(caps3_runs_from(s, from) == caps3_runs_from(s, from + 1));
    }
}

/// A location code read from headers is empty, or two or three ASCII capitals: an
/// airport code, a country code, or an upper-cased G-Core prefix.
pub proof fn law_colo_is_capitals(
    server: Option<Seq<char>>,
    cf_ray: Option<Seq<char>>,
    pop77: Option<Seq<char>>,
    amz_pop: Option<Seq<char>>,
    served_by: Option<Seq<char>>,
    id_fe: Option<Seq<char>>,
)
    ensures
        ({
            let c = colo_choice(server, cf_ray, pop77, amz_pop, served_by, id_fe);
            c.len() == 0 || ((c.len() == 2 || c.len() == 3) && all_caps(c))
        }),
{
    if let Some(v) = cf_ray {
        lemma_first_caps(v, 3);
    }
    if let Some(v) = pop77 {
        lemma_first_caps(v, 2);
    }
    if let Some(v) = server {
        lemma_first_caps(strip_prefixes(v, "BunnyCDN-"@), 2);
    }
    if let Some(v) = amz_pop {
        lemma_first_caps(v, 3);
    }
    if let Some(v) = served_by {
        lemma_caps3_runs_from(v, 0);
        if caps3_runs(v).len() > 0 {
            let k = caps3_runs(v).len() - 1;
            assert(caps3_runs(v)[k] == caps3_runs(v).last());
        }
    }
    if let Some(v) = id_fe {
        if let Some(p) = lower_pair(v) {
            let u = ascii_upper(p);
            assert forall|j: int| 0 <= j < u.len() implies is_ascii_upper(#[trigger] u[j]) by {
                assert(p[j] == v[j]);
            }
        }
    }
}

} // verus!
