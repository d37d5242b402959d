//! Character-level helpers for the plain-text inputs the library reads.

use vstd::prelude::*;

verus! {

/// Unicode `White_Space`: the characters that `str::trim` removes.
pub open spec fn is_white(c: char) -> bool {
    let u = c as u32;
    ||| 0x9 <= u <= 0xd
    ||| u == 0x20
    ||| u == 0x85
    ||| u == 0xa0
    ||| u == 0x1680
    ||| 0x2000 <= u <= 0x200a
    ||| u == 0x2028
    ||| u == 0x2029
    ||| u == 0x202f
    ||| u == 0x205f
    ||| u == 0x3000
}

/// Whether `c` has the Unicode `White_Space` property.
pub fn is_whitespace(c: char) -> (b: bool)
    ensures
        b == is_white(c),
{
    let u = c as u32;
    (0x9 <= u && u <= 0xd) || u == 0x20 || u == 0x85 || u == 0xa0 || u == 0x1680 || (0x2000
        <= u && u <= 0x200a) || u == 0x2028 || u == 0x2029 || u == 0x202f || u == 0x205f || u
        == 0x3000
}

/// `s` without its leading white space.
pub open spec fn trim_start(s: Seq<char>) -> Seq<char>
    decreases s.len(),
{
    if s.len() > 0 && is_white(s[0]) {
        trim_start(s.drop_first())
    } else {
        s
    }
}

/// `s` without its trailing white space.
pub open spec fn trim_end(s: Seq<char>) -> Seq<char>
    decreases s.len(),
{
    if s.len() > 0 && is_white(s.last()) {
        trim_end(s.drop_last())
    } else {
        s
    }
}

/// `s` without leading and trailing white space.
pub open spec fn trim(s: Seq<char>) -> Seq<char> {
    trim_end(trim_start(s))
}

/// The characters of `s`, in order.
pub fn chars_of(s: &str) -> (v: Vec<char>)
    ensures
        v@ == s@,
{
    let mut v: Vec<char> = Vec::new();
    for c in it: s.chars()
        invariant
            v@ == it.seq().take(it.index() as int),
            it.seq() == s@,
    {
        v.push(c);
    }
    v
}

/// Whether `c` occurs in `cs`.
pub fn contains_char(cs: &Vec<char>, c: char) -> (b: bool)
    ensures
        b == cs@.contains(c),
{
    let mut i: usize = 0;
    while i < cs.len()
        invariant
            i <= cs.len(),
            forall|j: int| 0 <= j < i ==> cs@[j] != c,
        decreases cs.len() - i,
    {
        if cs[i] == c {
            assert(cs@[i as int] == c);
            return true;
        }
        i = i + 1;
    }
    false
}

/// The bounds within `cs[a..b]` of that range with white space trimmed from both ends.
pub fn trim_bounds(cs: &Vec<char>, a: usize, b: usize) -> (r: (usize, usize))
    requires
        a <= b <= cs@.len(),
    ensures
        a <= r.0 <= r.1 <= b,
        cs@.subrange(r.0 as int, r.1 as int) == trim(cs@.subrange(a as int, b as int)),
{
    let ghost s = cs@;
    let mut lo: usize = a;
    while lo < b && is_whitespace(cs[lo])
        invariant
            a <= lo <= b <= s.len(),
            s == cs@,
            trim_start(s.subrange(lo as int, b as int)) == trim_start(s.subrange(a as int, b as int)),
        decreases b - lo,
    {
        proof {
            assert(s.subrange(lo as int, b as int).drop_first() =~= s.subrange(lo + 1, b as int));
        }
        lo = lo + 1;
    }
    let mut hi: usize = b;
    while hi > lo && is_whitespace(cs[hi - 1])
        invariant
            a <= lo <= hi <= b <= s.len(),
            s == cs@,
            trim_start(s.subrange(a as int, b as int)) == s.subrange(lo as int, b as int),
            trim_end(s.subrange(lo as int, hi as int)) == trim_end(s.subrange(lo as int, b as int)),
        decreases hi,
    {
        proof {
            assert(s.subrange(lo as int, hi as int).drop_last() =~= s.subrange(lo as int, hi - 1));
        }
        hi = hi - 1;
    }
    (lo, hi)
}

/// The character of a decimal digit.
pub open spec fn digit_char(d: nat) -> char {
    (48 + d) as char
}

/// The decimal notation of `n`, without leading zeros.
pub open spec fn decimal(n: nat) -> Seq<char>
    decreases n,
{
    if n < 10 {
        seq![digit_char(n)]
    } else {
        decimal(n / 10).push(digit_char(n % 10))
    }
}

/// Calls `String::push`: appends the character `c` to `s`.
#[verifier::external_body]
pub fn push_char(s: &mut String, c: char)
    ensures
        final(s)@ == old(s)@.push(c),
{
    s.push(c);
}

/// The decimal notation of `n`.
pub fn decimal_string(n: u64) -> (s: String)
    ensures
        s@ == decimal(n as nat),
{
    let mut digits: Vec<char> = Vec::new();
    let mut rest: u64 = n;
    loop
        invariant_except_break
            decimal(n as nat) == decimal(rest as nat) + Seq::new(digits@.len(), |i: int| digits@[digits@.len() - 1 - i]),
        ensures
            decimal(n as nat) == Seq::new(digits@.len(), |i: int| digits@[digits@.len() - 1 - i]),
        decreases rest,
    {
        let d = (rest % 10) as u8;
        let c = (48u8 + d) as char;
        assert(c == digit_char((rest % 10) as nat));
        let ghost old_digits = digits@;
        digits.push(c);
        proof {
            if rest >= 10 {
                assert(decimal(rest as nat) == decimal((rest / 10) as nat).push(c));
            }
        }
        if rest < 10 {
            assert(decimal(rest as nat) == seq![c]);
            assert(decimal(rest as nat) + Seq::new(old_digits.len(), |i: int| old_digits[old_digits.len() - 1 - i])
                =~= Seq::new(digits@.len(), |i: int| digits@[digits@.len() - 1 - i]));
            break;
        }
        let ghost old_rest = rest;
        rest = rest / 10;
        assert(decimal(old_rest as nat) + Seq::new(old_digits.len(), |i: int| old_digits[old_digits.len() - 1 - i])
            =~= decimal(rest as nat) + Seq::new(digits@.len(), |i: int| digits@[digits@.len() - 1 - i]));
    }
    let mut s = String::new();
    let len = digits.len();
    let mut i: usize = 0;
    while i < len
        invariant
            len == digits@.len(),
            i <= len,
            decimal(n as nat) =~= Seq::new(len as nat, |k: int| digits@[len - 1 - k]),
            s@ == Seq::new(i as nat, |k: int| digits@[len - 1 - k]),
        decreases len - i,
    {
        push_char(&mut s, digits[len - 1 - i]);
        i = i + 1;
        assert(s@ =~= Seq::new(i as nat, |k: int| digits@[len - 1 - k]));
    }
    s
}

} // verus!
