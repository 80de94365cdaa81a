//! Character-level string helpers: prefix and substring tests, ASCII
//! case folding, path normalization and decimal rendering.  Contracts are
//! stated over `Seq<char>` views.

use vstd::prelude::*;

verus! {

/// Relies on `String::push`: appends one character to the string.
#[verifier::external_body]
pub fn push_char(s: &mut String, c: char)
    ensures
        final(s)@ == old(s)@.push(c),
{
    s.push(c);
}

/// `p` is a prefix of `s`.
pub open spec fn is_prefix(p: Seq<char>, s: Seq<char>) -> bool {
    p.len() <= s.len() && p == s.subrange(0, p.len() as int)
}

pub fn str_starts_with(s: &str, p: &str) -> (r: bool)
    ensures
        r == is_prefix(p@, s@),
{
    let sl = s.unicode_len();
    let pl = p.unicode_len();
    if pl > sl {
        assert(!is_prefix(p@, s@));
        return false;
    }
    let mut i: usize = 0;
    while i < pl
        invariant
            i <= pl,
            pl <= sl,
            pl == p@.len(),
            sl == s@.len(),
            forall|j: int| 0 <= j < i ==> s@[j] == p@[j],
        decreases pl - i,
    {
        if s.get_char(i) != p.get_char(i) {
            assert(!is_prefix(p@, s@)) by {
                assert(s@.subrange(0, pl as int)[i as int] == s@[i as int]);
            }
            return false;
        }
        i = i + 1;
    }
    assert(p@ =~= s@.subrange(0, pl as int));
    true
}

pub fn str_eq(a: &str, b: &str) -> (r: bool)
    ensures
        r == (a@ == b@),
{
    let al = a.unicode_len();
    let bl = b.unicode_len();
    if al != bl {
        return false;
    }
    let r = str_starts_with(a, b);
    proof {
        assert(a@.subrange(0, b@.len() as int) =~= a@);
    }
    if r {
        assert(a@ =~= b@);
        true
    } else {
        false
    }
}

/// `n` occurs as a contiguous subsequence of `s`.
pub open spec fn has_substring(s: Seq<char>, n: Seq<char>) -> bool {
    exists|i: int| matches_at(s, n, i)
}

/// `n` occurs in `s` starting at position `i`.
pub open spec fn matches_at(s: Seq<char>, n: Seq<char>, i: int) -> bool {
    0 <= i && i + n.len() <= s.len() && s.subrange(i, i + n.len()) == n
}

fn str_matches_at(s: &str, n: &str, i: usize, sl: usize, nl: usize) -> (r: bool)
    requires
        sl == s@.len(),
        nl == n@.len(),
        i + nl <= sl,
    ensures
        r == matches_at(s@, n@, i as int),
{
    let mut j: usize = 0;
    while j < nl
        invariant
            j <= nl,
            i + nl <= sl,
            sl == s@.len(),
            nl == n@.len(),
            forall|k: int| 0 <= k < j ==> s@[i + k] == n@[k],
        decreases nl - j,
    {
        if s.get_char(i + j) != n.get_char(j) {
            assert(!matches_at(s@, n@, i as int)) by {
                assert(s@.subrange(i as int, i + nl)[j as int] == s@[i + j]);
            }
            return false;
        }
        j = j + 1;
    }
    assert(n@ =~= s@.subrange(i as int, i + nl as int));
    true
}

pub fn str_contains(s: &str, n: &str) -> (r: bool)
    ensures
        r == has_substring(s@, n@),
{
    let sl = s.unicode_len();
    let nl = n.unicode_len();
    if nl > sl {
        assert(forall|k: int| !matches_at(s@, n@, k));
        return false;
    }
    if nl == 0 {
        assert(n@ =~= s@.subrange(0, 0));
        assert(matches_at(s@, n@, 0));
        return true;
    }
    let mut i: usize = 0;
    while i <= sl - nl
        invariant
            1 <= nl <= sl,
            sl == s@.len(),
            nl == n@.len(),
            i <= sl - nl + 1,
            forall|k: int| 0 <= k < i ==> !matches_at(s@, n@, k),
        decreases sl - i,
    {
        if str_matches_at(s, n, i, sl, nl) {
            return true;
        }
        i = i + 1;
    }
    assert(forall|k: int| matches_at(s@, n@, k) ==> 0 <= k < i);
    false
}

/// ASCII case folding of a single character.
pub open spec fn lower_char(c: char) -> char {
    if 65 <= c as u32 && c as u32 <= 90 {
        (((c as u32) + 32) as u8) as char
    } else {
        c
    }
}

/// Path normalization folds backslashes to forward slashes and lowers
/// ASCII letters.
pub open spec fn norm_char(c: char) -> char {
    if c == '\\' {
        '/'
    } else {
        lower_char(c)
    }
}

pub fn to_lower(s: &str) -> (r: String)
    ensures
        r@ == s@.map(|i: int, c: char| lower_char(c)),
{
    let sl = s.unicode_len();
    let mut r = String::new();
    let mut i: usize = 0;
    while i < sl
        invariant
            i <= sl,
            sl == s@.len(),
            r@ == s@.subrange(0, i as int).map(|j: int, c: char| lower_char(c)),
        decreases sl - i,
    {
        let c = s.get_char(i);
        let code: u32 = c as u32;
        let lc: char = if 65 <= code && code <= 90 {
            ((code + 32) as u8) as char
        } else {
            c
        };
        assert(lc == lower_char(c));
        push_char(&mut r, lc);
        i = i + 1;
        assert(r@ =~= s@.subrange(0, i as int).map(|j: int, c: char| lower_char(c)));
    }
    assert(s@.subrange(0, sl as int) =~= s@);
    r
}

pub fn normalize_path(s: &str) -> (r: String)
    ensures
        r@ == s@.map(|i: int, c: char| norm_char(c)),
{
    let sl = s.unicode_len();
    let mut r = String::new();
    let mut i: usize = 0;
    while i < sl
        invariant
            i <= sl,
            sl == s@.len(),
            r@ == s@.subrange(0, i as int).map(|j: int, c: char| norm_char(c)),
        decreases sl - i,
    {
        let c = s.get_char(i);
        let code: u32 = c as u32;
        let nc: char = if c == '\\' {
            '/'
        } else if 65 <= code && code <= 90 {
            ((code + 32) as u8) as char
        } else {
            c
        };
        assert(nc == norm_char(c));
        push_char(&mut r, nc);
        i = i + 1;
        assert(r@ =~= s@.subrange(0, i as int).map(|j: int, c: char| norm_char(c)));
    }
    assert(s@.subrange(0, sl as int) =~= s@);
    r
}

/// The decimal digit character for `d`.
pub open spec fn dec_digit(d: nat) -> char {
    ((48 + d) as u8) as char
}

/// The decimal rendering of `n`, most significant digit first.
pub open spec fn dec_str(n: nat) -> Seq<char>
    decreases n,
{
    if n < 10 {
        seq![dec_digit(n)]
    } else {
        dec_str(n / 10).push(dec_digit(n % 10))
    }
}

pub fn u64_to_string(n: u64) -> (s: String)
    ensures
        s@ == dec_str(n as nat),
    decreases n,
{
    let d: u8 = (n % 10) as u8;
    let c: char = (48 + d) as char;
    assert(c == dec_digit((n % 10) as nat));
    if n < 10 {
        let mut s = String::new();
        push_char(&mut s, c);
        assert(s@ =~= dec_str(n as nat));
        s
    } else {
        let mut s = u64_to_string(n / 10);
        push_char(&mut s, c);
        s
    }
}

pub proof fn lemma_dec_str_len(n: nat)
    ensures
        dec_str(n).len() >= 1,
        (n < 10) <==> (dec_str(n).len() == 1),
    decreases n,
{
    if n >= 10 {
        lemma_dec_str_len(n / 10);
    }
}

/// Distinct numbers render to distinct decimal strings.
pub proof fn lemma_dec_str_injective(a: nat, b: nat)
    requires
        dec_str(a) == dec_str(b),
    ensures
        a == b,
    decreases a,
{
    lemma_dec_str_len(a);
    lemma_dec_str_len(b);
    if a < 10 && b < 10 {
        assert(dec_str(a)[0] == dec_digit(a));
        assert(dec_str(b)[0] == dec_digit(b));
        assert(((48 + a) as u8) as char == ((48 + b) as u8) as char);
        assert((((48 + a) as u8) as char) as u32 == 48 + a);
        assert((((48 + b) as u8) as char) as u32 == 48 + b);
    } else if a >= 10 && b >= 10 {
        assert(dec_str(a).last() == dec_digit(a % 10));
        assert(dec_str(b).last() == dec_digit(b % 10));
        assert((((48 + a % 10) as u8) as char) as u32 == 48 + a % 10);
        assert((((48 + b % 10) as u8) as char) as u32 == 48 + b % 10);
        assert(a % 10 == b % 10);
        assert(dec_str(a).drop_last() == dec_str(a / 10));
        assert(dec_str(b).drop_last() == dec_str(b / 10));
        lemma_dec_str_injective(a / 10, b / 10);
    } else {
        assert(dec_str(a).len() != dec_str(b).len());
    }
}

} // verus!
