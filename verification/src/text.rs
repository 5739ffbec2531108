use vstd::prelude::*;
use vstd::string::*;

verus! {

/// The ASCII-lowercase image of a code point: upper-case letters move
/// down by 32, everything else is unchanged.
pub open spec fn lower_int(c: int) -> int {
    if 65 <= c && c <= 90 {
        c + 32
    } else {
        c
    }
}

/// `s` equals `lower` once upper-case ASCII letters in `s` are lowered.
/// `lower` is expected to already be lower-case.
pub open spec fn ci_matches(s: Seq<char>, lower: Seq<char>) -> bool {
    s.len() == lower.len() && forall|i: int|
        0 <= i < s.len() ==> lower_int(s[i] as int) == #[trigger] lower[i] as int
}

/// Case-insensitive comparison of `s` against a lower-case pattern.
pub fn ci_eq(s: &str, lower: &str) -> (r: bool)
    ensures
        r == ci_matches(s@, lower@),
{
    let n = s.unicode_len();
    if n != lower.unicode_len() {
        return false;
    }
    let mut i: usize = 0;
    while i < n
        invariant
            i <= n,
            n == s@.len(),
            n == lower@.len(),
            forall|j: int| 0 <= j < i ==> lower_int(s@[j] as int) == #[trigger] lower@[j] as int,
        decreases n - i,
    {
        let a = s.get_char(i) as u32;
        let b = lower.get_char(i) as u32;
        let lowered: u32 = if 65 <= a && a <= 90 {
            a + 32
        } else {
            a
        };
        if lowered != b {
            return false;
        }
        i = i + 1;
    }
    true
}

/// A character the mirror file stores raw: printable ASCII with no need
/// for escaping.
pub open spec fn plain_char(c: char) -> bool {
    32 <= c as int && c as int <= 126 && c != '"' && c != '\\'
}

/// Every character of the string is storable raw.
pub open spec fn plain_str(s: Seq<char>) -> bool {
    forall|i: int| 0 <= i < s.len() ==> plain_char(#[trigger] s[i])
}

/// No upper-case ASCII letter occurs: the string is already canonical
/// for case-insensitive comparison.
pub open spec fn no_upper(s: Seq<char>) -> bool {
    forall|i: int| 0 <= i < s.len() ==> !(65 <= #[trigger] s[i] as int && s[i] as int <= 90)
}

pub fn is_plain(s: &str) -> (r: bool)
    ensures
        r == plain_str(s@),
{
    let n = s.unicode_len();
    let mut i: usize = 0;
    while i < n
        invariant
            i <= n,
            n == s@.len(),
            forall|j: int| 0 <= j < i ==> plain_char(#[trigger] s@[j]),
        decreases n - i,
    {
        let c = s.get_char(i);
        let u = c as u32;
        if !(32 <= u && u <= 126) || c == '"' || c == '\\' {
            return false;
        }
        i = i + 1;
    }
    true
}

pub fn plain_char_exec(c: char) -> (r: bool)
    ensures
        r == plain_char(c),
{
    let u = c as u32;
    32 <= u && u <= 126 && c != '"' && c != '\\'
}

/// The characters `chars[from..to]` as a string.
pub fn chars_range_to_string(chars: &Vec<char>, from: usize, to: usize) -> (r: String)
    requires
        from <= to <= chars@.len(),
    ensures
        r@ == chars@.subrange(from as int, to as int),
{
    let mut part: Vec<char> = Vec::new();
    let mut k: usize = from;
    while k < to
        invariant
            from <= k <= to <= chars@.len(),
            part@ == chars@.subrange(from as int, k as int),
        decreases to - k,
    {
        part.push(chars[k]);
        proof {
            assert(part@ =~= chars@.subrange(from as int, k as int + 1));
        }
        k = k + 1;
    }
    chars_to_string(&part)
}

/// The ASCII-lowercase image of one character.
pub open spec fn lower_char(c: char) -> char {
    if 65 <= c as int && c as int <= 90 {
        (c as int + 32) as char
    } else {
        c
    }
}

/// The ASCII-lowercase image of a string.
pub open spec fn lower_seq(s: Seq<char>) -> Seq<char> {
    Seq::new(s.len(), |i: int| lower_char(s[i]))
}

pub fn lower_char_exec(c: char) -> (r: char)
    ensures
        r == lower_char(c),
{
    let u = c as u32;
    if 65 <= u && u <= 90 {
        ((u + 32) as u8) as char
    } else {
        c
    }
}

/// Builds the ASCII-lowercase copy of a string as characters.
pub fn lower_chars(s: &str) -> (r: Vec<char>)
    ensures
        r@ == lower_seq(s@),
{
    let n = s.unicode_len();
    let mut out: Vec<char> = Vec::new();
    let mut i: usize = 0;
    while i < n
        invariant
            i <= n,
            n == s@.len(),
            out@.len() == i,
            forall|j: int| 0 <= j < i ==> out@[j] == lower_char(#[trigger] s@[j]),
        decreases n - i,
    {
        out.push(lower_char_exec(s.get_char(i)));
        i = i + 1;
    }
    proof {
        assert(out@ =~= lower_seq(s@));
    }
    out
}

/// Relies on `String`'s `FromIterator` impl: collecting characters
/// yields the string made of exactly those characters, in order.
#[verifier::external_body]
pub fn chars_to_string(v: &Vec<char>) -> (r: String)
    ensures
        r@ == v@,
{
    v.iter().collect()
}

/// The ASCII-lowercase copy of a string.
pub fn lower_ascii(s: &str) -> (r: String)
    ensures
        r@ == lower_seq(s@),
{
    let chars = lower_chars(s);
    chars_to_string(&chars)
}

/// Appends the characters of `s` to a character buffer.
pub fn push_str_chars(out: &mut Vec<char>, s: &str)
    ensures
        final(out)@ == old(out)@ + s@,
{
    let n = s.unicode_len();
    let mut i: usize = 0;
    while i < n
        invariant
            i <= n,
            n == s@.len(),
            out@ == old(out)@ + s@.take(i as int),
        decreases n - i,
    {
        out.push(s.get_char(i));
        proof {
            assert(out@ =~= old(out)@ + s@.take(i as int + 1));
        }
        i = i + 1;
    }
    proof {
        assert(out@ =~= old(out)@ + s@);
    }
}

/// The characters of a string, one element each.
pub fn str_to_chars(s: &str) -> (r: Vec<char>)
    ensures
        r@ == s@,
{
    let mut out: Vec<char> = Vec::new();
    push_str_chars(&mut out, s);
    proof {
        assert(out@ =~= s@);
    }
    out
}

/// Character-wise equality of two strings.
pub fn str_eq(a: &str, b: &str) -> (r: bool)
    ensures
        r == (a@ == b@),
{
    let n = a.unicode_len();
    if n != b.unicode_len() {
        return false;
    }
    let mut i: usize = 0;
    while i < n
        invariant
            i <= n,
            n == a@.len(),
            n == b@.len(),
            forall|j: int| 0 <= j < i ==> a@[j] == #[trigger] b@[j],
        decreases n - i,
    {
        if a.get_char(i) != b.get_char(i) {
            return false;
        }
        i = i + 1;
    }
    proof {
        assert(a@ =~= b@);
    }
    true
}

} // verus!
