use vstd::prelude::*;
use crate::errors::ClientError;
use crate::text::str_to_chars;

verus! {

/// A hexadecimal digit, either case.
pub open spec fn is_hex_digit(c: char) -> bool {
    ||| 48 <= c as int && c as int <= 57
    ||| 97 <= c as int && c as int <= 102
    ||| 65 <= c as int && c as int <= 70
}

/// The value of a hexadecimal digit.
pub open spec fn hex_val(c: char) -> int {
    if 48 <= c as int && c as int <= 57 {
        c as int - 48
    } else if 97 <= c as int && c as int <= 102 {
        c as int - 87
    } else {
        c as int - 55
    }
}

/// A payload string: an even number of hex digits.
pub open spec fn is_hex_payload(s: Seq<char>) -> bool {
    s.len() % 2 == 0 && forall|i: int| 0 <= i < s.len() ==> is_hex_digit(#[trigger] s[i])
}

/// The bytes a hex payload denotes, two digits each.
pub open spec fn hex_bytes(s: Seq<char>) -> Seq<u8> {
    Seq::new(s.len() / 2, |i: int| (hex_val(s[2 * i]) * 16 + hex_val(s[2 * i + 1])) as u8)
}

fn is_hex_digit_exec(c: char) -> (r: bool)
    ensures
        r == is_hex_digit(c),
{
    let u = c as u32;
    (48 <= u && u <= 57) || (97 <= u && u <= 102) || (65 <= u && u <= 70)
}

fn hex_val_exec(c: char) -> (v: u8)
    requires
        is_hex_digit(c),
    ensures
        v == hex_val(c),
        v < 16,
{
    let u = c as u32;
    if 48 <= u && u <= 57 {
        (u - 48) as u8
    } else if 97 <= u && u <= 102 {
        (u - 87) as u8
    } else {
        (u - 55) as u8
    }
}

/// Decodes a hex payload into bytes; a string of odd length or with a
/// character that is no hex digit is rejected.
pub fn decode_hex(s: &str) -> (r: Result<Vec<u8>, ClientError>)
    ensures
        match r {
            Ok(v) => is_hex_payload(s@) && v@ == hex_bytes(s@),
            Err(e) => {
                &&& !is_hex_payload(s@)
                &&& e matches ClientError::InvalidHex(t) && t@ == s@
            },
        },
{
    let chars = str_to_chars(s);
    let n = chars.len();
    if n % 2 != 0 {
        return Err(ClientError::InvalidHex(String::from_str(s)));
    }
    let mut out: Vec<u8> = Vec::new();
    let mut i: usize = 0;
    while i < n
        invariant
            i <= n,
            i % 2 == 0,
            n % 2 == 0,
            n == chars@.len(),
            chars@ == s@,
            out@.len() == i / 2,
            forall|k: int| 0 <= k < i ==> is_hex_digit(#[trigger] chars@[k]),
            forall|k: int|
                0 <= k < i / 2 ==> out@[k] == (hex_val(s@[2 * k]) * 16 + hex_val(
                    s@[2 * k + 1],
                )) as u8,
        decreases n - i,
    {
        let hi = chars[i];
        let lo = chars[i + 1];
        if !is_hex_digit_exec(hi) || !is_hex_digit_exec(lo) {
            return Err(ClientError::InvalidHex(String::from_str(s)));
        }
        let b: u8 = hex_val_exec(hi) * 16 + hex_val_exec(lo);
        out.push(b);
        i = i + 2;
    }
    proof {
        assert(out@ =~= hex_bytes(s@));
    }
    Ok(out)
}

/// The lower-case hex digit for a value below sixteen.
pub open spec fn hex_digit_lower(v: int) -> char {
    if v < 10 {
        crate::numbers::digit_char(v)
    } else if v == 10 {
        'a'
    } else if v == 11 {
        'b'
    } else if v == 12 {
        'c'
    } else if v == 13 {
        'd'
    } else if v == 14 {
        'e'
    } else {
        'f'
    }
}

/// The lower-case hex spelling of bytes, two digits each.
pub open spec fn hex_of_bytes(v: Seq<u8>) -> Seq<char> {
    Seq::new(v.len() * 2, |i: int| hex_digit_lower(
        if i % 2 == 0 {
            v[i / 2] as int / 16
        } else {
            v[i / 2] as int % 16
        },
    ))
}

fn hex_digit_lower_exec(v: u8) -> (c: char)
    requires
        v < 16,
    ensures
        c == hex_digit_lower(v as int),
{
    if v < 10 {
        crate::numbers::digit_char_exec(v)
    } else if v == 10 {
        'a'
    } else if v == 11 {
        'b'
    } else if v == 12 {
        'c'
    } else if v == 13 {
        'd'
    } else if v == 14 {
        'e'
    } else {
        'f'
    }
}

/// Encodes bytes as lower-case hex.
pub fn encode_hex(v: &Vec<u8>) -> (r: String)
    ensures
        r@ == hex_of_bytes(v@),
{
    let n = v.len();
    let mut out: Vec<char> = Vec::new();
    let mut i: usize = 0;
    while i < n
        invariant
            i <= n,
            n == v@.len(),
            out@.len() == 2 * i,
            forall|k: int| 0 <= k < 2 * i ==> out@[k] == hex_of_bytes(v@)[k],
        decreases n - i,
    {
        let b = v[i];
        out.push(hex_digit_lower_exec(b / 16));
        out.push(hex_digit_lower_exec(b % 16));
        i = i + 1;
    }
    proof {
        assert(out@ =~= hex_of_bytes(v@));
    }
    crate::text::chars_to_string(&out)
}

} // verus!
