use vstd::prelude::*;
use crate::numbers::{
    digit_val,
    dec_val, digit_val_exec, is_digit, is_digit_exec, is_digit_seq, lemma_dec_val_prefix_le,
};
use crate::text::str_to_chars;

verus! {

/// A gas buffer multiplier in thousandths: `milli == 1200` stands for
/// a multiplier of 1.2.
#[derive(Debug, Clone, Copy, PartialEq, Eq, Structural)]
pub struct GasBuffer {
    pub milli: u64,
}

/// Gas choices for one call: an explicit limit wins outright; a buffer
/// scales the node's estimate.
#[derive(Debug, Clone, Copy, PartialEq, Eq)]
pub struct GasSpecs {
    pub gas_limit: Option<u64>,
    pub gas_buffer: Option<GasBuffer>,
}

/// Confirmation and gas control for a command.
#[derive(Debug, Clone, Copy, PartialEq, Eq)]
pub struct GasAndConfirmArgs {
    pub yes: bool,
    pub gas_limit: Option<u64>,
    pub gas_buffer: Option<GasBuffer>,
    pub nonce: Option<u64>,
}

/// What the executor must do about gas, decided before any network
/// interaction.
#[derive(Debug, Clone, Copy, PartialEq, Eq)]
pub enum GasPlan {
    /// Use the explicit limit verbatim: no estimation, no prompt.
    Fixed(u64),
    /// Omit the gas field entirely and let the node estimate; no prompt.
    Deferred,
    /// Estimate through a simulated call, scale by the buffer if one is
    /// given, and prompt unless confirmation was waived.
    Estimate { buffer: Option<GasBuffer>, confirm: bool },
}

/// The gas decision order: explicit limit first; with neither buffer
/// nor prompt wanted, defer to the node; otherwise estimate.
pub open spec fn decide_gas_spec(specs: GasSpecs, auto_confirm: bool) -> GasPlan {
    match specs.gas_limit {
        Option::Some(l) => GasPlan::Fixed(l),
        Option::None => if specs.gas_buffer is None && auto_confirm {
            GasPlan::Deferred
        } else {
            GasPlan::Estimate { buffer: specs.gas_buffer, confirm: !auto_confirm }
        },
    }
}

pub fn decide_gas(specs: &GasSpecs, auto_confirm: bool) -> (p: GasPlan)
    ensures
        p == decide_gas_spec(*specs, auto_confirm),
{
    match specs.gas_limit {
        Option::Some(l) => GasPlan::Fixed(l),
        Option::None => if specs.gas_buffer.is_none() && auto_confirm {
            GasPlan::Deferred
        } else {
            GasPlan::Estimate { buffer: specs.gas_buffer, confirm: !auto_confirm }
        },
    }
}

/// The exact buffered amount: the estimate scaled by `milli`
/// thousandths, truncated.
pub open spec fn buffered_gas_spec(est: u64, milli: u64) -> int {
    (est * milli) / 1000
}

pub open spec fn clamp_u64(v: int) -> int {
    if v > u64::MAX {
        u64::MAX as int
    } else {
        v
    }
}

/// Scales an estimate by a buffer: `buffered = floor(estimate * buffer)`,
/// saturating at the largest representable value.
pub fn buffered_gas(est: u64, buffer: GasBuffer) -> (r: u64)
    ensures
        r == clamp_u64(buffered_gas_spec(est, buffer.milli)),
{
    proof {
        assert((est as int) * (buffer.milli as int) <= (u64::MAX as int) * (u64::MAX as int))
            by (nonlinear_arith)
            requires
                0 <= est as int <= u64::MAX as int,
                0 <= buffer.milli as int <= u64::MAX as int,
        ;
    }
    let p: u128 = (est as u128) * (buffer.milli as u128);
    let q: u128 = p / 1000;
    if q > u64::MAX as u128 {
        u64::MAX
    } else {
        q as u64
    }
}

/// Applies an optional buffer to an estimate: with a buffer the result
/// is the floored product; with the buffer omitted the estimate is
/// used unchanged.
pub fn apply_buffer(est: u64, buffer: &Option<GasBuffer>) -> (r: u64)
    ensures
        match buffer {
            Some(b) => r == clamp_u64(buffered_gas_spec(est, b.milli)),
            None => r == est,
        },
{
    match buffer {
        Option::Some(b) => buffered_gas(est, *b),
        Option::None => est,
    }
}

/// Index of the first `'.'` in the string, or its length if there is
/// none.
pub open spec fn dot_index(s: Seq<char>) -> int
    decreases s.len(),
{
    if s.len() == 0 {
        0
    } else if s[0] == '.' {
        0
    } else {
        1 + dot_index(s.drop_first())
    }
}

pub proof fn lemma_dot_index_at(s: Seq<char>, i: int)
    requires
        0 <= i <= s.len(),
        i < s.len() ==> s[i] == '.',
        forall|k: int| 0 <= k < i ==> s[k] != '.',
        i == s.len() ==> forall|k: int| 0 <= k < s.len() ==> s[k] != '.',
    ensures
        dot_index(s) == i,
    decreases i,
{
    if s.len() == 0 {
    } else if i == 0 {
        if s.len() > 0 && s[0] != '.' {
            assert(forall|k: int|
                0 <= k < s.drop_first().len() ==> s.drop_first()[k] == s[k + 1]);
            lemma_dot_index_at(s.drop_first(), 0);
        }
    } else {
        assert(forall|k: int| 0 <= k < s.drop_first().len() ==> s.drop_first()[k] == s[k + 1]);
        lemma_dot_index_at(s.drop_first(), i - 1);
    }
}

/// The scale that brings a fractional part of the given width to
/// thousandths.
pub open spec fn frac_factor(len: int) -> int {
    if len == 1 {
        100
    } else if len == 2 {
        10
    } else {
        1
    }
}

/// The buffer a decimal string denotes, in thousandths: an integer
/// part, optionally followed by a dot and one to three fractional
/// digits.
pub open spec fn buffer_milli_of(s: Seq<char>) -> Option<int> {
    let k = dot_index(s);
    if k == s.len() {
        if is_digit_seq(s) {
            Option::Some(dec_val(s) * 1000)
        } else {
            Option::None
        }
    } else {
        let ip = s.take(k);
        let fp = s.skip(k + 1);
        if is_digit_seq(ip) && is_digit_seq(fp) && 1 <= fp.len() <= 3 {
            Option::Some(dec_val(ip) * 1000 + dec_val(fp) * frac_factor(fp.len() as int))
        } else {
            Option::None
        }
    }
}

/// A digit string of up to three digits denotes at most 999.
pub proof fn lemma_dec_val_len_bound(s: Seq<char>)
    requires
        forall|k: int| 0 <= k < s.len() ==> is_digit(#[trigger] s[k]),
        s.len() <= 3,
    ensures
        0 <= dec_val(s),
        s.len() <= 1 ==> dec_val(s) <= 9,
        s.len() <= 2 ==> dec_val(s) <= 99,
        s.len() <= 3 ==> dec_val(s) <= 999,
    decreases s.len(),
{
    if s.len() == 0 {
    } else {
        assert(forall|k: int| 0 <= k < s.drop_last().len() ==> is_digit(#[trigger] s.drop_last()[k]));
        lemma_dec_val_len_bound(s.drop_last());
        assert(digit_val(s.last()) <= 9);
    }
}

/// The digits `chars[from..to]` as a value, if they are all digits and
/// the value is representable.
fn parse_digits_val(chars: &Vec<char>, from: usize, to: usize) -> (r: Option<u64>)
    requires
        from <= to <= chars@.len(),
    ensures
        match r {
            Some(v) => is_digit_seq(chars@.subrange(from as int, to as int)) && v == dec_val(
                chars@.subrange(from as int, to as int),
            ),
            None => !is_digit_seq(chars@.subrange(from as int, to as int)) || dec_val(
                chars@.subrange(from as int, to as int),
            ) > u64::MAX,
        },
{
    let ghost sub = chars@.subrange(from as int, to as int);
    if from == to {
        return Option::None;
    }
    let mut val: u64 = 0;
    let mut j: usize = from;
    while j < to
        invariant
            from <= j <= to <= chars@.len(),
            sub == chars@.subrange(from as int, to as int),
            forall|k: int| 0 <= k < j - from ==> is_digit(#[trigger] sub[k]),
            val == dec_val(sub.take(j - from)),
        decreases to - j,
    {
        let c = chars[j];
        proof {
            assert(sub[j - from] == chars@[j as int]);
        }
        if !is_digit_exec(c) {
            return Option::None;
        }
        let d = digit_val_exec(c);
        proof {
            assert(sub.take(j - from + 1).drop_last() =~= sub.take(j - from));
            assert(dec_val(sub.take(j - from + 1)) == dec_val(sub.take(j - from)) * 10
                + digit_val(sub[j - from]));
        }
        if val > (u64::MAX - (d as u64)) / 10 {
            proof {
                if is_digit_seq(sub) {
                    lemma_dec_val_prefix_le(sub, j - from + 1);
                }
            }
            return Option::None;
        }
        val = val * 10 + (d as u64);
        j = j + 1;
    }
    proof {
        assert(sub.take(to - from) =~= sub);
    }
    Option::Some(val)
}

/// Reads a decimal buffer multiplier such as `1.2` into thousandths.
/// Strings that are not of that shape, or denote a value too large to
/// represent, are rejected.
pub fn parse_buffer(s: &str) -> (r: Option<GasBuffer>)
    ensures
        match r {
            Some(b) => buffer_milli_of(s@) == Option::Some(b.milli as int),
            None => match buffer_milli_of(s@) {
                Some(v) => v > u64::MAX,
                None => true,
            },
        },
{
    let chars = str_to_chars(s);
    let n = chars.len();
    let mut k: usize = 0;
    while k < n && chars[k] != '.'
        invariant
            k <= n,
            n == chars@.len(),
            chars@ == s@,
            forall|i: int| 0 <= i < k ==> chars@[i] != '.',
        decreases n - k,
    {
        k = k + 1;
    }
    proof {
        lemma_dot_index_at(s@, k as int);
    }
    if k == n {
        // no fractional part
        match parse_digits_val(&chars, 0, n) {
            Option::Some(v) => {
                proof {
                    assert(chars@.subrange(0, n as int) =~= s@);
                }
                if v <= u64::MAX / 1000 {
                    Option::Some(GasBuffer { milli: v * 1000 })
                } else {
                    Option::None
                }
            },
            Option::None => {
                proof {
                    assert(chars@.subrange(0, n as int) =~= s@);
                    if is_digit_seq(s@) {
                        crate::numbers::lemma_dec_val_nonneg(s@);
                    }
                }
                Option::None
            },
        }
    } else {
        let fp_len = n - k - 1;
        if fp_len < 1 || fp_len > 3 {
            return Option::None;
        }
        let ip = parse_digits_val(&chars, 0, k);
        let fp = parse_digits_val(&chars, k + 1, n);
        proof {
            assert(chars@.subrange(0, k as int) =~= s@.take(k as int));
            assert(chars@.subrange(k as int + 1, n as int) =~= s@.skip(k as int + 1));
        }
        match (ip, fp) {
            (Option::Some(iv), Option::Some(fv)) => {
                let factor: u64 = if fp_len == 1 {
                    100
                } else if fp_len == 2 {
                    10
                } else {
                    1
                };
                proof {
                    lemma_dec_val_len_bound(s@.skip(k as int + 1));
                }
                let scaled = fv * factor;
                if iv <= (u64::MAX - scaled) / 1000 {
                    Option::Some(GasBuffer { milli: iv * 1000 + scaled })
                } else {
                    Option::None
                }
            },
            _ => {
                proof {
                    if is_digit_seq(s@.take(k as int)) {
                        crate::numbers::lemma_dec_val_nonneg(s@.take(k as int));
                    }
                    if is_digit_seq(s@.skip(k as int + 1)) {
                        crate::numbers::lemma_dec_val_nonneg(s@.skip(k as int + 1));
                    }
                }
                Option::None
            },
        }
    }
}

} // verus!
