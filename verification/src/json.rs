use vstd::prelude::*;
use crate::errors::ClientError;
use crate::mirror::Mirror;
use crate::numbers::{
    dec_digits, digit_val_exec, is_digit, is_digit_exec, lemma_dec_canonical,
    lemma_dec_val_prefix_le, push_u64_dec,
};
use crate::records::{CustodianRecord, CustodianView, KeyRecord, KeyRecordView};
use crate::roles::Role;
use crate::text::{
    chars_range_to_string, chars_to_string, plain_char, plain_char_exec, plain_str,
    push_str_chars, str_eq, str_to_chars,
};

verus! {

// ---------------------------------------------------------------------
// The persisted form of the mirror: a JSON array of key records, in one
// canonical rendering.  `ser_mirror` is the exact text the writer
// emits; the reader accepts exactly this form and is proved to return
// only values whose rendering is the input.
//
// Accepting only the canonical rendering is deliberate.  The store is
// written solely by `render_mirror`, as a full-file replace, so every
// text the client itself produced reads back exactly (the reader's
// completeness clause); a file in any other form — reordered fields,
// different whitespace, a foreign writer, a hand edit — is rejected
// outright as malformed rather than half-understood, which keeps the
// round-trip law exact and makes outside tampering with the store
// visible instead of silently normalized.
// ---------------------------------------------------------------------

/// A string value in its quoted form.
pub open spec fn quoted(s: Seq<char>) -> Seq<char> {
    "\""@ + (s + "\""@)
}

pub open spec fn ser_opt_str(o: Option<Seq<char>>) -> Seq<char> {
    match o {
        Option::Some(s) => quoted(s),
        Option::None => "null"@,
    }
}

pub open spec fn ser_opt_u64(o: Option<u64>) -> Seq<char> {
    match o {
        Option::Some(n) => dec_digits(n as nat),
        Option::None => "null"@,
    }
}

pub open spec fn ser_bool(b: bool) -> Seq<char> {
    if b {
        "true"@
    } else {
        "false"@
    }
}

pub open spec fn ser_custodian(c: CustodianView) -> Seq<char> {
    "{\n\"address\": "@ + quoted(c.address) + ",\n\"role\": "@ + quoted(c.role.label_spec())
        + ",\n\"can_ping\": "@ + ser_bool(c.can_ping) + "\n}"@
}

/// The tail of a custodian list: either the closing bracket or a
/// separator, one more custodian, and the rest.
pub open spec fn ser_cust_tail(cs: Seq<CustodianView>) -> Seq<char>
    decreases cs.len(),
{
    if cs.len() == 0 {
        "]"@
    } else {
        ",\n"@ + (ser_custodian(cs[0]) + ser_cust_tail(cs.drop_first()))
    }
}

/// A custodian list after its opening bracket, through its closing
/// bracket.
pub open spec fn ser_cust_first(cs: Seq<CustodianView>) -> Seq<char> {
    if cs.len() == 0 {
        "]"@
    } else {
        ser_custodian(cs[0]) + ser_cust_tail(cs.drop_first())
    }
}

/// Everything of a record's rendering before its custodian list.
pub open spec fn ser_record_head(r: KeyRecordView) -> Seq<char> {
    "{\n\"key_id\": "@ + quoted(r.key_id) + ",\n\"contract_address\": "@ + quoted(
        r.contract_address,
    ) + ",\n\"private_key_path\": "@ + quoted(r.private_key_path) + ",\n\"owner\": "@ + quoted(
        r.owner,
    ) + ",\n\"network\": "@ + ser_opt_str(r.network) + ",\n\"rpc_url\": "@ + quoted(r.rpc_url)
        + ",\n\"timeout\": "@ + dec_digits(r.timeout as nat) + ",\n\"data\": "@ + ser_opt_str(
        r.data,
    ) + ",\n\"last_ping_timestamp\": "@ + ser_opt_u64(r.last_ping_timestamp)
        + ",\n\"custodians\": ["@
}

pub open spec fn ser_record(r: KeyRecordView) -> Seq<char> {
    ser_record_head(r) + (ser_cust_first(r.custodians) + "\n}"@)
}

/// The tail of the record list: either the closing bracket or a
/// separator, one more record, and the rest.
pub open spec fn ser_tail(rs: Seq<KeyRecordView>) -> Seq<char>
    decreases rs.len(),
{
    if rs.len() == 0 {
        "]"@
    } else {
        ",\n"@ + (ser_record(rs[0]) + ser_tail(rs.drop_first()))
    }
}

/// The record list after its opening bracket, through its closing
/// bracket.
pub open spec fn ser_first(rs: Seq<KeyRecordView>) -> Seq<char> {
    if rs.len() == 0 {
        "]"@
    } else {
        ser_record(rs[0]) + ser_tail(rs.drop_first())
    }
}

/// The canonical text of the whole mirror.
pub open spec fn ser_mirror(rs: Seq<KeyRecordView>) -> Seq<char> {
    "["@ + ser_first(rs)
}

// ---------------------------------------------------------------------
// Rendering
// ---------------------------------------------------------------------

fn push_quoted(out: &mut Vec<char>, s: &str)
    ensures
        final(out)@ == old(out)@ + quoted(s@),
{
    push_str_chars(out, "\"");
    push_str_chars(out, s);
    push_str_chars(out, "\"");
    proof {
        assert(out@ =~= old(out)@ + quoted(s@));
    }
}

fn push_opt_str(out: &mut Vec<char>, o: &Option<String>)
    ensures
        (o matches Some(s) ==> final(out)@ == old(out)@ + ser_opt_str(Option::Some(s@))),
        (o is None ==> final(out)@ == old(out)@ + ser_opt_str(Option::None)),
{
    match o {
        Option::Some(s) => push_quoted(out, s.as_str()),
        Option::None => push_str_chars(out, "null"),
    }
}

fn push_opt_u64(out: &mut Vec<char>, o: &Option<u64>)
    ensures
        final(out)@ == old(out)@ + ser_opt_u64(*o),
{
    match o {
        Option::Some(n) => push_u64_dec(out, *n),
        Option::None => push_str_chars(out, "null"),
    }
}

fn push_bool(out: &mut Vec<char>, b: bool)
    ensures
        final(out)@ == old(out)@ + ser_bool(b),
{
    if b {
        push_str_chars(out, "true");
    } else {
        push_str_chars(out, "false");
    }
}

fn push_custodian(out: &mut Vec<char>, c: &CustodianRecord)
    ensures
        final(out)@ == old(out)@ + ser_custodian(c@),
{
    push_str_chars(out, "{\n\"address\": ");
    push_quoted(out, c.address.as_str());
    push_str_chars(out, ",\n\"role\": ");
    let label = c.role.label();
    push_quoted(out, label.as_str());
    push_str_chars(out, ",\n\"can_ping\": ");
    push_bool(out, c.can_ping);
    push_str_chars(out, "\n}");
    proof {
        assert(out@ =~= old(out)@ + ser_custodian(c@));
    }
}

#[verifier::rlimit(100)]
#[verifier::spinoff_prover]
fn push_record(out: &mut Vec<char>, r: &KeyRecord)
    ensures
        final(out)@ == old(out)@ + ser_record(r@),
{
    push_str_chars(out, "{\n\"key_id\": ");
    push_quoted(out, r.key_id.as_str());
    push_str_chars(out, ",\n\"contract_address\": ");
    push_quoted(out, r.contract_address.as_str());
    push_str_chars(out, ",\n\"private_key_path\": ");
    push_quoted(out, r.private_key_path.as_str());
    push_str_chars(out, ",\n\"owner\": ");
    push_quoted(out, r.owner.as_str());
    push_str_chars(out, ",\n\"network\": ");
    push_opt_str(out, &r.network);
    push_str_chars(out, ",\n\"rpc_url\": ");
    push_quoted(out, r.rpc_url.as_str());
    push_str_chars(out, ",\n\"timeout\": ");
    push_u64_dec(out, r.timeout);
    push_str_chars(out, ",\n\"data\": ");
    push_opt_str(out, &r.data);
    push_str_chars(out, ",\n\"last_ping_timestamp\": ");
    push_opt_u64(out, &r.last_ping_timestamp);
    push_str_chars(out, ",\n\"custodians\": [");
    proof {
        assert(out@ =~= old(out)@ + ser_record_head(r@));
    }
    push_cust_first(out, &r.custodians);
    push_str_chars(out, "\n}");
    proof {
        assert(r@.custodians =~= cust_views(r.custodians@));
        assert(out@ =~= old(out)@ + ser_record(r@));
    }
}

/// Emits a custodian list after its opening bracket, through its
/// closing bracket.
#[verifier::rlimit(100)]
#[verifier::spinoff_prover]
fn push_cust_first(out: &mut Vec<char>, custodians: &Vec<CustodianRecord>)
    ensures
        final(out)@ == old(out)@ + ser_cust_first(cust_views(custodians@)),
{
    let ghost cs = cust_views(custodians@);
    let n = custodians.len();
    if n > 0 {
        let ghost target = old(out)@ + (ser_custodian(cs[0]) + ser_cust_tail(cs.drop_first()));
        push_custodian(out, &custodians[0]);
        let mut k: usize = 1;
        proof {
            assert(cs.drop_first() =~= cs.skip(1));
            assert(out@ + ser_cust_tail(cs.skip(1)) =~= target);
        }
        while k < n
            invariant
                1 <= k <= n,
                n == cs.len(),
                cs == cust_views(custodians@),
                custodians@.len() == n,
                out@ + ser_cust_tail(cs.skip(k as int)) == target,
            decreases n - k,
        {
            push_str_chars(out, ",\n");
            push_custodian(out, &custodians[k]);
            proof {
                assert(cs.skip(k as int)[0] == cs[k as int]);
                assert(cs[k as int] == custodians@[k as int]@);
                assert(cs.skip(k as int).drop_first() =~= cs.skip(k as int + 1));
                assert(ser_cust_tail(cs.skip(k as int)) == ",\n"@ + (ser_custodian(cs[k as int])
                    + ser_cust_tail(cs.skip(k as int + 1))));
                assert(out@ + ser_cust_tail(cs.skip(k as int + 1)) =~= target);
            }
            k = k + 1;
        }
        push_str_chars(out, "]");
        proof {
            assert(cs.skip(n as int) =~= Seq::<CustodianView>::empty());
            assert(ser_cust_tail(cs.skip(n as int)) == "]"@);
            assert(out@ =~= target);
            assert(out@ =~= old(out)@ + ser_cust_first(cs));
        }
    } else {
        push_str_chars(out, "]");
        proof {
            assert(out@ =~= old(out)@ + ser_cust_first(cs));
        }
    }
}

/// The canonical text of the mirror, ready to be written to the
/// backing store.  Reading this text back yields the same mirror: see
/// the parser's contract and `lemma_ser_mirror_injective`.
pub fn render_mirror(m: &Mirror) -> (r: String)
    ensures
        r@ == ser_mirror(m@),
{
    let mut out: Vec<char> = Vec::new();
    push_str_chars(&mut out, "[");
    push_rec_first(&mut out, m);
    proof {
        assert(out@ =~= ser_mirror(m@));
    }
    chars_to_string(&out)
}

/// Emits the record list after its opening bracket, through its
/// closing bracket.
#[verifier::rlimit(100)]
#[verifier::spinoff_prover]
fn push_rec_first(out: &mut Vec<char>, m: &Mirror)
    ensures
        final(out)@ == old(out)@ + ser_first(m@),
{
    let n = m.len();
    if n > 0 {
        let ghost rs = m@;
        let ghost target = old(out)@ + (ser_record(rs[0]) + ser_tail(rs.drop_first()));
        push_record(out, m.record_at(0));
        let mut k: usize = 1;
        proof {
            assert(rs.drop_first() =~= rs.skip(1));
            assert(out@ + ser_tail(rs.skip(1)) =~= target);
        }
        while k < n
            invariant
                1 <= k <= n,
                n == rs.len(),
                rs == m@,
                m@.len() == n,
                out@ + ser_tail(rs.skip(k as int)) == target,
            decreases n - k,
        {
            push_str_chars(out, ",\n");
            push_record(out, m.record_at(k));
            proof {
                assert(rs.skip(k as int)[0] == rs[k as int]);
                assert(rs.skip(k as int).drop_first() =~= rs.skip(k as int + 1));
                assert(ser_tail(rs.skip(k as int)) == ",\n"@ + (ser_record(rs[k as int])
                    + ser_tail(rs.skip(k as int + 1))));
                assert(out@ + ser_tail(rs.skip(k as int + 1)) =~= target);
            }
            k = k + 1;
        }
        push_str_chars(out, "]");
        proof {
            assert(rs.skip(n as int) =~= Seq::<KeyRecordView>::empty());
            assert(ser_tail(rs.skip(n as int)) == "]"@);
            assert(out@ =~= target);
            assert(out@ =~= old(out)@ + ser_first(m@));
        }
    } else {
        push_str_chars(out, "]");
        proof {
            assert(out@ =~= old(out)@ + ser_first(m@));
        }
    }
}

// ---------------------------------------------------------------------
// Parsing.  The reader accepts exactly the canonical rendering; each
// parser's contract says that what it returns renders to the very
// characters it consumed, so a successful read of a file names the one
// mirror whose rendering that file is.
// ---------------------------------------------------------------------

/// The text `t` occurs in `s` at position `i`.
pub open spec fn is_at(s: Seq<char>, i: int, t: Seq<char>) -> bool {
    &&& 0 <= i
    &&& i + t.len() <= s.len()
    &&& s.subrange(i, i + t.len()) == t
}

pub proof fn lemma_is_at_concat(s: Seq<char>, i: int, a: Seq<char>, b: Seq<char>)
    requires
        is_at(s, i, a),
        is_at(s, i + a.len(), b),
    ensures
        is_at(s, i, a + b),
{
    assert(s.subrange(i, i + a.len() + b.len()) =~= a + b);
}

/// Splits an occurrence of a concatenation into its parts.
pub proof fn lemma_is_at_split(s: Seq<char>, i: int, a: Seq<char>, b: Seq<char>)
    requires
        is_at(s, i, a + b),
    ensures
        is_at(s, i, a),
        is_at(s, i + a.len(), b),
{
    assert(s.subrange(i, i + a.len()) =~= a) by {
        assert forall|t: int| 0 <= t < a.len() implies s.subrange(i, i + a.len())[t] == a[t] by {
            assert(s.subrange(i, i + a.len() + b.len())[t] == (a + b)[t]);
        }
    }
    assert(s.subrange(i + a.len(), i + a.len() + b.len()) =~= b) by {
        assert forall|t: int|
            0 <= t < b.len() implies s.subrange(i + a.len(), i + a.len() + b.len())[t] == b[t] by {
            assert(s.subrange(i, i + a.len() + b.len())[a.len() + t] == (a + b)[a.len() + t]);
        }
    }
}

/// Two pieces found at the same position head the same suffix.
pub proof fn lemma_prefixes(s: Seq<char>, i: int, a: Seq<char>, b: Seq<char>)
    requires
        is_at(s, i, a),
        is_at(s, i, b),
    ensures
        a + s.skip(i + a.len()) == b + s.skip(i + b.len()),
{
    assert(a + s.skip(i + a.len()) =~= s.skip(i));
    assert(b + s.skip(i + b.len()) =~= s.skip(i));
}

/// Two canonical numbers ending their digit runs at the same position
/// are the same number.
proof fn lemma_align_number(s: Seq<char>, i: int, a: u64, b: u64)
    requires
        number_at(s, i, a),
        number_at(s, i, b),
    ensures
        a == b,
{
    let da = dec_digits(a as nat);
    let db = dec_digits(b as nat);
    crate::numbers::lemma_dec_digits_are_digits(a as nat);
    crate::numbers::lemma_dec_digits_are_digits(b as nat);
    if da.len() < db.len() {
        let q = i + da.len();
        assert(s.subrange(i, i + db.len())[da.len() as int] == db[da.len() as int]);
        assert(is_digit(s[q]));
        assert(false);
    }
    if db.len() < da.len() {
        let q = i + db.len();
        assert(s.subrange(i, i + da.len())[db.len() as int] == da[db.len() as int]);
        assert(is_digit(s[q]));
        assert(false);
    }
    assert(da =~= db) by {
        assert(forall|t: int| 0 <= t < da.len() ==> s.subrange(i, i + da.len())[t] == da[t]);
        assert(forall|t: int| 0 <= t < db.len() ==> s.subrange(i, i + db.len())[t] == db[t]);
    }
    crate::numbers::lemma_dec_val_of_digits(a as nat);
    crate::numbers::lemma_dec_val_of_digits(b as nat);
}

/// Two optional numbers at the same position agree.
proof fn lemma_align_opt_number(s: Seq<char>, i: int, a: Option<u64>, b: Option<u64>)
    requires
        opt_number_at(s, i, a),
        opt_number_at(s, i, b),
    ensures
        a == b,
{
    reveal_strlit("null");
    match (a, b) {
        (Option::Some(x), Option::Some(y)) => {
            lemma_align_number(s, i, x, y);
        },
        (Option::None, Option::None) => {},
        (Option::Some(x), Option::None) => {
            crate::numbers::lemma_dec_digits_are_digits(x as nat);
            assert(s.subrange(i, i + dec_digits(x as nat).len())[0] == dec_digits(x as nat)[0]);
            assert(s.subrange(i, i + 4)[0] == 'n');
            assert('n' as int == 110);
            assert(false);
        },
        (Option::None, Option::Some(y)) => {
            crate::numbers::lemma_dec_digits_are_digits(y as nat);
            assert(s.subrange(i, i + dec_digits(y as nat).len())[0] == dec_digits(y as nat)[0]);
            assert(s.subrange(i, i + 4)[0] == 'n');
            assert('n' as int == 110);
            assert(false);
        },
    }
}

/// Consumes the exact literal at `i`, if it is there.
fn expect_lit(chars: &Vec<char>, i: usize, lit: &str) -> (r: Option<usize>)
    requires
        i <= chars@.len(),
    ensures
        r matches Some(j) ==> is_at(chars@, i as int, lit@) && j == i + lit@.len() && i <= j
            <= chars@.len(),
        is_at(chars@, i as int, lit@) ==> r is Some,
{
    let m = lit.unicode_len();
    if chars.len() - i < m {
        return Option::None;
    }
    let mut k: usize = 0;
    while k < m
        invariant
            k <= m,
            m == lit@.len(),
            i + m <= chars@.len(),
            chars@.len() <= usize::MAX,
            forall|t: int| 0 <= t < k ==> chars@[i + t] == lit@[t],
        decreases m - k,
    {
        proof {
            assert(i + k < chars@.len());
        }
        if chars[i + k] != lit.get_char(k) {
            proof {
                if is_at(chars@, i as int, lit@) {
                    let ki = k as int;
                    assert(chars@.subrange(i as int, i as int + m as int)[ki] == lit@[ki]);
                    assert(false);
                }
            }
            return Option::None;
        }
        k = k + 1;
    }
    proof {
        assert(chars@.subrange(i as int, i as int + m as int) =~= lit@);
    }
    Option::Some(i + m)
}

/// Consumes a run of storable characters up to a closing quote, the
/// quote included.
fn parse_plain_string(chars: &Vec<char>, i: usize) -> (r: Option<(String, usize)>)
    requires
        i <= chars@.len(),
    ensures
        r matches Some((s, j)) ==> {
            &&& plain_str(s@)
            &&& i + s@.len() + 1 == j <= chars@.len()
            &&& is_at(chars@, i as int, s@ + "\""@)
        },
        forall|v: Seq<char>|
            plain_str(v) && #[trigger] is_at(chars@, i as int, v + "\""@) ==> r is Some,
{
    let n = chars.len();
    let mut k: usize = i;
    while k < n && chars[k] != '"' && plain_char_exec(chars[k])
        invariant
            i <= k <= n,
            n == chars@.len(),
            forall|t: int| i <= t < k ==> plain_char(#[trigger] chars@[t]) && chars@[t] != '"',
        decreases n - k,
    {
        k = k + 1;
    }
    if k < n {
        if chars[k] == '"' {
            let s = chars_range_to_string(chars, i, k);
            proof {
                reveal_strlit("\"");
                assert(forall|t: int| 0 <= t < s@.len() ==> plain_char(#[trigger] s@[t]));
                assert(chars@.subrange(i as int, k as int + 1) =~= s@ + "\""@);
            }
            return Option::Some((s, k + 1));
        }
    }
    proof {
        reveal_strlit("\"");
        assert forall|v: Seq<char>|
            plain_str(v) && #[trigger] is_at(chars@, i as int, v + "\""@) implies false by {
            let w = v + "\""@;
            let q = i + v.len();
            assert(chars@.subrange(i as int, i + w.len())[v.len() as int] == '"');
            assert(chars@[q] == '"');
            assert forall|t: int| i <= t < q implies plain_char(#[trigger] chars@[t]) by {
                assert(chars@.subrange(i as int, i + w.len())[t - i] == v[t - i]);
            }
            if k < n {
                // the scan stopped on a character that is neither the
                // closing quote nor plain
                if (k as int) < q {
                    assert(plain_char(chars@[k as int]));
                    assert(false);
                } else if k as int == q {
                    assert(false);
                } else {
                    assert(chars@[q] != '"');
                    assert(false);
                }
            } else {
                assert(q < n);
                assert(chars@[q] != '"');
                assert(false);
            }
        }
    }
    Option::None
}

/// Consumes a quoted string value.
fn parse_quoted(chars: &Vec<char>, i: usize) -> (r: Option<(String, usize)>)
    requires
        i <= chars@.len(),
    ensures
        r matches Some((s, j)) ==> {
            &&& plain_str(s@)
            &&& i + quoted(s@).len() == j <= chars@.len()
            &&& is_at(chars@, i as int, quoted(s@))
        },
        forall|v: Seq<char>|
            plain_str(v) && #[trigger] is_at(chars@, i as int, quoted(v)) ==> r is Some,
{
    proof {
        reveal_strlit("\"");
        assert forall|v: Seq<char>|
            plain_str(v) && #[trigger] is_at(chars@, i as int, quoted(v)) implies i
            < chars@.len() && chars@[i as int] == '"' && is_at(
            chars@,
            i as int + 1,
            v + "\""@,
        ) by {
            lemma_is_at_split(chars@, i as int, "\""@, v + "\""@);
            assert(chars@.subrange(i as int, i as int + 1)[0] == '"');
        }
    }
    let n = chars.len();
    if i < n && chars[i] == '"' {
        match parse_plain_string(chars, i + 1) {
            Option::Some((s, j)) => {
                proof {
                    assert(chars@.subrange(i as int, j as int) =~= quoted(s@));
                }
                Option::Some((s, j))
            },
            Option::None => Option::None,
        }
    } else {
        Option::None
    }
}

/// Consumes a canonical decimal number: digits with no redundant
/// leading zero, valued within range.
/// A canonical number occurs at `i` and ends the digit run there.
pub open spec fn number_at(s: Seq<char>, i: int, v: u64) -> bool {
    &&& is_at(s, i, dec_digits(v as nat))
    &&& (i + dec_digits(v as nat).len() == s.len() || !is_digit(s[i + dec_digits(v as nat).len()]))
}

fn parse_number(chars: &Vec<char>, i: usize) -> (r: Option<(u64, usize)>)
    requires
        i <= chars@.len(),
    ensures
        r matches Some((v, j)) ==> {
            &&& is_at(chars@, i as int, dec_digits(v as nat))
            &&& j == i + dec_digits(v as nat).len()
            &&& i < j <= chars@.len()
            &&& number_at(chars@, i as int, v)
        },
        forall|v: u64| #[trigger] number_at(chars@, i as int, v) ==> r is Some,
{
    let n = chars.len();
    if i >= n || !is_digit_exec(chars[i]) {
        proof {
            assert forall|v: u64| #[trigger] number_at(chars@, i as int, v) implies false by {
                crate::numbers::lemma_dec_digits_are_digits(v as nat);
                let dd = dec_digits(v as nat);
                assert(chars@.subrange(i as int, i + dd.len())[0] == dd[0]);
                assert(is_digit(chars@[i as int]));
            }
        }
        return Option::None;
    }
    if chars[i] == '0' {
        if i + 1 < n && is_digit_exec(chars[i + 1]) {
            proof {
                assert forall|v: u64| #[trigger] number_at(chars@, i as int, v) implies false by {
                    crate::numbers::lemma_dec_digits_are_digits(v as nat);
                    let dd = dec_digits(v as nat);
                    assert(chars@.subrange(i as int, i + dd.len())[0] == dd[0]);
                    assert(dd[0] == '0');
                    assert(v == 0);
                    assert(dd.len() == 1);
                }
            }
            return Option::None;
        }
        proof {
            assert('0' as int == 48);
            assert(dec_digits(0) =~= seq!['0']);
            assert(chars@.subrange(i as int, i as int + 1) =~= dec_digits(0));
        }
        return Option::Some((0, i + 1));
    }
    let mut k: usize = i;
    let mut val: u64 = 0;
    while k < n && is_digit_exec(chars[k])
        invariant
            i <= k <= n,
            n == chars@.len(),
            is_digit(chars@[i as int]),
            forall|t: int| i <= t < k ==> is_digit(#[trigger] chars@[t]),
            val == crate::numbers::dec_val(chars@.subrange(i as int, k as int)),
        decreases n - k,
    {
        let d = digit_val_exec(chars[k]);
        proof {
            let sub = chars@.subrange(i as int, k as int);
            let sub1 = chars@.subrange(i as int, k as int + 1);
            assert(sub1.drop_last() =~= sub);
            assert(sub1.last() == chars@[k as int]);
        }
        if val > (u64::MAX - (d as u64)) / 10 {
            proof {
                assert forall|v: u64| #[trigger] number_at(chars@, i as int, v) implies false by {
                    crate::numbers::lemma_dec_digits_are_digits(v as nat);
                    crate::numbers::lemma_dec_val_of_digits(v as nat);
                    let dd = dec_digits(v as nat);
                    // the run of digits ends exactly where `dd` does,
                    // so the scan is still inside `dd`
                    assert(k < i + dd.len()) by {
                        if k >= i + dd.len() {
                            assert(i + dd.len() < n);
                            assert(is_digit(chars@[i + dd.len()]));
                        }
                    }
                    assert(chars@.subrange(i as int, k as int + 1) =~= dd.subrange(
                        0,
                        k - i + 1,
                    )) by {
                        assert(forall|t: int|
                            0 <= t < dd.len() ==> chars@.subrange(i as int, i + dd.len())[t]
                                == dd[t]);
                    }
                    assert(dd.subrange(0, k - i + 1) =~= dd.take(k - i + 1));
                    crate::numbers::lemma_dec_val_prefix_le(dd, k - i + 1);
                    assert(crate::numbers::dec_val(chars@.subrange(i as int, k as int + 1)) <= v);
                }
            }
            return Option::None;
        }
        val = val * 10 + (d as u64);
        k = k + 1;
    }
    proof {
        let sub = chars@.subrange(i as int, k as int);
        assert(is_digit(chars@[i as int]));
        assert(k > i);
        assert(sub[0] == chars@[i as int]);
        assert(crate::numbers::is_digit_seq(sub));
        lemma_dec_canonical(sub);
        assert(dec_digits(val as nat) == sub);
    }
    Option::Some((val, k))
}

/// The view of an optional string.
pub open spec fn opt_view(o: Option<String>) -> Option<Seq<char>> {
    match o {
        Option::Some(s) => Option::Some(s@),
        Option::None => Option::None,
    }
}

/// Consumes a string value or the literal `null`.
fn parse_opt_string(chars: &Vec<char>, i: usize) -> (r: Option<(Option<String>, usize)>)
    requires
        i <= chars@.len(),
    ensures
        r matches Some((o, j)) ==> {
            &&& (o matches Some(s) ==> plain_str(s@))
            &&& is_at(chars@, i as int, ser_opt_str(opt_view(o)))
            &&& j == i + ser_opt_str(opt_view(o)).len()
            &&& i <= j <= chars@.len()
        },
        forall|ov: Option<Seq<char>>|
            (ov matches Option::Some(t) ==> plain_str(t)) && #[trigger] is_at(
                chars@,
                i as int,
                ser_opt_str(ov),
            ) ==> r is Some,
{
    proof {
        reveal_strlit("\"");
        reveal_strlit("null");
        assert forall|ov: Option<Seq<char>>|
            #[trigger] is_at(chars@, i as int, ser_opt_str(ov)) implies i < chars@.len() && (
        match ov {
            Option::Some(_) => chars@[i as int] == '"',
            Option::None => chars@[i as int] == 'n',
        }) by {
            match ov {
                Option::Some(t) => {
                    assert(chars@.subrange(i as int, i + quoted(t).len())[0] == '"');
                },
                Option::None => {
                    assert(chars@.subrange(i as int, i + 4)[0] == 'n');
                },
            }
        }
    }
    let n = chars.len();
    if i < n && chars[i] == '"' {
        match parse_quoted(chars, i) {
            Option::Some((s, j)) => Option::Some((Option::Some(s), j)),
            Option::None => Option::None,
        }
    } else {
        match expect_lit(chars, i, "null") {
            Option::Some(j) => Option::Some((Option::None, j)),
            Option::None => Option::None,
        }
    }
}

/// An optional number occurs at `i`, its digit run ending there.
pub open spec fn opt_number_at(s: Seq<char>, i: int, ov: Option<u64>) -> bool {
    match ov {
        Option::Some(v) => number_at(s, i, v),
        Option::None => is_at(s, i, "null"@),
    }
}

/// Consumes a number value or the literal `null`.
fn parse_opt_number(chars: &Vec<char>, i: usize) -> (r: Option<(Option<u64>, usize)>)
    requires
        i <= chars@.len(),
    ensures
        r matches Some((o, j)) ==> {
            &&& is_at(chars@, i as int, ser_opt_u64(o))
            &&& j == i + ser_opt_u64(o).len()
            &&& i <= j <= chars@.len()
            &&& opt_number_at(chars@, i as int, o)
        },
        forall|ov: Option<u64>|
            #[trigger] opt_number_at(chars@, i as int, ov) ==> r is Some,
{
    proof {
        reveal_strlit("null");
        assert forall|ov: Option<u64>|
            #[trigger] opt_number_at(chars@, i as int, ov) implies i < chars@.len() && (
        match ov {
            Option::Some(v) => is_digit(chars@[i as int]) && number_at(chars@, i as int, v),
            Option::None => chars@[i as int] == 'n' && !is_digit(chars@[i as int]),
        }) by {
            match ov {
                Option::Some(v) => {
                    crate::numbers::lemma_dec_digits_are_digits(v as nat);
                    let dd = dec_digits(v as nat);
                    assert(chars@.subrange(i as int, i + dd.len())[0] == dd[0]);
                },
                Option::None => {
                    assert(chars@.subrange(i as int, i + 4)[0] == 'n');
                    assert('n' as int == 110);
                },
            }
        }
    }
    let n = chars.len();
    if i < n && is_digit_exec(chars[i]) {
        match parse_number(chars, i) {
            Option::Some((v, j)) => Option::Some((Option::Some(v), j)),
            Option::None => Option::None,
        }
    } else {
        match expect_lit(chars, i, "null") {
            Option::Some(j) => Option::Some((Option::None, j)),
            Option::None => Option::None,
        }
    }
}

/// Consumes `true` or `false`.
fn parse_bool(chars: &Vec<char>, i: usize) -> (r: Option<(bool, usize)>)
    requires
        i <= chars@.len(),
    ensures
        r matches Some((b, j)) ==> {
            &&& is_at(chars@, i as int, ser_bool(b))
            &&& j == i + ser_bool(b).len()
            &&& i <= j <= chars@.len()
        },
        forall|b: bool| #[trigger] is_at(chars@, i as int, ser_bool(b)) ==> r is Some,
{
    proof {
        reveal_strlit("true");
        reveal_strlit("false");
    }
    match expect_lit(chars, i, "true") {
        Option::Some(j) => Option::Some((true, j)),
        Option::None => match expect_lit(chars, i, "false") {
            Option::Some(j) => Option::Some((false, j)),
            Option::None => Option::None,
        },
    }
}

/// Consumes a quoted role label, exactly as the writer spells it.
fn parse_role_value(chars: &Vec<char>, i: usize) -> (r: Option<(Role, usize)>)
    requires
        i <= chars@.len(),
    ensures
        r matches Some((role, j)) ==> {
            &&& is_at(chars@, i as int, quoted(role.label_spec()))
            &&& j == i + quoted(role.label_spec()).len()
            &&& i <= j <= chars@.len()
        },
        forall|role: Role|
            #[trigger] is_at(chars@, i as int, quoted(role.label_spec())) ==> r is Some,
{
    proof {
        assert forall|role: Role|
            #[trigger] is_at(chars@, i as int, quoted(role.label_spec())) implies plain_str(
            role.label_spec(),
        ) by {
            lemma_label_plain(role);
        }
    }
    match parse_quoted(chars, i) {
        Option::Some((s, j)) => {
            let role = if str_eq(s.as_str(), "owner") {
                Option::Some(Role::Owner)
            } else if str_eq(s.as_str(), "writer") {
                Option::Some(Role::Writer)
            } else if str_eq(s.as_str(), "reader") {
                Option::Some(Role::Reader)
            } else if str_eq(s.as_str(), "none") {
                Option::Some(Role::NoRole)
            } else {
                Option::None
            };
            match role {
                Option::Some(role) => Option::Some((role, j)),
                Option::None => {
                    proof {
                        assert forall|er: Role|
                            #[trigger] is_at(chars@, i as int, quoted(er.label_spec()))
                            implies false by {
                            lemma_label_plain(er);
                            lemma_prefixes(
                                chars@,
                                i as int,
                                quoted(s@),
                                quoted(er.label_spec()),
                            );
                            lemma_unquote(
                                s@,
                                er.label_spec(),
                                chars@.skip(i + quoted(s@).len()),
                                chars@.skip(i + quoted(er.label_spec()).len()),
                            );
                        }
                    }
                    Option::None
                },
            }
        },
        Option::None => Option::None,
    }
}

/// Consumes one custodian object.
/// The rendering of a custodian, split at each component boundary.
proof fn lemma_custodian_layout(s: Seq<char>, i: int, c: CustodianView)
    requires
        is_at(s, i, ser_custodian(c)),
    ensures
        ({
            let p2 = i + "{\n\"address\": "@.len();
            let p3 = p2 + quoted(c.address).len();
            let p4 = p3 + ",\n\"role\": "@.len();
            let p5 = p4 + quoted(c.role.label_spec()).len();
            let p6 = p5 + ",\n\"can_ping\": "@.len();
            let p7 = p6 + ser_bool(c.can_ping).len();
            &&& is_at(s, i, "{\n\"address\": "@)
            &&& is_at(s, p2, quoted(c.address))
            &&& is_at(s, p3, ",\n\"role\": "@)
            &&& is_at(s, p4, quoted(c.role.label_spec()))
            &&& is_at(s, p5, ",\n\"can_ping\": "@)
            &&& is_at(s, p6, ser_bool(c.can_ping))
            &&& is_at(s, p7, "\n}"@)
        }),
{
    let t6 = ser_bool(c.can_ping) + "\n}"@;
    let t5 = ",\n\"can_ping\": "@ + t6;
    let t4 = quoted(c.role.label_spec()) + t5;
    let t3 = ",\n\"role\": "@ + t4;
    let t2 = quoted(c.address) + t3;
    assert(ser_custodian(c) =~= "{\n\"address\": "@ + t2);
    lemma_is_at_split(s, i, "{\n\"address\": "@, t2);
    let p2 = i + "{\n\"address\": "@.len();
    lemma_is_at_split(s, p2, quoted(c.address), t3);
    let p3 = p2 + quoted(c.address).len();
    lemma_is_at_split(s, p3, ",\n\"role\": "@, t4);
    let p4 = p3 + ",\n\"role\": "@.len();
    lemma_is_at_split(s, p4, quoted(c.role.label_spec()), t5);
    let p5 = p4 + quoted(c.role.label_spec()).len();
    lemma_is_at_split(s, p5, ",\n\"can_ping\": "@, t6);
    let p6 = p5 + ",\n\"can_ping\": "@.len();
    lemma_is_at_split(s, p6, ser_bool(c.can_ping), "\n}"@);
}

/// A custodian occurs at `i`, with its address storable.
pub open spec fn custodian_at(s: Seq<char>, i: int, c: CustodianView) -> bool {
    plain_str(c.address) && is_at(s, i, ser_custodian(c))
}

#[verifier::rlimit(100)]
#[verifier::spinoff_prover]
fn parse_custodian(chars: &Vec<char>, i: usize) -> (r: Option<(CustodianRecord, usize)>)
    requires
        i <= chars@.len(),
    ensures
        r matches Some((c, j)) ==> {
            &&& is_at(chars@, i as int, ser_custodian(c@))
            &&& j == i + ser_custodian(c@).len()
            &&& i < j <= chars@.len()
            &&& plain_str(c@.address)
        },
        forall|cv: CustodianView| #[trigger] custodian_at(chars@, i as int, cv) ==> r is Some,
{
    let i1 = match expect_lit(chars, i, "{\n\"address\": ") {
        Option::Some(j) => j,
        Option::None => {
            proof {
                assert forall|cv: CustodianView|
                    #[trigger] custodian_at(chars@, i as int, cv) implies false by {
                    lemma_custodian_layout(chars@, i as int, cv);
                }
            }
            return Option::None;
        },
    };
    let (address, i2) = match parse_quoted(chars, i1) {
        Option::Some(p) => p,
        Option::None => {
            proof {
                assert forall|cv: CustodianView|
                    #[trigger] custodian_at(chars@, i as int, cv) implies false by {
                    lemma_custodian_layout(chars@, i as int, cv);
                // the opening literal was consumed, so the quoted address is next
                }
            }
            return Option::None;
        },
    };
    let i3 = match expect_lit(chars, i2, ",\n\"role\": ") {
        Option::Some(j) => j,
        Option::None => {
            proof {
                assert forall|cv: CustodianView|
                    #[trigger] custodian_at(chars@, i as int, cv) implies false by {
                    lemma_custodian_layout(chars@, i as int, cv);
                lemma_prefixes(chars@, i1 as int, quoted(address@), quoted(cv.address));
                lemma_unquote(address@, cv.address, chars@.skip(i1 + quoted(address@).len()), chars@.skip(i1 + quoted(cv.address).len()));
                }
            }
            return Option::None;
        },
    };
    let (role, i4) = match parse_role_value(chars, i3) {
        Option::Some(p) => p,
        Option::None => {
            proof {
                assert forall|cv: CustodianView|
                    #[trigger] custodian_at(chars@, i as int, cv) implies false by {
                    lemma_custodian_layout(chars@, i as int, cv);
                lemma_prefixes(chars@, i1 as int, quoted(address@), quoted(cv.address));
                lemma_unquote(address@, cv.address, chars@.skip(i1 + quoted(address@).len()), chars@.skip(i1 + quoted(cv.address).len()));
                }
            }
            return Option::None;
        },
    };
    let i5 = match expect_lit(chars, i4, ",\n\"can_ping\": ") {
        Option::Some(j) => j,
        Option::None => {
            proof {
                assert forall|cv: CustodianView|
                    #[trigger] custodian_at(chars@, i as int, cv) implies false by {
                    lemma_custodian_layout(chars@, i as int, cv);
                lemma_prefixes(chars@, i1 as int, quoted(address@), quoted(cv.address));
                lemma_unquote(address@, cv.address, chars@.skip(i1 + quoted(address@).len()), chars@.skip(i1 + quoted(cv.address).len()));
                lemma_label_plain(role);
                lemma_label_plain(cv.role);
                lemma_prefixes(chars@, i3 as int, quoted(role.label_spec()), quoted(cv.role.label_spec()));
                lemma_un_role(role, cv.role, chars@.skip(i3 + quoted(role.label_spec()).len()), chars@.skip(i3 + quoted(cv.role.label_spec()).len()));
                }
            }
            return Option::None;
        },
    };
    let (can_ping, i6) = match parse_bool(chars, i5) {
        Option::Some(p) => p,
        Option::None => {
            proof {
                assert forall|cv: CustodianView|
                    #[trigger] custodian_at(chars@, i as int, cv) implies false by {
                    lemma_custodian_layout(chars@, i as int, cv);
                lemma_prefixes(chars@, i1 as int, quoted(address@), quoted(cv.address));
                lemma_unquote(address@, cv.address, chars@.skip(i1 + quoted(address@).len()), chars@.skip(i1 + quoted(cv.address).len()));
                lemma_label_plain(role);
                lemma_label_plain(cv.role);
                lemma_prefixes(chars@, i3 as int, quoted(role.label_spec()), quoted(cv.role.label_spec()));
                lemma_un_role(role, cv.role, chars@.skip(i3 + quoted(role.label_spec()).len()), chars@.skip(i3 + quoted(cv.role.label_spec()).len()));
                }
            }
            return Option::None;
        },
    };
    let i7 = match expect_lit(chars, i6, "\n}") {
        Option::Some(j) => j,
        Option::None => {
            proof {
                assert forall|cv: CustodianView|
                    #[trigger] custodian_at(chars@, i as int, cv) implies false by {
                    lemma_custodian_layout(chars@, i as int, cv);
                lemma_prefixes(chars@, i1 as int, quoted(address@), quoted(cv.address));
                lemma_unquote(address@, cv.address, chars@.skip(i1 + quoted(address@).len()), chars@.skip(i1 + quoted(cv.address).len()));
                lemma_label_plain(role);
                lemma_label_plain(cv.role);
                lemma_prefixes(chars@, i3 as int, quoted(role.label_spec()), quoted(cv.role.label_spec()));
                lemma_un_role(role, cv.role, chars@.skip(i3 + quoted(role.label_spec()).len()), chars@.skip(i3 + quoted(cv.role.label_spec()).len()));
                lemma_prefixes(chars@, i5 as int, ser_bool(can_ping), ser_bool(cv.can_ping));
                lemma_un_bool(can_ping, cv.can_ping, chars@.skip(i5 + ser_bool(can_ping).len()), chars@.skip(i5 + ser_bool(cv.can_ping).len()));
                }
            }
            return Option::None;
        },
    };
    let c = CustodianRecord { address, role, can_ping };
    proof {
        reveal_strlit("{\n\"address\": ");
        let s = chars@;
        let a1 = "{\n\"address\": "@ + quoted(c@.address);
        lemma_is_at_concat(s, i as int, "{\n\"address\": "@, quoted(c@.address));
        let a2 = a1 + ",\n\"role\": "@;
        lemma_is_at_concat(s, i as int, a1, ",\n\"role\": "@);
        let a3 = a2 + quoted(c@.role.label_spec());
        lemma_is_at_concat(s, i as int, a2, quoted(c@.role.label_spec()));
        let a4 = a3 + ",\n\"can_ping\": "@;
        lemma_is_at_concat(s, i as int, a3, ",\n\"can_ping\": "@);
        let a5 = a4 + ser_bool(c@.can_ping);
        lemma_is_at_concat(s, i as int, a4, ser_bool(c@.can_ping));
        let a6 = a5 + "\n}"@;
        lemma_is_at_concat(s, i as int, a5, "\n}"@);
        assert(a6 =~= ser_custodian(c@));
        assert(i7 - i == ser_custodian(c@).len());
    }
    Option::Some((c, i7))
}

/// The views of a sequence of custodian records.
pub open spec fn cust_views(v: Seq<CustodianRecord>) -> Seq<CustodianView> {
    Seq::new(v.len(), |i: int| v[i]@)
}

/// The views of a sequence of key records.
pub open spec fn rec_views(v: Seq<KeyRecord>) -> Seq<KeyRecordView> {
    Seq::new(v.len(), |i: int| v[i]@)
}

/// Consumes the rest of a custodian list, through its closing bracket.
/// A custodian-list tail occurs at `i`, every address storable.
pub open spec fn cust_tail_at(s: Seq<char>, i: int, cs: Seq<CustodianView>) -> bool {
    crate::json::custs_plain(cs) && is_at(s, i, ser_cust_tail(cs))
}

#[verifier::rlimit(100)]
#[verifier::spinoff_prover]
fn parse_cust_tail(chars: &Vec<char>, i: usize) -> (r: Option<(Vec<CustodianRecord>, usize)>)
    requires
        i <= chars@.len(),
    ensures
        r matches Some((v, j)) ==> {
            &&& is_at(chars@, i as int, ser_cust_tail(cust_views(v@)))
            &&& j == i + ser_cust_tail(cust_views(v@)).len()
            &&& i < j <= chars@.len()
            &&& custs_plain(cust_views(v@))
        },
        forall|cs: Seq<CustodianView>| #[trigger] cust_tail_at(chars@, i as int, cs) ==> r
            is Some,
    decreases chars@.len() - i,
{
    proof {
        reveal_strlit("]");
        reveal_strlit(",\n");
        reveal_strlit("{\n\"address\": ");
    }
    let n = chars.len();
    if i < n && chars[i] == ']' {
        let v: Vec<CustodianRecord> = Vec::new();
        proof {
            assert(cust_views(v@) =~= Seq::<CustodianView>::empty());
            assert(chars@.subrange(i as int, i as int + 1) =~= "]"@);
        }
        return Option::Some((v, i + 1));
    }
    proof {
        assert forall|cs: Seq<CustodianView>|
            #[trigger] cust_tail_at(chars@, i as int, cs) implies cs.len() > 0 && is_at(
            chars@,
            i as int,
            ",\n"@,
        ) && is_at(
            chars@,
            i as int + ",\n"@.len(),
            ser_custodian(cs[0]),
        ) && custodian_at(chars@, i as int + ",\n"@.len(), cs[0]) by {
            if cs.len() == 0 {
                assert(chars@.subrange(i as int, i as int + 1)[0] == ']');
                assert(false);
            } else {
                assert(ser_cust_tail(cs) == ",\n"@ + (ser_custodian(cs[0]) + ser_cust_tail(
                    cs.drop_first(),
                )));
                lemma_is_at_split(
                    chars@,
                    i as int,
                    ",\n"@,
                    ser_custodian(cs[0]) + ser_cust_tail(cs.drop_first()),
                );
                lemma_is_at_split(
                    chars@,
                    i as int + ",\n"@.len(),
                    ser_custodian(cs[0]),
                    ser_cust_tail(cs.drop_first()),
                );
            }
        }
    }
    let i1 = match expect_lit(chars, i, ",\n") {
        Option::Some(j) => j,
        Option::None => {
            return Option::None;
        },
    };
    let (c, i2) = match parse_custodian(chars, i1) {
        Option::Some(p) => p,
        Option::None => {
            return Option::None;
        },
    };
    proof {
        assert forall|cs: Seq<CustodianView>|
            #[trigger] cust_tail_at(chars@, i as int, cs) implies cust_tail_at(
            chars@,
            i2 as int,
            cs.drop_first(),
        ) by {
            lemma_is_at_split(
                chars@,
                i as int,
                ",\n"@,
                ser_custodian(cs[0]) + ser_cust_tail(cs.drop_first()),
            );
            lemma_is_at_split(
                chars@,
                i1 as int,
                ser_custodian(cs[0]),
                ser_cust_tail(cs.drop_first()),
            );
            lemma_prefixes(chars@, i1 as int, ser_custodian(c@), ser_custodian(cs[0]));
            lemma_un_custodian(
                c@,
                cs[0],
                chars@.skip(i1 + ser_custodian(c@).len()),
                chars@.skip(i1 + ser_custodian(cs[0]).len()),
            );
            assert(forall|t: int|
                0 <= t < cs.drop_first().len() ==> cs.drop_first()[t] == cs[t + 1]);
        }
    }
    let (mut rest, i3) = match parse_cust_tail(chars, i2) {
        Option::Some(p) => p,
        Option::None => {
            return Option::None;
        },
    };
    let ghost rest_views = cust_views(rest@);
    rest.insert(0, c);
    proof {
        let s = chars@;
        assert(cust_views(rest@) =~= seq![c@] + rest_views);
        let vs = cust_views(rest@);
        assert(vs[0] == c@);
        assert(vs.drop_first() =~= rest_views);
        let a1 = ",\n"@ + ser_custodian(c@);
        lemma_is_at_concat(s, i as int, ",\n"@, ser_custodian(c@));
        let a2 = a1 + ser_cust_tail(rest_views);
        lemma_is_at_concat(s, i as int, a1, ser_cust_tail(rest_views));
        assert(a2 =~= ser_cust_tail(vs));
        assert forall|t: int| 0 <= t < vs.len() implies plain_str(#[trigger] vs[t].address) by {
            if t > 0 {
                assert(vs[t] == rest_views[t - 1]);
            }
        }
    }
    Option::Some((rest, i3))
}

/// Consumes a full custodian list after its opening bracket.
/// A custodian list occurs at `i`, every address storable.
pub open spec fn cust_list_at(s: Seq<char>, i: int, cs: Seq<CustodianView>) -> bool {
    crate::json::custs_plain(cs) && is_at(s, i, ser_cust_first(cs))
}

#[verifier::rlimit(100)]
#[verifier::spinoff_prover]
fn parse_cust_list(chars: &Vec<char>, i: usize) -> (r: Option<(Vec<CustodianRecord>, usize)>)
    requires
        i <= chars@.len(),
    ensures
        r matches Some((v, j)) ==> {
            &&& is_at(chars@, i as int, ser_cust_first(cust_views(v@)))
            &&& j == i + ser_cust_first(cust_views(v@)).len()
            &&& i < j <= chars@.len()
            &&& custs_plain(cust_views(v@))
        },
        forall|cs: Seq<CustodianView>| #[trigger] cust_list_at(chars@, i as int, cs) ==> r
            is Some,
{
    proof {
        reveal_strlit("]");
        reveal_strlit("{\n\"address\": ");
    }
    let n = chars.len();
    if i < n && chars[i] == ']' {
        let v: Vec<CustodianRecord> = Vec::new();
        proof {
            assert(cust_views(v@) =~= Seq::<CustodianView>::empty());
            assert(chars@.subrange(i as int, i as int + 1) =~= "]"@);
        }
        return Option::Some((v, i + 1));
    }
    proof {
        assert forall|cs: Seq<CustodianView>|
            #[trigger] cust_list_at(chars@, i as int, cs) implies cs.len() > 0 && custodian_at(
            chars@,
            i as int,
            cs[0],
        ) by {
            if cs.len() == 0 {
                assert(chars@.subrange(i as int, i as int + 1)[0] == ']');
                assert(false);
            } else {
                lemma_is_at_split(
                    chars@,
                    i as int,
                    ser_custodian(cs[0]),
                    ser_cust_tail(cs.drop_first()),
                );
            }
        }
    }
    let (c, i1) = match parse_custodian(chars, i) {
        Option::Some(p) => p,
        Option::None => {
            return Option::None;
        },
    };
    proof {
        assert forall|cs: Seq<CustodianView>|
            #[trigger] cust_list_at(chars@, i as int, cs) implies cust_tail_at(
            chars@,
            i1 as int,
            cs.drop_first(),
        ) by {
            lemma_is_at_split(
                chars@,
                i as int,
                ser_custodian(cs[0]),
                ser_cust_tail(cs.drop_first()),
            );
            lemma_prefixes(chars@, i as int, ser_custodian(c@), ser_custodian(cs[0]));
            lemma_un_custodian(
                c@,
                cs[0],
                chars@.skip(i + ser_custodian(c@).len()),
                chars@.skip(i + ser_custodian(cs[0]).len()),
            );
            assert(forall|t: int|
                0 <= t < cs.drop_first().len() ==> cs.drop_first()[t] == cs[t + 1]);
        }
    }
    let (mut rest, i2) = match parse_cust_tail(chars, i1) {
        Option::Some(p) => p,
        Option::None => {
            return Option::None;
        },
    };
    let ghost rest_views = cust_views(rest@);
    rest.insert(0, c);
    proof {
        let s = chars@;
        assert(cust_views(rest@) =~= seq![c@] + rest_views);
        let vs = cust_views(rest@);
        assert(vs[0] == c@);
        assert(vs.drop_first() =~= rest_views);
        lemma_is_at_concat(s, i as int, ser_custodian(c@), ser_cust_tail(rest_views));
        assert(ser_custodian(c@) + ser_cust_tail(rest_views) =~= ser_cust_first(vs));
        assert forall|t: int| 0 <= t < vs.len() implies plain_str(#[trigger] vs[t].address) by {
            if t > 0 {
                assert(vs[t] == rest_views[t - 1]);
            }
        }
    }
    Option::Some((rest, i2))
}

/// A record occurs at `i`, its strings storable.
pub open spec fn record_at_pos(s: Seq<char>, i: int, r: KeyRecordView) -> bool {
    record_plain(r) && is_at(s, i, ser_record(r))
}

/// The rendering of a record, split at each component boundary.
#[verifier::rlimit(100)]
#[verifier::spinoff_prover]
proof fn lemma_record_layout(s: Seq<char>, i: int, r: KeyRecordView)
    requires
        record_at_pos(s, i, r),
    ensures
        ({
            let p1 = i;
            let p2 = p1 + "{\n\"key_id\": "@.len();
            let p3 = p2 + quoted(r.key_id).len();
            let p4 = p3 + ",\n\"contract_address\": "@.len();
            let p5 = p4 + quoted(r.contract_address).len();
            let p6 = p5 + ",\n\"private_key_path\": "@.len();
            let p7 = p6 + quoted(r.private_key_path).len();
            let p8 = p7 + ",\n\"owner\": "@.len();
            let p9 = p8 + quoted(r.owner).len();
            let p10 = p9 + ",\n\"network\": "@.len();
            let p11 = p10 + ser_opt_str(r.network).len();
            let p12 = p11 + ",\n\"rpc_url\": "@.len();
            let p13 = p12 + quoted(r.rpc_url).len();
            let p14 = p13 + ",\n\"timeout\": "@.len();
            let p15 = p14 + dec_digits(r.timeout as nat).len();
            let p16 = p15 + ",\n\"data\": "@.len();
            let p17 = p16 + ser_opt_str(r.data).len();
            let p18 = p17 + ",\n\"last_ping_timestamp\": "@.len();
            let p19 = p18 + ser_opt_u64(r.last_ping_timestamp).len();
            let p20 = p19 + ",\n\"custodians\": ["@.len();
            let p21 = p20 + ser_cust_first(r.custodians).len();
            &&& is_at(s, p1, "{\n\"key_id\": "@)
            &&& is_at(s, p2, quoted(r.key_id))
            &&& is_at(s, p3, ",\n\"contract_address\": "@)
            &&& is_at(s, p4, quoted(r.contract_address))
            &&& is_at(s, p5, ",\n\"private_key_path\": "@)
            &&& is_at(s, p6, quoted(r.private_key_path))
            &&& is_at(s, p7, ",\n\"owner\": "@)
            &&& is_at(s, p8, quoted(r.owner))
            &&& is_at(s, p9, ",\n\"network\": "@)
            &&& is_at(s, p10, ser_opt_str(r.network))
            &&& is_at(s, p11, ",\n\"rpc_url\": "@)
            &&& is_at(s, p12, quoted(r.rpc_url))
            &&& is_at(s, p13, ",\n\"timeout\": "@)
            &&& is_at(s, p14, dec_digits(r.timeout as nat))
            &&& is_at(s, p15, ",\n\"data\": "@)
            &&& is_at(s, p16, ser_opt_str(r.data))
            &&& is_at(s, p17, ",\n\"last_ping_timestamp\": "@)
            &&& is_at(s, p18, ser_opt_u64(r.last_ping_timestamp))
            &&& is_at(s, p19, ",\n\"custodians\": ["@)
            &&& is_at(s, p20, ser_cust_first(r.custodians))
            &&& is_at(s, p21, "\n}"@)
            &&& number_at(s, p14, r.timeout)
            &&& opt_number_at(s, p18, r.last_ping_timestamp)
        }),
{
    let e = Seq::<char>::empty();
    lemma_record_chain(r, e);
    assert(ser_record(r) + e =~= ser_record(r));
    assert(is_at(s, i, record_chain(r, e)));
    let t21 = "\n}"@ + e;
    let t20 = ser_cust_first(r.custodians) + t21;
    let t19 = ",\n\"custodians\": ["@ + t20;
    let t18 = ser_opt_u64(r.last_ping_timestamp) + t19;
    let t17 = ",\n\"last_ping_timestamp\": "@ + t18;
    let t16 = ser_opt_str(r.data) + t17;
    let t15 = ",\n\"data\": "@ + t16;
    let t14 = dec_digits(r.timeout as nat) + t15;
    let t13 = ",\n\"timeout\": "@ + t14;
    let t12 = quoted(r.rpc_url) + t13;
    let t11 = ",\n\"rpc_url\": "@ + t12;
    let t10 = ser_opt_str(r.network) + t11;
    let t9 = ",\n\"network\": "@ + t10;
    let t8 = quoted(r.owner) + t9;
    let t7 = ",\n\"owner\": "@ + t8;
    let t6 = quoted(r.private_key_path) + t7;
    let t5 = ",\n\"private_key_path\": "@ + t6;
    let t4 = quoted(r.contract_address) + t5;
    let t3 = ",\n\"contract_address\": "@ + t4;
    let t2 = quoted(r.key_id) + t3;
    assert(record_chain(r, e) == "{\n\"key_id\": "@ + t2);
    let p1 = i;
    lemma_is_at_split(s, p1, "{\n\"key_id\": "@, t2);
    let p2 = p1 + "{\n\"key_id\": "@.len();
    lemma_is_at_split(s, p2, quoted(r.key_id), t3);
    let p3 = p2 + quoted(r.key_id).len();
    lemma_is_at_split(s, p3, ",\n\"contract_address\": "@, t4);
    let p4 = p3 + ",\n\"contract_address\": "@.len();
    lemma_is_at_split(s, p4, quoted(r.contract_address), t5);
    let p5 = p4 + quoted(r.contract_address).len();
    lemma_is_at_split(s, p5, ",\n\"private_key_path\": "@, t6);
    let p6 = p5 + ",\n\"private_key_path\": "@.len();
    lemma_is_at_split(s, p6, quoted(r.private_key_path), t7);
    let p7 = p6 + quoted(r.private_key_path).len();
    lemma_is_at_split(s, p7, ",\n\"owner\": "@, t8);
    let p8 = p7 + ",\n\"owner\": "@.len();
    lemma_is_at_split(s, p8, quoted(r.owner), t9);
    let p9 = p8 + quoted(r.owner).len();
    lemma_is_at_split(s, p9, ",\n\"network\": "@, t10);
    let p10 = p9 + ",\n\"network\": "@.len();
    lemma_is_at_split(s, p10, ser_opt_str(r.network), t11);
    let p11 = p10 + ser_opt_str(r.network).len();
    lemma_is_at_split(s, p11, ",\n\"rpc_url\": "@, t12);
    let p12 = p11 + ",\n\"rpc_url\": "@.len();
    lemma_is_at_split(s, p12, quoted(r.rpc_url), t13);
    let p13 = p12 + quoted(r.rpc_url).len();
    lemma_is_at_split(s, p13, ",\n\"timeout\": "@, t14);
    let p14 = p13 + ",\n\"timeout\": "@.len();
    lemma_is_at_split(s, p14, dec_digits(r.timeout as nat), t15);
    let p15 = p14 + dec_digits(r.timeout as nat).len();
    lemma_is_at_split(s, p15, ",\n\"data\": "@, t16);
    let p16 = p15 + ",\n\"data\": "@.len();
    lemma_is_at_split(s, p16, ser_opt_str(r.data), t17);
    let p17 = p16 + ser_opt_str(r.data).len();
    lemma_is_at_split(s, p17, ",\n\"last_ping_timestamp\": "@, t18);
    let p18 = p17 + ",\n\"last_ping_timestamp\": "@.len();
    lemma_is_at_split(s, p18, ser_opt_u64(r.last_ping_timestamp), t19);
    let p19 = p18 + ser_opt_u64(r.last_ping_timestamp).len();
    lemma_is_at_split(s, p19, ",\n\"custodians\": ["@, t20);
    let p20 = p19 + ",\n\"custodians\": ["@.len();
    lemma_is_at_split(s, p20, ser_cust_first(r.custodians), t21);
    let p21 = p20 + ser_cust_first(r.custodians).len();
    assert(t21 =~= "\n}"@);
    assert(is_at(s, p21, "\n}"@));
    reveal_strlit(",\n\"data\": ");
    reveal_strlit(",\n\"custodians\": [");
    assert(s.subrange(p15, p15 + ",\n\"data\": "@.len())[0] == ',');
    assert(s[p15] == ',');
    assert(',' as int == 44);
    assert(number_at(s, p14, r.timeout));
    match r.last_ping_timestamp {
        Option::Some(v) => {
            assert(s.subrange(p19, p19 + ",\n\"custodians\": ["@.len())[0] == ',');
            assert(s[p19] == ',');
            assert(number_at(s, p18, v));
        },
        Option::None => {},
    }
}

/// The rendering of a record from its timeout field on, split at each
/// component boundary; positions are relative to the record's start.
#[verifier::rlimit(100)]
#[verifier::spinoff_prover]
proof fn lemma_record_tail_layout(s: Seq<char>, i: int, r: KeyRecordView)
    requires
        record_at_pos(s, i, r),
    ensures
        ({
            let p13 = i + ser_record_front(
                r.key_id,
                r.contract_address,
                r.private_key_path,
                r.owner,
                r.network,
                r.rpc_url,
            ).len();
            let p14 = p13 + ",\n\"timeout\": "@.len();
            let p15 = p14 + dec_digits(r.timeout as nat).len();
            let p16 = p15 + ",\n\"data\": "@.len();
            let p17 = p16 + ser_opt_str(r.data).len();
            let p18 = p17 + ",\n\"last_ping_timestamp\": "@.len();
            let p19 = p18 + ser_opt_u64(r.last_ping_timestamp).len();
            let p20 = p19 + ",\n\"custodians\": ["@.len();
            let p21 = p20 + ser_cust_first(r.custodians).len();
            &&& is_at(s, p13, ",\n\"timeout\": "@)
            &&& is_at(s, p14, dec_digits(r.timeout as nat))
            &&& is_at(s, p15, ",\n\"data\": "@)
            &&& is_at(s, p16, ser_opt_str(r.data))
            &&& is_at(s, p17, ",\n\"last_ping_timestamp\": "@)
            &&& is_at(s, p18, ser_opt_u64(r.last_ping_timestamp))
            &&& is_at(s, p19, ",\n\"custodians\": ["@)
            &&& is_at(s, p20, ser_cust_first(r.custodians))
            &&& is_at(s, p21, "\n}"@)
            &&& number_at(s, p14, r.timeout)
            &&& opt_number_at(s, p18, r.last_ping_timestamp)
        }),
{
    lemma_record_layout(s, i, r);
    assert(ser_record_front(
        r.key_id,
        r.contract_address,
        r.private_key_path,
        r.owner,
        r.network,
        r.rpc_url,
    ).len() == "{\n\"key_id\": "@.len() + quoted(r.key_id).len()
        + ",\n\"contract_address\": "@.len() + quoted(r.contract_address).len()
        + ",\n\"private_key_path\": "@.len() + quoted(r.private_key_path).len()
        + ",\n\"owner\": "@.len() + quoted(r.owner).len() + ",\n\"network\": "@.len()
        + ser_opt_str(r.network).len() + ",\n\"rpc_url\": "@.len() + quoted(r.rpc_url).len());
}

/// The rendering of a record's first six fields.
pub open spec fn ser_record_front(
    kid: Seq<char>,
    ca: Seq<char>,
    pkp: Seq<char>,
    ow: Seq<char>,
    net: Option<Seq<char>>,
    rpc: Seq<char>,
) -> Seq<char> {
    "{\n\"key_id\": "@ + quoted(kid) + ",\n\"contract_address\": "@ + quoted(ca)
        + ",\n\"private_key_path\": "@ + quoted(pkp) + ",\n\"owner\": "@ + quoted(ow)
        + ",\n\"network\": "@ + ser_opt_str(net) + ",\n\"rpc_url\": "@ + quoted(rpc)
}

/// Consumes a record's fields through `rpc_url`.  On text that holds a
/// whole record, the fields read are exactly that record's.
#[verifier::rlimit(100)]
#[verifier::spinoff_prover]
fn parse_record_front(chars: &Vec<char>, i: usize) -> (r: Option<
    (String, String, String, String, Option<String>, String, usize),
>)
    requires
        i <= chars@.len(),
    ensures
        r matches Some((kid, ca, pkp, ow, net, rpc, j)) ==> {
            &&& is_at(chars@, i as int, ser_record_front(kid@, ca@, pkp@, ow@, opt_view(net), rpc@))
            &&& j == i + ser_record_front(kid@, ca@, pkp@, ow@, opt_view(net), rpc@).len()
            &&& i < j <= chars@.len()
            &&& plain_str(kid@) && plain_str(ca@) && plain_str(pkp@) && plain_str(ow@)
                && plain_str(rpc@)
            &&& (net matches Some(nv) ==> plain_str(nv@))
        },
        forall|rv: KeyRecordView|
            #[trigger] record_at_pos(chars@, i as int, rv) ==> match r {
                Option::Some((kid, ca, pkp, ow, net, rpc, j)) => {
                    &&& kid@ == rv.key_id
                    &&& ca@ == rv.contract_address
                    &&& pkp@ == rv.private_key_path
                    &&& ow@ == rv.owner
                    &&& opt_view(net) == rv.network
                    &&& rpc@ == rv.rpc_url
                },
                Option::None => false,
            },
{
    proof {
        reveal_strlit("{\n\"key_id\": ");
    }
    let i1 = match expect_lit(chars, i, "{\n\"key_id\": ") {
        Option::Some(j) => j,
        Option::None => {
            proof {
                assert forall|rv: KeyRecordView|
                    #[trigger] record_at_pos(chars@, i as int, rv) implies false by {
                    lemma_record_layout(chars@, i as int, rv);
                }
            }
            return Option::None;
        },
    };
    let (key_id, i2) = match parse_quoted(chars, i1) {
        Option::Some(p) => p,
        Option::None => {
            proof {
                assert forall|rv: KeyRecordView|
                    #[trigger] record_at_pos(chars@, i as int, rv) implies false by {
                    lemma_record_layout(chars@, i as int, rv);
                }
            }
            return Option::None;
        },
    };
    let i3 = match expect_lit(chars, i2, ",\n\"contract_address\": ") {
        Option::Some(j) => j,
        Option::None => {
            proof {
                assert forall|rv: KeyRecordView|
                    #[trigger] record_at_pos(chars@, i as int, rv) implies false by {
                    lemma_record_layout(chars@, i as int, rv);
                    lemma_prefixes(chars@, i1 as int, quoted(key_id@), quoted(rv.key_id));
                    lemma_unquote(key_id@, rv.key_id, chars@.skip(i1 + quoted(key_id@).len()), chars@.skip(i1 + quoted(rv.key_id).len()));
                }
            }
            return Option::None;
        },
    };
    let (contract_address, i4) = match parse_quoted(chars, i3) {
        Option::Some(p) => p,
        Option::None => {
            proof {
                assert forall|rv: KeyRecordView|
                    #[trigger] record_at_pos(chars@, i as int, rv) implies false by {
                    lemma_record_layout(chars@, i as int, rv);
                    lemma_prefixes(chars@, i1 as int, quoted(key_id@), quoted(rv.key_id));
                    lemma_unquote(key_id@, rv.key_id, chars@.skip(i1 + quoted(key_id@).len()), chars@.skip(i1 + quoted(rv.key_id).len()));
                }
            }
            return Option::None;
        },
    };
    let i5 = match expect_lit(chars, i4, ",\n\"private_key_path\": ") {
        Option::Some(j) => j,
        Option::None => {
            proof {
                assert forall|rv: KeyRecordView|
                    #[trigger] record_at_pos(chars@, i as int, rv) implies false by {
                    lemma_record_layout(chars@, i as int, rv);
                    lemma_prefixes(chars@, i1 as int, quoted(key_id@), quoted(rv.key_id));
                    lemma_unquote(key_id@, rv.key_id, chars@.skip(i1 + quoted(key_id@).len()), chars@.skip(i1 + quoted(rv.key_id).len()));
                    lemma_prefixes(chars@, i3 as int, quoted(contract_address@), quoted(rv.contract_address));
                    lemma_unquote(contract_address@, rv.contract_address, chars@.skip(i3 + quoted(contract_address@).len()), chars@.skip(i3 + quoted(rv.contract_address).len()));
                }
            }
            return Option::None;
        },
    };
    let (private_key_path, i6) = match parse_quoted(chars, i5) {
        Option::Some(p) => p,
        Option::None => {
            proof {
                assert forall|rv: KeyRecordView|
                    #[trigger] record_at_pos(chars@, i as int, rv) implies false by {
                    lemma_record_layout(chars@, i as int, rv);
                    lemma_prefixes(chars@, i1 as int, quoted(key_id@), quoted(rv.key_id));
                    lemma_unquote(key_id@, rv.key_id, chars@.skip(i1 + quoted(key_id@).len()), chars@.skip(i1 + quoted(rv.key_id).len()));
                    lemma_prefixes(chars@, i3 as int, quoted(contract_address@), quoted(rv.contract_address));
                    lemma_unquote(contract_address@, rv.contract_address, chars@.skip(i3 + quoted(contract_address@).len()), chars@.skip(i3 + quoted(rv.contract_address).len()));
                }
            }
            return Option::None;
        },
    };
    let i7 = match expect_lit(chars, i6, ",\n\"owner\": ") {
        Option::Some(j) => j,
        Option::None => {
            proof {
                assert forall|rv: KeyRecordView|
                    #[trigger] record_at_pos(chars@, i as int, rv) implies false by {
                    lemma_record_layout(chars@, i as int, rv);
                    lemma_prefixes(chars@, i1 as int, quoted(key_id@), quoted(rv.key_id));
                    lemma_unquote(key_id@, rv.key_id, chars@.skip(i1 + quoted(key_id@).len()), chars@.skip(i1 + quoted(rv.key_id).len()));
                    lemma_prefixes(chars@, i3 as int, quoted(contract_address@), quoted(rv.contract_address));
                    lemma_unquote(contract_address@, rv.contract_address, chars@.skip(i3 + quoted(contract_address@).len()), chars@.skip(i3 + quoted(rv.contract_address).len()));
                    lemma_prefixes(chars@, i5 as int, quoted(private_key_path@), quoted(rv.private_key_path));
                    lemma_unquote(private_key_path@, rv.private_key_path, chars@.skip(i5 + quoted(private_key_path@).len()), chars@.skip(i5 + quoted(rv.private_key_path).len()));
                }
            }
            return Option::None;
        },
    };
    let (owner, i8) = match parse_quoted(chars, i7) {
        Option::Some(p) => p,
        Option::None => {
            proof {
                assert forall|rv: KeyRecordView|
                    #[trigger] record_at_pos(chars@, i as int, rv) implies false by {
                    lemma_record_layout(chars@, i as int, rv);
                    lemma_prefixes(chars@, i1 as int, quoted(key_id@), quoted(rv.key_id));
                    lemma_unquote(key_id@, rv.key_id, chars@.skip(i1 + quoted(key_id@).len()), chars@.skip(i1 + quoted(rv.key_id).len()));
                    lemma_prefixes(chars@, i3 as int, quoted(contract_address@), quoted(rv.contract_address));
                    lemma_unquote(contract_address@, rv.contract_address, chars@.skip(i3 + quoted(contract_address@).len()), chars@.skip(i3 + quoted(rv.contract_address).len()));
                    lemma_prefixes(chars@, i5 as int, quoted(private_key_path@), quoted(rv.private_key_path));
                    lemma_unquote(private_key_path@, rv.private_key_path, chars@.skip(i5 + quoted(private_key_path@).len()), chars@.skip(i5 + quoted(rv.private_key_path).len()));
                }
            }
            return Option::None;
        },
    };
    let i9 = match expect_lit(chars, i8, ",\n\"network\": ") {
        Option::Some(j) => j,
        Option::None => {
            proof {
                assert forall|rv: KeyRecordView|
                    #[trigger] record_at_pos(chars@, i as int, rv) implies false by {
                    lemma_record_layout(chars@, i as int, rv);
                    lemma_prefixes(chars@, i1 as int, quoted(key_id@), quoted(rv.key_id));
                    lemma_unquote(key_id@, rv.key_id, chars@.skip(i1 + quoted(key_id@).len()), chars@.skip(i1 + quoted(rv.key_id).len()));
                    lemma_prefixes(chars@, i3 as int, quoted(contract_address@), quoted(rv.contract_address));
                    lemma_unquote(contract_address@, rv.contract_address, chars@.skip(i3 + quoted(contract_address@).len()), chars@.skip(i3 + quoted(rv.contract_address).len()));
                    lemma_prefixes(chars@, i5 as int, quoted(private_key_path@), quoted(rv.private_key_path));
                    lemma_unquote(private_key_path@, rv.private_key_path, chars@.skip(i5 + quoted(private_key_path@).len()), chars@.skip(i5 + quoted(rv.private_key_path).len()));
                    lemma_prefixes(chars@, i7 as int, quoted(owner@), quoted(rv.owner));
                    lemma_unquote(owner@, rv.owner, chars@.skip(i7 + quoted(owner@).len()), chars@.skip(i7 + quoted(rv.owner).len()));
                }
            }
            return Option::None;
        },
    };
    let (network, i10) = match parse_opt_string(chars, i9) {
        Option::Some(p) => p,
        Option::None => {
            proof {
                assert forall|rv: KeyRecordView|
                    #[trigger] record_at_pos(chars@, i as int, rv) implies false by {
                    lemma_record_layout(chars@, i as int, rv);
                    lemma_prefixes(chars@, i1 as int, quoted(key_id@), quoted(rv.key_id));
                    lemma_unquote(key_id@, rv.key_id, chars@.skip(i1 + quoted(key_id@).len()), chars@.skip(i1 + quoted(rv.key_id).len()));
                    lemma_prefixes(chars@, i3 as int, quoted(contract_address@), quoted(rv.contract_address));
                    lemma_unquote(contract_address@, rv.contract_address, chars@.skip(i3 + quoted(contract_address@).len()), chars@.skip(i3 + quoted(rv.contract_address).len()));
                    lemma_prefixes(chars@, i5 as int, quoted(private_key_path@), quoted(rv.private_key_path));
                    lemma_unquote(private_key_path@, rv.private_key_path, chars@.skip(i5 + quoted(private_key_path@).len()), chars@.skip(i5 + quoted(rv.private_key_path).len()));
                    lemma_prefixes(chars@, i7 as int, quoted(owner@), quoted(rv.owner));
                    lemma_unquote(owner@, rv.owner, chars@.skip(i7 + quoted(owner@).len()), chars@.skip(i7 + quoted(rv.owner).len()));
                }
            }
            return Option::None;
        },
    };
    let i11 = match expect_lit(chars, i10, ",\n\"rpc_url\": ") {
        Option::Some(j) => j,
        Option::None => {
            proof {
                assert forall|rv: KeyRecordView|
                    #[trigger] record_at_pos(chars@, i as int, rv) implies false by {
                    lemma_record_layout(chars@, i as int, rv);
                    lemma_prefixes(chars@, i1 as int, quoted(key_id@), quoted(rv.key_id));
                    lemma_unquote(key_id@, rv.key_id, chars@.skip(i1 + quoted(key_id@).len()), chars@.skip(i1 + quoted(rv.key_id).len()));
                    lemma_prefixes(chars@, i3 as int, quoted(contract_address@), quoted(rv.contract_address));
                    lemma_unquote(contract_address@, rv.contract_address, chars@.skip(i3 + quoted(contract_address@).len()), chars@.skip(i3 + quoted(rv.contract_address).len()));
                    lemma_prefixes(chars@, i5 as int, quoted(private_key_path@), quoted(rv.private_key_path));
                    lemma_unquote(private_key_path@, rv.private_key_path, chars@.skip(i5 + quoted(private_key_path@).len()), chars@.skip(i5 + quoted(rv.private_key_path).len()));
                    lemma_prefixes(chars@, i7 as int, quoted(owner@), quoted(rv.owner));
                    lemma_unquote(owner@, rv.owner, chars@.skip(i7 + quoted(owner@).len()), chars@.skip(i7 + quoted(rv.owner).len()));
                    lemma_prefixes(chars@, i9 as int, ser_opt_str(opt_view(network)), ser_opt_str(rv.network));
                    lemma_un_opt_str(opt_view(network), rv.network, chars@.skip(i9 + ser_opt_str(opt_view(network)).len()), chars@.skip(i9 + ser_opt_str(rv.network).len()));
                }
            }
            return Option::None;
        },
    };
    let (rpc_url, i12) = match parse_quoted(chars, i11) {
        Option::Some(p) => p,
        Option::None => {
            proof {
                assert forall|rv: KeyRecordView|
                    #[trigger] record_at_pos(chars@, i as int, rv) implies false by {
                    lemma_record_layout(chars@, i as int, rv);
                    lemma_prefixes(chars@, i1 as int, quoted(key_id@), quoted(rv.key_id));
                    lemma_unquote(key_id@, rv.key_id, chars@.skip(i1 + quoted(key_id@).len()), chars@.skip(i1 + quoted(rv.key_id).len()));
                    lemma_prefixes(chars@, i3 as int, quoted(contract_address@), quoted(rv.contract_address));
                    lemma_unquote(contract_address@, rv.contract_address, chars@.skip(i3 + quoted(contract_address@).len()), chars@.skip(i3 + quoted(rv.contract_address).len()));
                    lemma_prefixes(chars@, i5 as int, quoted(private_key_path@), quoted(rv.private_key_path));
                    lemma_unquote(private_key_path@, rv.private_key_path, chars@.skip(i5 + quoted(private_key_path@).len()), chars@.skip(i5 + quoted(rv.private_key_path).len()));
                    lemma_prefixes(chars@, i7 as int, quoted(owner@), quoted(rv.owner));
                    lemma_unquote(owner@, rv.owner, chars@.skip(i7 + quoted(owner@).len()), chars@.skip(i7 + quoted(rv.owner).len()));
                    lemma_prefixes(chars@, i9 as int, ser_opt_str(opt_view(network)), ser_opt_str(rv.network));
                    lemma_un_opt_str(opt_view(network), rv.network, chars@.skip(i9 + ser_opt_str(opt_view(network)).len()), chars@.skip(i9 + ser_opt_str(rv.network).len()));
                }
            }
            return Option::None;
        },
    };
    proof {
        let s = chars@;
        assert forall|rv: KeyRecordView|
            #[trigger] record_at_pos(chars@, i as int, rv) implies {
            &&& key_id@ == rv.key_id
            &&& contract_address@ == rv.contract_address
            &&& private_key_path@ == rv.private_key_path
            &&& owner@ == rv.owner
            &&& opt_view(network) == rv.network
            &&& rpc_url@ == rv.rpc_url
        } by {
            lemma_record_layout(chars@, i as int, rv);
            lemma_prefixes(chars@, i1 as int, quoted(key_id@), quoted(rv.key_id));
            lemma_unquote(key_id@, rv.key_id, chars@.skip(i1 + quoted(key_id@).len()), chars@.skip(i1 + quoted(rv.key_id).len()));
            lemma_prefixes(chars@, i3 as int, quoted(contract_address@), quoted(rv.contract_address));
            lemma_unquote(contract_address@, rv.contract_address, chars@.skip(i3 + quoted(contract_address@).len()), chars@.skip(i3 + quoted(rv.contract_address).len()));
            lemma_prefixes(chars@, i5 as int, quoted(private_key_path@), quoted(rv.private_key_path));
            lemma_unquote(private_key_path@, rv.private_key_path, chars@.skip(i5 + quoted(private_key_path@).len()), chars@.skip(i5 + quoted(rv.private_key_path).len()));
            lemma_prefixes(chars@, i7 as int, quoted(owner@), quoted(rv.owner));
            lemma_unquote(owner@, rv.owner, chars@.skip(i7 + quoted(owner@).len()), chars@.skip(i7 + quoted(rv.owner).len()));
            lemma_prefixes(chars@, i9 as int, ser_opt_str(opt_view(network)), ser_opt_str(rv.network));
            lemma_un_opt_str(opt_view(network), rv.network, chars@.skip(i9 + ser_opt_str(opt_view(network)).len()), chars@.skip(i9 + ser_opt_str(rv.network).len()));
            lemma_prefixes(chars@, i11 as int, quoted(rpc_url@), quoted(rv.rpc_url));
            lemma_unquote(rpc_url@, rv.rpc_url, chars@.skip(i11 + quoted(rpc_url@).len()), chars@.skip(i11 + quoted(rv.rpc_url).len()));
        }
        let a1 = "{\n\"key_id\": "@ + quoted(key_id@);
        lemma_is_at_concat(s, i as int, "{\n\"key_id\": "@, quoted(key_id@));
        let a2 = a1 + ",\n\"contract_address\": "@;
        lemma_is_at_concat(s, i as int, a1, ",\n\"contract_address\": "@);
        let a3 = a2 + quoted(contract_address@);
        lemma_is_at_concat(s, i as int, a2, quoted(contract_address@));
        let a4 = a3 + ",\n\"private_key_path\": "@;
        lemma_is_at_concat(s, i as int, a3, ",\n\"private_key_path\": "@);
        let a5 = a4 + quoted(private_key_path@);
        lemma_is_at_concat(s, i as int, a4, quoted(private_key_path@));
        let a6 = a5 + ",\n\"owner\": "@;
        lemma_is_at_concat(s, i as int, a5, ",\n\"owner\": "@);
        let a7 = a6 + quoted(owner@);
        lemma_is_at_concat(s, i as int, a6, quoted(owner@));
        let a8 = a7 + ",\n\"network\": "@;
        lemma_is_at_concat(s, i as int, a7, ",\n\"network\": "@);
        let a9 = a8 + ser_opt_str(opt_view(network));
        lemma_is_at_concat(s, i as int, a8, ser_opt_str(opt_view(network)));
        let a10 = a9 + ",\n\"rpc_url\": "@;
        lemma_is_at_concat(s, i as int, a9, ",\n\"rpc_url\": "@);
        let a11 = a10 + quoted(rpc_url@);
        lemma_is_at_concat(s, i as int, a10, quoted(rpc_url@));
        assert(a11 =~= ser_record_front(
            key_id@,
            contract_address@,
            private_key_path@,
            owner@,
            opt_view(network),
            rpc_url@,
        ));
    }
    Option::Some((key_id, contract_address, private_key_path, owner, network, rpc_url, i12))
}

/// Consumes one key record object.
#[verifier::rlimit(100)]
#[verifier::spinoff_prover]
fn parse_record(chars: &Vec<char>, i: usize) -> (r: Option<(KeyRecord, usize)>)
    requires
        i <= chars@.len(),
    ensures
        r matches Some((rec, j)) ==> {
            &&& is_at(chars@, i as int, ser_record(rec@))
            &&& j == i + ser_record(rec@).len()
            &&& i < j <= chars@.len()
            &&& record_plain(rec@)
        },
        forall|rv: KeyRecordView| #[trigger] record_at_pos(chars@, i as int, rv) ==> r is Some,
{
    let (key_id, contract_address, private_key_path, owner, network, rpc_url, i12) =
        match parse_record_front(chars, i) {
        Option::Some(t) => t,
        Option::None => {
            return Option::None;
        },
    };
    let i13 = match expect_lit(chars, i12, ",\n\"timeout\": ") {
        Option::Some(j) => j,
        Option::None => {
            proof {
                assert forall|rv: KeyRecordView|
                    #[trigger] record_at_pos(chars@, i as int, rv) implies false by {
                    lemma_record_tail_layout(chars@, i as int, rv);
                }
            }
            return Option::None;
        },
    };
    let (timeout, i14) = match parse_number(chars, i13) {
        Option::Some(p) => p,
        Option::None => {
            proof {
                assert forall|rv: KeyRecordView|
                    #[trigger] record_at_pos(chars@, i as int, rv) implies false by {
                    lemma_record_tail_layout(chars@, i as int, rv);
                    assert(number_at(chars@, i13 as int, rv.timeout));
                }
            }
            return Option::None;
        },
    };
    let i15 = match expect_lit(chars, i14, ",\n\"data\": ") {
        Option::Some(j) => j,
        Option::None => {
            proof {
                assert forall|rv: KeyRecordView|
                    #[trigger] record_at_pos(chars@, i as int, rv) implies false by {
                    lemma_record_tail_layout(chars@, i as int, rv);
                    lemma_align_number(chars@, i13 as int, timeout, rv.timeout);
                }
            }
            return Option::None;
        },
    };
    let (data, i16) = match parse_opt_string(chars, i15) {
        Option::Some(p) => p,
        Option::None => {
            proof {
                assert forall|rv: KeyRecordView|
                    #[trigger] record_at_pos(chars@, i as int, rv) implies false by {
                    lemma_record_tail_layout(chars@, i as int, rv);
                    lemma_align_number(chars@, i13 as int, timeout, rv.timeout);
                }
            }
            return Option::None;
        },
    };
    let i17 = match expect_lit(chars, i16, ",\n\"last_ping_timestamp\": ") {
        Option::Some(j) => j,
        Option::None => {
            proof {
                assert forall|rv: KeyRecordView|
                    #[trigger] record_at_pos(chars@, i as int, rv) implies false by {
                    lemma_record_tail_layout(chars@, i as int, rv);
                    lemma_align_number(chars@, i13 as int, timeout, rv.timeout);
                    lemma_prefixes(chars@, i15 as int, ser_opt_str(opt_view(data)), ser_opt_str(rv.data));
                    lemma_un_opt_str(opt_view(data), rv.data, chars@.skip(i15 + ser_opt_str(opt_view(data)).len()), chars@.skip(i15 + ser_opt_str(rv.data).len()));
                }
            }
            return Option::None;
        },
    };
    let (last_ping_timestamp, i18) = match parse_opt_number(chars, i17) {
        Option::Some(p) => p,
        Option::None => {
            proof {
                assert forall|rv: KeyRecordView|
                    #[trigger] record_at_pos(chars@, i as int, rv) implies false by {
                    lemma_record_tail_layout(chars@, i as int, rv);
                    lemma_align_number(chars@, i13 as int, timeout, rv.timeout);
                    lemma_prefixes(chars@, i15 as int, ser_opt_str(opt_view(data)), ser_opt_str(rv.data));
                    lemma_un_opt_str(opt_view(data), rv.data, chars@.skip(i15 + ser_opt_str(opt_view(data)).len()), chars@.skip(i15 + ser_opt_str(rv.data).len()));
                    assert(opt_number_at(chars@, i17 as int, rv.last_ping_timestamp));
                }
            }
            return Option::None;
        },
    };
    let i19 = match expect_lit(chars, i18, ",\n\"custodians\": [") {
        Option::Some(j) => j,
        Option::None => {
            proof {
                assert forall|rv: KeyRecordView|
                    #[trigger] record_at_pos(chars@, i as int, rv) implies false by {
                    lemma_record_tail_layout(chars@, i as int, rv);
                    lemma_align_number(chars@, i13 as int, timeout, rv.timeout);
                    lemma_prefixes(chars@, i15 as int, ser_opt_str(opt_view(data)), ser_opt_str(rv.data));
                    lemma_un_opt_str(opt_view(data), rv.data, chars@.skip(i15 + ser_opt_str(opt_view(data)).len()), chars@.skip(i15 + ser_opt_str(rv.data).len()));
                    lemma_align_opt_number(chars@, i17 as int, last_ping_timestamp, rv.last_ping_timestamp);
                }
            }
            return Option::None;
        },
    };
    let (custodians, i20) = match parse_cust_list(chars, i19) {
        Option::Some(p) => p,
        Option::None => {
            proof {
                assert forall|rv: KeyRecordView|
                    #[trigger] record_at_pos(chars@, i as int, rv) implies false by {
                    lemma_record_tail_layout(chars@, i as int, rv);
                    lemma_align_number(chars@, i13 as int, timeout, rv.timeout);
                    lemma_prefixes(chars@, i15 as int, ser_opt_str(opt_view(data)), ser_opt_str(rv.data));
                    lemma_un_opt_str(opt_view(data), rv.data, chars@.skip(i15 + ser_opt_str(opt_view(data)).len()), chars@.skip(i15 + ser_opt_str(rv.data).len()));
                    lemma_align_opt_number(chars@, i17 as int, last_ping_timestamp, rv.last_ping_timestamp);
                    assert(cust_list_at(chars@, i19 as int, rv.custodians));
                }
            }
            return Option::None;
        },
    };
    let i21 = match expect_lit(chars, i20, "\n}") {
        Option::Some(j) => j,
        Option::None => {
            proof {
                assert forall|rv: KeyRecordView|
                    #[trigger] record_at_pos(chars@, i as int, rv) implies false by {
                    lemma_record_tail_layout(chars@, i as int, rv);
                    lemma_align_number(chars@, i13 as int, timeout, rv.timeout);
                    lemma_prefixes(chars@, i15 as int, ser_opt_str(opt_view(data)), ser_opt_str(rv.data));
                    lemma_un_opt_str(opt_view(data), rv.data, chars@.skip(i15 + ser_opt_str(opt_view(data)).len()), chars@.skip(i15 + ser_opt_str(rv.data).len()));
                    lemma_align_opt_number(chars@, i17 as int, last_ping_timestamp, rv.last_ping_timestamp);
                    lemma_prefixes(chars@, i19 as int, ser_cust_first(cust_views(custodians@)), ser_cust_first(rv.custodians));
                    lemma_un_cust_first(cust_views(custodians@), rv.custodians, chars@.skip(i19 + ser_cust_first(cust_views(custodians@)).len()), chars@.skip(i19 + ser_cust_first(rv.custodians).len()));
                }
            }
            return Option::None;
        },
    };
    let rec = KeyRecord {
        key_id,
        contract_address,
        private_key_path,
        owner,
        network,
        rpc_url,
        timeout,
        data,
        last_ping_timestamp,
        custodians,
    };
    proof {
        let s = chars@;
        let rv = rec@;
        assert(rv.custodians =~= cust_views(rec.custodians@));
        let a11 = ser_record_front(
            rv.key_id,
            rv.contract_address,
            rv.private_key_path,
            rv.owner,
            rv.network,
            rv.rpc_url,
        );
        let a12 = a11 + ",\n\"timeout\": "@;
        lemma_is_at_concat(s, i as int, a11, ",\n\"timeout\": "@);
        let a13 = a12 + dec_digits(rv.timeout as nat);
        lemma_is_at_concat(s, i as int, a12, dec_digits(rv.timeout as nat));
        let a14 = a13 + ",\n\"data\": "@;
        lemma_is_at_concat(s, i as int, a13, ",\n\"data\": "@);
        let a15 = a14 + ser_opt_str(rv.data);
        lemma_is_at_concat(s, i as int, a14, ser_opt_str(rv.data));
        let a16 = a15 + ",\n\"last_ping_timestamp\": "@;
        lemma_is_at_concat(s, i as int, a15, ",\n\"last_ping_timestamp\": "@);
        let a17 = a16 + ser_opt_u64(rv.last_ping_timestamp);
        lemma_is_at_concat(s, i as int, a16, ser_opt_u64(rv.last_ping_timestamp));
        let a18 = a17 + ",\n\"custodians\": ["@;
        lemma_is_at_concat(s, i as int, a17, ",\n\"custodians\": ["@);
        let a19 = a18 + ser_cust_first(rv.custodians);
        lemma_is_at_concat(s, i as int, a18, ser_cust_first(rv.custodians));
        let a20 = a19 + "\n}"@;
        lemma_is_at_concat(s, i as int, a19, "\n}"@);
        assert(a18 =~= ser_record_head(rv));
        assert(a20 =~= ser_record(rv));
        assert(i21 - i == ser_record(rv).len());
        assert(record_plain(rv)) by {
            assert(custs_plain(rv.custodians));
        }
    }
    Option::Some((rec, i21))
}

/// Consumes the rest of the record list, through its closing bracket.
/// A record-list tail occurs at `i`, every record's strings storable.
pub open spec fn rec_tail_at(s: Seq<char>, i: int, rs: Seq<KeyRecordView>) -> bool {
    recs_plain(rs) && is_at(s, i, ser_tail(rs))
}

#[verifier::rlimit(100)]
#[verifier::spinoff_prover]
fn parse_rec_tail(chars: &Vec<char>, i: usize) -> (r: Option<(Vec<KeyRecord>, usize)>)
    requires
        i <= chars@.len(),
    ensures
        r matches Some((v, j)) ==> {
            &&& is_at(chars@, i as int, ser_tail(rec_views(v@)))
            &&& j == i + ser_tail(rec_views(v@)).len()
            &&& i < j <= chars@.len()
            &&& recs_plain(rec_views(v@))
        },
        forall|rs: Seq<KeyRecordView>| #[trigger] rec_tail_at(chars@, i as int, rs) ==> r
            is Some,
    decreases chars@.len() - i,
{
    proof {
        reveal_strlit("]");
        reveal_strlit(",\n");
        reveal_strlit("{\n\"key_id\": ");
    }
    let n = chars.len();
    if i < n && chars[i] == ']' {
        let v: Vec<KeyRecord> = Vec::new();
        proof {
            assert(rec_views(v@) =~= Seq::<KeyRecordView>::empty());
            assert(chars@.subrange(i as int, i as int + 1) =~= "]"@);
        }
        return Option::Some((v, i + 1));
    }
    proof {
        assert forall|rs: Seq<KeyRecordView>|
            #[trigger] rec_tail_at(chars@, i as int, rs) implies rs.len() > 0 && is_at(
            chars@,
            i as int,
            ",\n"@,
        ) && record_at_pos(chars@, i as int + ",\n"@.len(), rs[0]) by {
            if rs.len() == 0 {
                assert(chars@.subrange(i as int, i as int + 1)[0] == ']');
                assert(false);
            } else {
                assert(ser_tail(rs) == ",\n"@ + (ser_record(rs[0]) + ser_tail(rs.drop_first())));
                lemma_is_at_split(
                    chars@,
                    i as int,
                    ",\n"@,
                    ser_record(rs[0]) + ser_tail(rs.drop_first()),
                );
                lemma_is_at_split(
                    chars@,
                    i as int + ",\n"@.len(),
                    ser_record(rs[0]),
                    ser_tail(rs.drop_first()),
                );
            }
        }
    }
    let i1 = match expect_lit(chars, i, ",\n") {
        Option::Some(j) => j,
        Option::None => {
            return Option::None;
        },
    };
    let (rec, i2) = match parse_record(chars, i1) {
        Option::Some(p) => p,
        Option::None => {
            return Option::None;
        },
    };
    proof {
        assert forall|rs: Seq<KeyRecordView>|
            #[trigger] rec_tail_at(chars@, i as int, rs) implies rec_tail_at(
            chars@,
            i2 as int,
            rs.drop_first(),
        ) by {
            lemma_is_at_split(
                chars@,
                i as int,
                ",\n"@,
                ser_record(rs[0]) + ser_tail(rs.drop_first()),
            );
            lemma_is_at_split(
                chars@,
                i1 as int,
                ser_record(rs[0]),
                ser_tail(rs.drop_first()),
            );
            lemma_prefixes(chars@, i1 as int, ser_record(rec@), ser_record(rs[0]));
            lemma_un_record(
                rec@,
                rs[0],
                chars@.skip(i1 + ser_record(rec@).len()),
                chars@.skip(i1 + ser_record(rs[0]).len()),
            );
            assert(forall|t: int|
                0 <= t < rs.drop_first().len() ==> rs.drop_first()[t] == rs[t + 1]);
        }
    }
    let (mut rest, i3) = match parse_rec_tail(chars, i2) {
        Option::Some(p) => p,
        Option::None => {
            return Option::None;
        },
    };
    let ghost rest_views = rec_views(rest@);
    rest.insert(0, rec);
    proof {
        let s = chars@;
        assert(rec_views(rest@) =~= seq![rec@] + rest_views);
        let vs = rec_views(rest@);
        assert(vs[0] == rec@);
        assert(vs.drop_first() =~= rest_views);
        let a1 = ",\n"@ + ser_record(rec@);
        lemma_is_at_concat(s, i as int, ",\n"@, ser_record(rec@));
        let a2 = a1 + ser_tail(rest_views);
        lemma_is_at_concat(s, i as int, a1, ser_tail(rest_views));
        assert(a2 =~= ser_tail(vs));
        assert forall|t: int| 0 <= t < vs.len() implies record_plain(#[trigger] vs[t]) by {
            if t > 0 {
                assert(vs[t] == rest_views[t - 1]);
            }
        }
    }
    Option::Some((rest, i3))
}

/// A whole well-formed mirror, rendered as this exact text.
pub open spec fn mirror_at(t: Seq<char>, rs: Seq<KeyRecordView>) -> bool {
    &&& crate::mirror::ids_unique(rs)
    &&& wf_records(rs)
    &&& t == ser_mirror(rs)
}

/// Reads the mirror back from its persisted text.  Only the canonical
/// rendering is accepted: on success the returned mirror is well
/// formed and renders to exactly the given text, and the rendering of
/// every well-formed mirror is read back successfully.  Writing a
/// mirror with `render_mirror` and reading the text back therefore
/// yields a structurally equal mirror: success is guaranteed by the
/// last clause below, and equality by `lemma_ser_mirror_injective`.
#[verifier::rlimit(100)]
#[verifier::spinoff_prover]
pub fn parse_mirror(text: &str) -> (r: Result<Mirror, ClientError>)
    ensures
        r matches Ok(m) ==> m.wf() && text@ == ser_mirror(m@),
        r matches Err(e) ==> e.kind_spec() == crate::errors::ErrorKind::Config,
        forall|rs: Seq<KeyRecordView>| #[trigger] mirror_at(text@, rs) ==> r is Ok,
{
    proof {
        reveal_strlit("[");
        reveal_strlit("]");
        reveal_strlit("{\n\"key_id\": ");
        assert forall|rs: Seq<KeyRecordView>|
            #[trigger] mirror_at(text@, rs) implies is_at(text@, 0, ser_mirror(rs))
            && recs_plain(rs) by {
            assert(text@.subrange(0, ser_mirror(rs).len() as int) =~= ser_mirror(rs));
            lemma_wf_records_plain(rs);
        }
    }
    let chars = str_to_chars(text);
    let n = chars.len();
    let i1 = match expect_lit(&chars, 0, "[") {
        Option::Some(j) => j,
        Option::None => {
            proof {
                assert forall|rs: Seq<KeyRecordView>|
                    #[trigger] mirror_at(text@, rs) implies false by {
                    lemma_is_at_split(chars@, 0, "["@, ser_first(rs));
                }
            }
            return Err(ClientError::InvalidConfigFormat);
        },
    };
    let (recs, end) = if i1 < n && chars[i1] == ']' {
        let v: Vec<KeyRecord> = Vec::new();
        proof {
            reveal_strlit("]");
            assert(rec_views(v@) =~= Seq::<KeyRecordView>::empty());
            assert(chars@.subrange(i1 as int, i1 as int + 1) =~= "]"@);
            lemma_is_at_concat(chars@, 0, "["@, "]"@);
            assert("["@ + "]"@ =~= ser_mirror(rec_views(v@)));
            assert(is_at(chars@, 0, ser_mirror(rec_views(v@))));
            assert(i1 + 1 == ser_mirror(rec_views(v@)).len());
            assert(recs_plain(rec_views(v@)));
        }
        (v, i1 + 1)
    } else {
        proof {
            assert forall|rs: Seq<KeyRecordView>|
                #[trigger] mirror_at(text@, rs) implies rs.len() > 0 && record_at_pos(
                chars@,
                i1 as int,
                rs[0],
            ) by {
                lemma_is_at_split(chars@, 0, "["@, ser_first(rs));
                if rs.len() == 0 {
                    assert(chars@.subrange(i1 as int, i1 as int + 1)[0] == ']');
                    assert(false);
                } else {
                    lemma_is_at_split(
                        chars@,
                        i1 as int,
                        ser_record(rs[0]),
                        ser_tail(rs.drop_first()),
                    );
                }
            }
        }
        let (rec, i2) = match parse_record(&chars, i1) {
            Option::Some(p) => p,
            Option::None => {
                return Err(ClientError::InvalidConfigFormat);
            },
        };
        proof {
            assert forall|rs: Seq<KeyRecordView>|
                #[trigger] mirror_at(text@, rs) implies rec_tail_at(
                chars@,
                i2 as int,
                rs.drop_first(),
            ) by {
                lemma_is_at_split(chars@, 0, "["@, ser_first(rs));
                lemma_is_at_split(
                    chars@,
                    i1 as int,
                    ser_record(rs[0]),
                    ser_tail(rs.drop_first()),
                );
                lemma_prefixes(chars@, i1 as int, ser_record(rec@), ser_record(rs[0]));
                lemma_un_record(
                    rec@,
                    rs[0],
                    chars@.skip(i1 + ser_record(rec@).len()),
                    chars@.skip(i1 + ser_record(rs[0]).len()),
                );
                assert(forall|t: int|
                    0 <= t < rs.drop_first().len() ==> rs.drop_first()[t] == rs[t + 1]);
            }
        }
        let (mut rest, i3) = match parse_rec_tail(&chars, i2) {
            Option::Some(p) => p,
            Option::None => {
                return Err(ClientError::InvalidConfigFormat);
            },
        };
        let ghost rest_views = rec_views(rest@);
        rest.insert(0, rec);
        proof {
            assert(rec_views(rest@) =~= seq![rec@] + rest_views);
            let vs = rec_views(rest@);
            assert(vs[0] == rec@);
            assert(vs.drop_first() =~= rest_views);
            lemma_is_at_concat(chars@, i1 as int, ser_record(rec@), ser_tail(rest_views));
            lemma_is_at_concat(chars@, 0, "["@, ser_record(rec@) + ser_tail(rest_views));
            assert("["@ + (ser_record(rec@) + ser_tail(rest_views)) =~= ser_mirror(vs));
            assert(is_at(chars@, 0, ser_mirror(vs)));
            assert(i3 == ser_mirror(vs).len());
            assert forall|t: int| 0 <= t < vs.len() implies record_plain(#[trigger] vs[t]) by {
                if t > 0 {
                    assert(vs[t] == rest_views[t - 1]);
                }
            }
            assert(recs_plain(vs));
        }
        (rest, i3)
    };
    proof {
        assert(is_at(chars@, 0, ser_mirror(rec_views(recs@))));
        assert(end == ser_mirror(rec_views(recs@)).len());
        assert(recs_plain(rec_views(recs@)));
        let vs = rec_views(recs@);
        assert forall|rs: Seq<KeyRecordView>|
            #[trigger] mirror_at(text@, rs) implies vs == rs && end == chars@.len() by {
            lemma_is_at_split(chars@, 0, "["@, ser_first(rs));
            lemma_is_at_split(chars@, 0, "["@, ser_first(vs));
            let i1g = "["@.len() as int;
            if vs.len() == 0 && rs.len() == 0 {
                assert(vs =~= rs);
            } else if vs.len() == 0 {
                assert(chars@.subrange(i1g, i1g + 1)[0] == ']');
                assert(chars@.subrange(i1g, i1g + ser_first(rs).len())[0] == (ser_record(
                    rs[0],
                ))[0]);
                assert((ser_record(rs[0]))[0] == '{');
                assert(false);
            } else if rs.len() == 0 {
                assert(chars@.subrange(i1g, i1g + 1)[0] == ']');
                assert(chars@.subrange(i1g, i1g + ser_first(vs).len())[0] == (ser_record(
                    vs[0],
                ))[0]);
                assert((ser_record(vs[0]))[0] == '{');
                assert(false);
            } else {
                lemma_is_at_split(
                    chars@,
                    i1g,
                    ser_record(vs[0]),
                    ser_tail(vs.drop_first()),
                );
                lemma_is_at_split(
                    chars@,
                    i1g,
                    ser_record(rs[0]),
                    ser_tail(rs.drop_first()),
                );
                lemma_prefixes(chars@, i1g, ser_record(vs[0]), ser_record(rs[0]));
                lemma_un_record(
                    vs[0],
                    rs[0],
                    chars@.skip(i1g + ser_record(vs[0]).len()),
                    chars@.skip(i1g + ser_record(rs[0]).len()),
                );
                let p2 = i1g + ser_record(vs[0]).len();
                lemma_prefixes(chars@, p2, ser_tail(vs.drop_first()), ser_tail(rs.drop_first()));
                assert(forall|t: int|
                    0 <= t < vs.drop_first().len() ==> vs.drop_first()[t] == vs[t + 1]);
                assert(forall|t: int|
                    0 <= t < rs.drop_first().len() ==> rs.drop_first()[t] == rs[t + 1]);
                lemma_un_rec_tail(
                    vs.drop_first(),
                    rs.drop_first(),
                    chars@.skip(p2 + ser_tail(vs.drop_first()).len()),
                    chars@.skip(p2 + ser_tail(rs.drop_first()).len()),
                );
                assert(vs.len() == rs.len());
                assert forall|t: int| 0 <= t < vs.len() implies vs[t] == rs[t] by {
                    if t > 0 {
                        assert(vs[t] == vs.drop_first()[t - 1]);
                        assert(rs[t] == rs.drop_first()[t - 1]);
                    }
                }
                assert(vs =~= rs);
            }
        }
    }
    if end != n {
        proof {
            assert forall|rs: Seq<KeyRecordView>|
                #[trigger] mirror_at(text@, rs) implies false by {}
        }
        return Err(ClientError::InvalidConfigFormat);
    }
    proof {
        assert(chars@.subrange(0, n as int) =~= chars@);
        assert(text@ == ser_mirror(rec_views(recs@)));
    }
    let ghost all = rec_views(recs@);
    let mut m = Mirror::new();
    let mut recs = recs;
    let ghost total = recs@.len();
    while recs.len() > 0
        invariant
            m.wf(),
            recs@.len() <= total,
            all.len() == total,
            m@ + rec_views(recs@) == all,
            forall|rs: Seq<KeyRecordView>| #[trigger] mirror_at(text@, rs) ==> all == rs,
        decreases recs@.len(),
    {
        let ghost pre = recs@;
        let ghost done = m@.len();
        let rec = recs.remove(0);
        proof {
            assert(rec_views(pre)[0] == rec@);
            assert(rec_views(recs@) =~= rec_views(pre).drop_first());
            assert((m@ + rec_views(pre))[done as int] == rec@);
            assert(rec@ == all[done as int]);
        }
        if !rec.is_well_formed() {
            proof {
                assert forall|rs: Seq<KeyRecordView>|
                    #[trigger] mirror_at(text@, rs) implies false by {
                    assert(crate::records::wf_record(rs[done as int]));
                }
            }
            return Err(ClientError::InvalidConfigFormat);
        }
        match m.insert(rec) {
            Ok(()) => {
                proof {
                    assert(m@ + rec_views(recs@) =~= all);
                }
            },
            Err(_) => {
                proof {
                    assert forall|rs: Seq<KeyRecordView>|
                        #[trigger] mirror_at(text@, rs) implies false by {
                        let j = choose|j: int|
                            0 <= j < m@.len() && m@[j].key_id == rec@.key_id;
                        assert((m@ + rec_views(pre))[j] == m@[j]);
                        assert(rs[j].key_id == rs[done as int].key_id);
                    }
                }
                return Err(ClientError::InvalidConfigFormat);
            },
        }
    }
    proof {
        assert(rec_views(recs@) =~= Seq::<KeyRecordView>::empty());
        assert(m@ =~= all);
    }
    Ok(m)
}

// ---------------------------------------------------------------------
// The round-trip law: the canonical rendering is injective on
// well-formed record sequences, so the persisted text of a mirror
// determines the mirror.  Together with `render_mirror`'s and
// `parse_mirror`'s contracts this says that writing a mirror and
// reading the text back can only yield a value structurally equal to
// what was written.
// ---------------------------------------------------------------------

/// Equal strings with a common prefix have equal remainders.
proof fn lemma_cancel(a: Seq<char>, x: Seq<char>, y: Seq<char>)
    requires
        a + x == a + y,
    ensures
        x == y,
{
    assert((a + x).len() == (a + y).len());
    assert((a + x).len() == a.len() + x.len());
    assert((a + y).len() == a.len() + y.len());
    assert(x.len() == y.len());
    assert forall|i: int| 0 <= i < x.len() implies x[i] == y[i] by {
        assert((a + x)[a.len() as int + i] == x[i]);
        assert((a + y)[a.len() as int + i] == y[i]);
    }
    assert(x =~= y);
}

/// Two quoted plain strings starting at the same place are the same
/// string, with the same remainder after them.
proof fn lemma_unquote(a: Seq<char>, b: Seq<char>, x: Seq<char>, y: Seq<char>)
    requires
        plain_str(a),
        plain_str(b),
        quoted(a) + x == quoted(b) + y,
    ensures
        a == b,
        x == y,
{
    reveal_strlit("\"");
    let s = quoted(a) + x;
    let la = a.len() as int;
    let lb = b.len() as int;
    if la < lb {
        assert(s[1 + la] == '"') by {
            assert((quoted(a))[1 + la] == '"');
        }
        assert(s[1 + la] == b[la]) by {
            assert((quoted(b))[1 + la] == b[la]);
        }
        assert(plain_char(b[la]));
        assert(false);
    }
    if lb < la {
        assert(s[1 + lb] == '"') by {
            assert((quoted(b))[1 + lb] == '"');
        }
        assert(s[1 + lb] == a[lb]) by {
            assert((quoted(a))[1 + lb] == a[lb]);
        }
        assert(plain_char(a[lb]));
        assert(false);
    }
    assert forall|i: int| 0 <= i < a.len() implies a[i] == b[i] by {
        assert((quoted(a) + x)[1 + i] == a[i]);
        assert((quoted(b) + y)[1 + i] == b[i]);
    }
    assert(a =~= b);
    lemma_cancel(quoted(a), x, y);
}

/// Two printed numbers starting at the same place, each followed by a
/// non-digit, are the same number with the same remainder.
proof fn lemma_unnumber(n: u64, m: u64, x: Seq<char>, y: Seq<char>)
    requires
        x.len() > 0 && !is_digit(x[0]),
        y.len() > 0 && !is_digit(y[0]),
        dec_digits(n as nat) + x == dec_digits(m as nat) + y,
    ensures
        n == m,
        x == y,
{
    let dn = dec_digits(n as nat);
    let dm = dec_digits(m as nat);
    crate::numbers::lemma_dec_digits_are_digits(n as nat);
    crate::numbers::lemma_dec_digits_are_digits(m as nat);
    let s = dn + x;
    let ln = dn.len() as int;
    let lm = dm.len() as int;
    if ln < lm {
        assert(s[ln] == x[0]);
        assert((dm + y)[ln] == dm[ln]);
        assert(is_digit(dm[ln]));
        assert(false);
    }
    if lm < ln {
        assert(s[lm] == dn[lm]);
        assert((dm + y)[lm] == y[0]);
        assert(is_digit(dn[lm]));
        assert(false);
    }
    assert forall|i: int| 0 <= i < dn.len() implies dn[i] == dm[i] by {
        assert((dn + x)[i] == dn[i]);
        assert((dm + y)[i] == dm[i]);
    }
    assert(dn =~= dm);
    crate::numbers::lemma_dec_val_of_digits(n as nat);
    crate::numbers::lemma_dec_val_of_digits(m as nat);
    lemma_cancel(dn, x, y);
}

/// Optional strings rendered at the same place agree.
proof fn lemma_un_opt_str(
    o1: Option<Seq<char>>,
    o2: Option<Seq<char>>,
    x: Seq<char>,
    y: Seq<char>,
)
    requires
        (o1 matches Option::Some(s) ==> plain_str(s)),
        (o2 matches Option::Some(s) ==> plain_str(s)),
        ser_opt_str(o1) + x == ser_opt_str(o2) + y,
    ensures
        o1 == o2,
        x == y,
{
    reveal_strlit("\"");
    reveal_strlit("null");
    match (o1, o2) {
        (Option::Some(a), Option::Some(b)) => {
            lemma_unquote(a, b, x, y);
        },
        (Option::None, Option::None) => {
            lemma_cancel("null"@, x, y);
        },
        (Option::Some(a), Option::None) => {
            assert((ser_opt_str(o1) + x)[0] == '"');
            assert((ser_opt_str(o2) + y)[0] == 'n');
            assert(false);
        },
        (Option::None, Option::Some(b)) => {
            assert((ser_opt_str(o1) + x)[0] == 'n');
            assert((ser_opt_str(o2) + y)[0] == '"');
            assert(false);
        },
    }
}

/// Optional numbers rendered at the same place agree, when each is
/// followed by a non-digit other than `'l'`.
proof fn lemma_un_opt_u64(o1: Option<u64>, o2: Option<u64>, x: Seq<char>, y: Seq<char>)
    requires
        x.len() > 0 && !is_digit(x[0]),
        y.len() > 0 && !is_digit(y[0]),
        ser_opt_u64(o1) + x == ser_opt_u64(o2) + y,
    ensures
        o1 == o2,
        x == y,
{
    reveal_strlit("null");
    match (o1, o2) {
        (Option::Some(n), Option::Some(m)) => {
            lemma_unnumber(n, m, x, y);
        },
        (Option::None, Option::None) => {
            lemma_cancel("null"@, x, y);
        },
        (Option::Some(n), Option::None) => {
            crate::numbers::lemma_dec_digits_are_digits(n as nat);
            assert((ser_opt_u64(o1) + x)[0] == dec_digits(n as nat)[0]);
            assert((ser_opt_u64(o2) + y)[0] == 'n');
            assert(is_digit(dec_digits(n as nat)[0]));
            assert('n' as int == 110);
            assert(false);
        },
        (Option::None, Option::Some(m)) => {
            crate::numbers::lemma_dec_digits_are_digits(m as nat);
            assert((ser_opt_u64(o1) + x)[0] == 'n');
            assert((ser_opt_u64(o2) + y)[0] == dec_digits(m as nat)[0]);
            assert(is_digit(dec_digits(m as nat)[0]));
            assert('n' as int == 110);
            assert(false);
        },
    }
}

/// Booleans rendered at the same place agree.
proof fn lemma_un_bool(b1: bool, b2: bool, x: Seq<char>, y: Seq<char>)
    requires
        ser_bool(b1) + x == ser_bool(b2) + y,
    ensures
        b1 == b2,
        x == y,
{
    reveal_strlit("true");
    reveal_strlit("false");
    if b1 != b2 {
        assert((ser_bool(true) + (if b1 { x } else { y }))[0] == 't');
        assert((ser_bool(false) + (if b1 { y } else { x }))[0] == 'f');
        assert(false);
    }
    if b1 {
        lemma_cancel("true"@, x, y);
    } else {
        lemma_cancel("false"@, x, y);
    }
}

/// Every role label is made of storable characters.
proof fn lemma_label_plain(role: Role)
    ensures
        plain_str(role.label_spec()),
{
    reveal_strlit("owner");
    reveal_strlit("writer");
    reveal_strlit("reader");
    reveal_strlit("none");
}

/// Quoted role labels rendered at the same place agree.
proof fn lemma_un_role(r1: Role, r2: Role, x: Seq<char>, y: Seq<char>)
    requires
        quoted(r1.label_spec()) + x == quoted(r2.label_spec()) + y,
    ensures
        r1 == r2,
        x == y,
{
    lemma_label_plain(r1);
    lemma_label_plain(r2);
    lemma_unquote(r1.label_spec(), r2.label_spec(), x, y);
    reveal_strlit("owner");
    reveal_strlit("writer");
    reveal_strlit("reader");
    reveal_strlit("none");
    if r1 != r2 {
        assert(r1.label_spec().len() == r2.label_spec().len());
        assert(r1.label_spec()[0] == r2.label_spec()[0]);
        match (r1, r2) {
            (Role::Writer, Role::Reader) => {
                assert("writer"@[0] != "reader"@[0]);
            },
            (Role::Reader, Role::Writer) => {
                assert("reader"@[0] != "writer"@[0]);
            },
            _ => {},
        }
        assert(false);
    }
}

/// A custodian's rendering pins the custodian and the remainder.
#[verifier::rlimit(100)]
#[verifier::spinoff_prover]
proof fn lemma_un_custodian(c1: CustodianView, c2: CustodianView, x: Seq<char>, y: Seq<char>)
    requires
        plain_str(c1.address),
        plain_str(c2.address),
        ser_custodian(c1) + x == ser_custodian(c2) + y,
    ensures
        c1 == c2,
        x == y,
{
    let t15 = "\n}"@ + x;
    let t14 = ser_bool(c1.can_ping) + t15;
    let t13 = ",\n\"can_ping\": "@ + t14;
    let t12 = quoted(c1.role.label_spec()) + t13;
    let t11 = ",\n\"role\": "@ + t12;
    let t10 = quoted(c1.address) + t11;
    assert(ser_custodian(c1) + x =~= "{\n\"address\": "@ + t10);
    let u15 = "\n}"@ + y;
    let u14 = ser_bool(c2.can_ping) + u15;
    let u13 = ",\n\"can_ping\": "@ + u14;
    let u12 = quoted(c2.role.label_spec()) + u13;
    let u11 = ",\n\"role\": "@ + u12;
    let u10 = quoted(c2.address) + u11;
    assert(ser_custodian(c2) + y =~= "{\n\"address\": "@ + u10);
    lemma_cancel("{\n\"address\": "@, t10, u10);
    lemma_unquote(c1.address, c2.address, t11, u11);
    lemma_cancel(",\n\"role\": "@, t12, u12);
    lemma_un_role(c1.role, c2.role, t13, u13);
    lemma_cancel(",\n\"can_ping\": "@, t14, u14);
    lemma_un_bool(c1.can_ping, c2.can_ping, t15, u15);
    lemma_cancel("\n}"@, x, y);
}

/// Custodian addresses in a list are all storable.
pub open spec fn custs_plain(cs: Seq<CustodianView>) -> bool {
    forall|i: int| 0 <= i < cs.len() ==> plain_str(#[trigger] cs[i].address)
}

/// A custodian-list tail's rendering pins the list and the remainder.
#[verifier::rlimit(100)]
#[verifier::spinoff_prover]
proof fn lemma_un_cust_tail(
    cs1: Seq<CustodianView>,
    cs2: Seq<CustodianView>,
    x: Seq<char>,
    y: Seq<char>,
)
    requires
        custs_plain(cs1),
        custs_plain(cs2),
        ser_cust_tail(cs1) + x == ser_cust_tail(cs2) + y,
    ensures
        cs1 == cs2,
        x == y,
    decreases cs1.len(),
{
    reveal_strlit("]");
    reveal_strlit(",\n");
    reveal_strlit("{\n\"address\": ");
    if cs1.len() == 0 && cs2.len() == 0 {
        lemma_cancel("]"@, x, y);
        assert(cs1 =~= cs2);
    } else if cs1.len() == 0 {
        assert((ser_cust_tail(cs1) + x)[0] == ']');
        assert((ser_cust_tail(cs2) + y)[0] == ',');
        assert(false);
    } else if cs2.len() == 0 {
        assert((ser_cust_tail(cs1) + x)[0] == ',');
        assert((ser_cust_tail(cs2) + y)[0] == ']');
        assert(false);
    } else {
        let t1 = ser_custodian(cs1[0]) + (ser_cust_tail(cs1.drop_first()) + x);
        assert(ser_cust_tail(cs1) + x =~= ",\n"@ + t1);
        let u1 = ser_custodian(cs2[0]) + (ser_cust_tail(cs2.drop_first()) + y);
        assert(ser_cust_tail(cs2) + y =~= ",\n"@ + u1);
        lemma_cancel(",\n"@, t1, u1);
        lemma_un_custodian(
            cs1[0],
            cs2[0],
            ser_cust_tail(cs1.drop_first()) + x,
            ser_cust_tail(cs2.drop_first()) + y,
        );
        assert(forall|i: int|
            0 <= i < cs1.drop_first().len() ==> cs1.drop_first()[i] == cs1[i + 1]);
        assert(forall|i: int|
            0 <= i < cs2.drop_first().len() ==> cs2.drop_first()[i] == cs2[i + 1]);
        lemma_un_cust_tail(cs1.drop_first(), cs2.drop_first(), x, y);
        assert(cs1.len() == cs2.len());
        assert forall|i: int| 0 <= i < cs1.len() implies cs1[i] == cs2[i] by {
            if i > 0 {
                assert(cs1[i] == cs1.drop_first()[i - 1]);
                assert(cs2[i] == cs2.drop_first()[i - 1]);
            }
        }
        assert(cs1 =~= cs2);
    }
}

/// A custodian list's rendering pins the list and the remainder.
#[verifier::rlimit(100)]
#[verifier::spinoff_prover]
proof fn lemma_un_cust_first(
    cs1: Seq<CustodianView>,
    cs2: Seq<CustodianView>,
    x: Seq<char>,
    y: Seq<char>,
)
    requires
        custs_plain(cs1),
        custs_plain(cs2),
        ser_cust_first(cs1) + x == ser_cust_first(cs2) + y,
    ensures
        cs1 == cs2,
        x == y,
{
    reveal_strlit("]");
    reveal_strlit("{\n\"address\": ");
    if cs1.len() == 0 && cs2.len() == 0 {
        lemma_cancel("]"@, x, y);
        assert(cs1 =~= cs2);
    } else if cs1.len() == 0 {
        assert((ser_cust_first(cs1) + x)[0] == ']');
        assert((ser_cust_first(cs2) + y)[0] == (ser_custodian(cs2[0]))[0]);
        assert((ser_custodian(cs2[0]))[0] == '{');
        assert(false);
    } else if cs2.len() == 0 {
        assert((ser_cust_first(cs1) + x)[0] == (ser_custodian(cs1[0]))[0]);
        assert((ser_custodian(cs1[0]))[0] == '{');
        assert((ser_cust_first(cs2) + y)[0] == ']');
        assert(false);
    } else {
        assert(ser_cust_first(cs1) + x =~= ser_custodian(cs1[0]) + (ser_cust_tail(
            cs1.drop_first(),
        ) + x));
        assert(ser_cust_first(cs2) + y =~= ser_custodian(cs2[0]) + (ser_cust_tail(
            cs2.drop_first(),
        ) + y));
        lemma_un_custodian(
            cs1[0],
            cs2[0],
            ser_cust_tail(cs1.drop_first()) + x,
            ser_cust_tail(cs2.drop_first()) + y,
        );
        assert(forall|i: int|
            0 <= i < cs1.drop_first().len() ==> cs1.drop_first()[i] == cs1[i + 1]);
        assert(forall|i: int|
            0 <= i < cs2.drop_first().len() ==> cs2.drop_first()[i] == cs2[i + 1]);
        lemma_un_cust_tail(cs1.drop_first(), cs2.drop_first(), x, y);
        assert(cs1.len() == cs2.len());
        assert forall|i: int| 0 <= i < cs1.len() implies cs1[i] == cs2[i] by {
            if i > 0 {
                assert(cs1[i] == cs1.drop_first()[i - 1]);
                assert(cs2[i] == cs2.drop_first()[i - 1]);
            }
        }
        assert(cs1 =~= cs2);
    }
}

/// The string fields a record's rendering embeds raw.
pub open spec fn record_plain(r: KeyRecordView) -> bool {
    &&& plain_str(r.key_id)
    &&& plain_str(r.contract_address)
    &&& plain_str(r.private_key_path)
    &&& plain_str(r.owner)
    &&& (r.network matches Option::Some(s) ==> plain_str(s))
    &&& plain_str(r.rpc_url)
    &&& (r.data matches Option::Some(s) ==> plain_str(s))
    &&& custs_plain(r.custodians)
}

/// Well-formed records embed their strings raw.
pub proof fn lemma_wf_record_plain(r: KeyRecordView)
    requires
        crate::records::wf_record(r),
    ensures
        record_plain(r),
{
    assert forall|i: int| 0 <= i < r.custodians.len() implies plain_str(
        #[trigger] r.custodians[i].address,
    ) by {
        assert(crate::records::wf_custodian(r.custodians[i]));
    }
}

/// A record's rendering followed by a remainder, re-grouped from the
/// front: each field heads its own suffix.
pub open spec fn record_chain(r: KeyRecordView, x: Seq<char>) -> Seq<char> {
    let t21 = "\n}"@ + x;
    let t20 = ser_cust_first(r.custodians) + t21;
    let t19 = ",\n\"custodians\": ["@ + t20;
    let t18 = ser_opt_u64(r.last_ping_timestamp) + t19;
    let t17 = ",\n\"last_ping_timestamp\": "@ + t18;
    let t16 = ser_opt_str(r.data) + t17;
    let t15 = ",\n\"data\": "@ + t16;
    let t14 = dec_digits(r.timeout as nat) + t15;
    let t13 = ",\n\"timeout\": "@ + t14;
    let t12 = quoted(r.rpc_url) + t13;
    let t11 = ",\n\"rpc_url\": "@ + t12;
    let t10 = ser_opt_str(r.network) + t11;
    let t9 = ",\n\"network\": "@ + t10;
    let t8 = quoted(r.owner) + t9;
    let t7 = ",\n\"owner\": "@ + t8;
    let t6 = quoted(r.private_key_path) + t7;
    let t5 = ",\n\"private_key_path\": "@ + t6;
    let t4 = quoted(r.contract_address) + t5;
    let t3 = ",\n\"contract_address\": "@ + t4;
    let t2 = quoted(r.key_id) + t3;
    "{\n\"key_id\": "@ + t2
}

/// Sequence concatenation associates.
proof fn lemma_add_assoc(a: Seq<char>, b: Seq<char>, c: Seq<char>)
    ensures
        (a + b) + c == a + (b + c),
{
    assert((a + b) + c =~= a + (b + c));
}

#[verifier::rlimit(100)]
#[verifier::spinoff_prover]
proof fn lemma_record_chain(r: KeyRecordView, x: Seq<char>)
    ensures
        ser_record(r) + x == record_chain(r, x),
{
    let h1 = "{\n\"key_id\": "@;
    let h2 = h1 + quoted(r.key_id);
    let h3 = h2 + ",\n\"contract_address\": "@;
    let h4 = h3 + quoted(r.contract_address);
    let h5 = h4 + ",\n\"private_key_path\": "@;
    let h6 = h5 + quoted(r.private_key_path);
    let h7 = h6 + ",\n\"owner\": "@;
    let h8 = h7 + quoted(r.owner);
    let h9 = h8 + ",\n\"network\": "@;
    let h10 = h9 + ser_opt_str(r.network);
    let h11 = h10 + ",\n\"rpc_url\": "@;
    let h12 = h11 + quoted(r.rpc_url);
    let h13 = h12 + ",\n\"timeout\": "@;
    let h14 = h13 + dec_digits(r.timeout as nat);
    let h15 = h14 + ",\n\"data\": "@;
    let h16 = h15 + ser_opt_str(r.data);
    let h17 = h16 + ",\n\"last_ping_timestamp\": "@;
    let h18 = h17 + ser_opt_u64(r.last_ping_timestamp);
    let h19 = h18 + ",\n\"custodians\": ["@;
    assert(ser_record_head(r) == h19);
    let t21 = "\n}"@ + x;
    let t20 = ser_cust_first(r.custodians) + t21;
    let t19 = ",\n\"custodians\": ["@ + t20;
    let t18 = ser_opt_u64(r.last_ping_timestamp) + t19;
    let t17 = ",\n\"last_ping_timestamp\": "@ + t18;
    let t16 = ser_opt_str(r.data) + t17;
    let t15 = ",\n\"data\": "@ + t16;
    let t14 = dec_digits(r.timeout as nat) + t15;
    let t13 = ",\n\"timeout\": "@ + t14;
    let t12 = quoted(r.rpc_url) + t13;
    let t11 = ",\n\"rpc_url\": "@ + t12;
    let t10 = ser_opt_str(r.network) + t11;
    let t9 = ",\n\"network\": "@ + t10;
    let t8 = quoted(r.owner) + t9;
    let t7 = ",\n\"owner\": "@ + t8;
    let t6 = quoted(r.private_key_path) + t7;
    let t5 = ",\n\"private_key_path\": "@ + t6;
    let t4 = quoted(r.contract_address) + t5;
    let t3 = ",\n\"contract_address\": "@ + t4;
    let t2 = quoted(r.key_id) + t3;
    lemma_add_assoc(h19, ser_cust_first(r.custodians) + "\n}"@, x);
    lemma_add_assoc(ser_cust_first(r.custodians), "\n}"@, x);
    assert(ser_record(r) + x == h19 + (ser_cust_first(r.custodians) + t21));
    assert(ser_record(r) + x == h19 + t20);
    lemma_add_assoc(h18, ",\n\"custodians\": ["@, t20);
    assert(h19 + t20 == h18 + t19);
    lemma_add_assoc(h17, ser_opt_u64(r.last_ping_timestamp), t19);
    assert(h18 + t19 == h17 + t18);
    lemma_add_assoc(h16, ",\n\"last_ping_timestamp\": "@, t18);
    assert(h17 + t18 == h16 + t17);
    lemma_add_assoc(h15, ser_opt_str(r.data), t17);
    assert(h16 + t17 == h15 + t16);
    lemma_add_assoc(h14, ",\n\"data\": "@, t16);
    assert(h15 + t16 == h14 + t15);
    lemma_add_assoc(h13, dec_digits(r.timeout as nat), t15);
    assert(h14 + t15 == h13 + t14);
    lemma_add_assoc(h12, ",\n\"timeout\": "@, t14);
    assert(h13 + t14 == h12 + t13);
    lemma_add_assoc(h11, quoted(r.rpc_url), t13);
    assert(h12 + t13 == h11 + t12);
    lemma_add_assoc(h10, ",\n\"rpc_url\": "@, t12);
    assert(h11 + t12 == h10 + t11);
    lemma_add_assoc(h9, ser_opt_str(r.network), t11);
    assert(h10 + t11 == h9 + t10);
    lemma_add_assoc(h8, ",\n\"network\": "@, t10);
    assert(h9 + t10 == h8 + t9);
    lemma_add_assoc(h7, quoted(r.owner), t9);
    assert(h8 + t9 == h7 + t8);
    lemma_add_assoc(h6, ",\n\"owner\": "@, t8);
    assert(h7 + t8 == h6 + t7);
    lemma_add_assoc(h5, quoted(r.private_key_path), t7);
    assert(h6 + t7 == h5 + t6);
    lemma_add_assoc(h4, ",\n\"private_key_path\": "@, t6);
    assert(h5 + t6 == h4 + t5);
    lemma_add_assoc(h3, quoted(r.contract_address), t5);
    assert(h4 + t5 == h3 + t4);
    lemma_add_assoc(h2, ",\n\"contract_address\": "@, t4);
    assert(h3 + t4 == h2 + t3);
    lemma_add_assoc(h1, quoted(r.key_id), t3);
    assert(h2 + t3 == h1 + t2);
    assert(ser_record(r) + x == h1 + t2);
    assert(record_chain(r, x) == h1 + t2);
}

/// A record's rendering pins the record and the remainder.
#[verifier::rlimit(100)]
#[verifier::spinoff_prover]
proof fn lemma_un_record(r1: KeyRecordView, r2: KeyRecordView, x: Seq<char>, y: Seq<char>)
    requires
        record_plain(r1),
        record_plain(r2),
        ser_record(r1) + x == ser_record(r2) + y,
    ensures
        r1 == r2,
        x == y,
{
    reveal_strlit(",\n\"data\": ");
    reveal_strlit(",\n\"custodians\": [");
    let t21 = "\n}"@ + x;
    let t20 = ser_cust_first(r1.custodians) + t21;
    let t19 = ",\n\"custodians\": ["@ + t20;
    let t18 = ser_opt_u64(r1.last_ping_timestamp) + t19;
    let t17 = ",\n\"last_ping_timestamp\": "@ + t18;
    let t16 = ser_opt_str(r1.data) + t17;
    let t15 = ",\n\"data\": "@ + t16;
    let t14 = dec_digits(r1.timeout as nat) + t15;
    let t13 = ",\n\"timeout\": "@ + t14;
    let t12 = quoted(r1.rpc_url) + t13;
    let t11 = ",\n\"rpc_url\": "@ + t12;
    let t10 = ser_opt_str(r1.network) + t11;
    let t9 = ",\n\"network\": "@ + t10;
    let t8 = quoted(r1.owner) + t9;
    let t7 = ",\n\"owner\": "@ + t8;
    let t6 = quoted(r1.private_key_path) + t7;
    let t5 = ",\n\"private_key_path\": "@ + t6;
    let t4 = quoted(r1.contract_address) + t5;
    let t3 = ",\n\"contract_address\": "@ + t4;
    let t2 = quoted(r1.key_id) + t3;
    lemma_record_chain(r1, x);
    assert(ser_record(r1) + x == "{\n\"key_id\": "@ + t2);
    let u21 = "\n}"@ + y;
    let u20 = ser_cust_first(r2.custodians) + u21;
    let u19 = ",\n\"custodians\": ["@ + u20;
    let u18 = ser_opt_u64(r2.last_ping_timestamp) + u19;
    let u17 = ",\n\"last_ping_timestamp\": "@ + u18;
    let u16 = ser_opt_str(r2.data) + u17;
    let u15 = ",\n\"data\": "@ + u16;
    let u14 = dec_digits(r2.timeout as nat) + u15;
    let u13 = ",\n\"timeout\": "@ + u14;
    let u12 = quoted(r2.rpc_url) + u13;
    let u11 = ",\n\"rpc_url\": "@ + u12;
    let u10 = ser_opt_str(r2.network) + u11;
    let u9 = ",\n\"network\": "@ + u10;
    let u8 = quoted(r2.owner) + u9;
    let u7 = ",\n\"owner\": "@ + u8;
    let u6 = quoted(r2.private_key_path) + u7;
    let u5 = ",\n\"private_key_path\": "@ + u6;
    let u4 = quoted(r2.contract_address) + u5;
    let u3 = ",\n\"contract_address\": "@ + u4;
    let u2 = quoted(r2.key_id) + u3;
    lemma_record_chain(r2, y);
    assert(ser_record(r2) + y == "{\n\"key_id\": "@ + u2);
    lemma_cancel("{\n\"key_id\": "@, t2, u2);
    lemma_unquote(r1.key_id, r2.key_id, t3, u3);
    lemma_cancel(",\n\"contract_address\": "@, t4, u4);
    lemma_unquote(r1.contract_address, r2.contract_address, t5, u5);
    lemma_cancel(",\n\"private_key_path\": "@, t6, u6);
    lemma_unquote(r1.private_key_path, r2.private_key_path, t7, u7);
    lemma_cancel(",\n\"owner\": "@, t8, u8);
    lemma_unquote(r1.owner, r2.owner, t9, u9);
    lemma_cancel(",\n\"network\": "@, t10, u10);
    lemma_un_opt_str(r1.network, r2.network, t11, u11);
    lemma_cancel(",\n\"rpc_url\": "@, t12, u12);
    lemma_unquote(r1.rpc_url, r2.rpc_url, t13, u13);
    lemma_cancel(",\n\"timeout\": "@, t14, u14);
    assert(t15[0] == ',' && u15[0] == ',');
    assert(!is_digit(','));
    lemma_unnumber(r1.timeout, r2.timeout, t15, u15);
    lemma_cancel(",\n\"data\": "@, t16, u16);
    lemma_un_opt_str(r1.data, r2.data, t17, u17);
    lemma_cancel(",\n\"last_ping_timestamp\": "@, t18, u18);
    assert(t19[0] == ',' && u19[0] == ',');
    lemma_un_opt_u64(r1.last_ping_timestamp, r2.last_ping_timestamp, t19, u19);
    lemma_cancel(",\n\"custodians\": ["@, t20, u20);
    lemma_un_cust_first(r1.custodians, r2.custodians, t21, u21);
    lemma_cancel("\n}"@, x, y);
}

/// Every record in the sequence is well formed.
pub open spec fn wf_records(rs: Seq<KeyRecordView>) -> bool {
    forall|i: int| 0 <= i < rs.len() ==> crate::records::wf_record(#[trigger] rs[i])
}

/// Every record in the sequence embeds its strings raw.
pub open spec fn recs_plain(rs: Seq<KeyRecordView>) -> bool {
    forall|i: int| 0 <= i < rs.len() ==> record_plain(#[trigger] rs[i])
}

/// Well-formed record sequences embed their strings raw.
pub proof fn lemma_wf_records_plain(rs: Seq<KeyRecordView>)
    requires
        wf_records(rs),
    ensures
        recs_plain(rs),
{
    assert forall|i: int| 0 <= i < rs.len() implies record_plain(#[trigger] rs[i]) by {
        lemma_wf_record_plain(rs[i]);
    }
}

/// A record-list tail's rendering pins the list and the remainder.
#[verifier::rlimit(100)]
#[verifier::spinoff_prover]
proof fn lemma_un_rec_tail(
    rs1: Seq<KeyRecordView>,
    rs2: Seq<KeyRecordView>,
    x: Seq<char>,
    y: Seq<char>,
)
    requires
        recs_plain(rs1),
        recs_plain(rs2),
        ser_tail(rs1) + x == ser_tail(rs2) + y,
    ensures
        rs1 == rs2,
        x == y,
    decreases rs1.len(),
{
    reveal_strlit("]");
    reveal_strlit(",\n");
    if rs1.len() == 0 && rs2.len() == 0 {
        lemma_cancel("]"@, x, y);
        assert(rs1 =~= rs2);
    } else if rs1.len() == 0 {
        assert((ser_tail(rs1) + x)[0] == ']');
        assert((ser_tail(rs2) + y)[0] == ',');
        assert(false);
    } else if rs2.len() == 0 {
        assert((ser_tail(rs1) + x)[0] == ',');
        assert((ser_tail(rs2) + y)[0] == ']');
        assert(false);
    } else {
        let t1 = ser_record(rs1[0]) + (ser_tail(rs1.drop_first()) + x);
        assert(ser_tail(rs1) + x =~= ",\n"@ + t1);
        let u1 = ser_record(rs2[0]) + (ser_tail(rs2.drop_first()) + y);
        assert(ser_tail(rs2) + y =~= ",\n"@ + u1);
        lemma_cancel(",\n"@, t1, u1);
        lemma_un_record(
            rs1[0],
            rs2[0],
            ser_tail(rs1.drop_first()) + x,
            ser_tail(rs2.drop_first()) + y,
        );
        assert(forall|i: int|
            0 <= i < rs1.drop_first().len() ==> rs1.drop_first()[i] == rs1[i + 1]);
        assert(forall|i: int|
            0 <= i < rs2.drop_first().len() ==> rs2.drop_first()[i] == rs2[i + 1]);
        lemma_un_rec_tail(rs1.drop_first(), rs2.drop_first(), x, y);
        assert(rs1.len() == rs2.len());
        assert forall|i: int| 0 <= i < rs1.len() implies rs1[i] == rs2[i] by {
            if i > 0 {
                assert(rs1[i] == rs1.drop_first()[i - 1]);
                assert(rs2[i] == rs2.drop_first()[i - 1]);
            }
        }
        assert(rs1 =~= rs2);
    }
}

/// The round-trip law: two well-formed record sequences with the same
/// persisted text are the same sequence.  Since `render_mirror` writes
/// `ser_mirror(m@)` and `parse_mirror` only returns mirrors whose
/// `ser_mirror` is the input text, reading back a written mirror can
/// only yield a structurally equal mirror.
pub proof fn lemma_ser_mirror_injective(rs1: Seq<KeyRecordView>, rs2: Seq<KeyRecordView>)
    requires
        wf_records(rs1),
        wf_records(rs2),
        ser_mirror(rs1) == ser_mirror(rs2),
    ensures
        rs1 == rs2,
{
    reveal_strlit("[");
    reveal_strlit("]");
    reveal_strlit("{\n\"key_id\": ");
    let e = Seq::<char>::empty();
    assert(ser_mirror(rs1) + e =~= "["@ + (ser_first(rs1) + e));
    assert(ser_mirror(rs2) + e =~= "["@ + (ser_first(rs2) + e));
    assert(ser_mirror(rs1) + e =~= ser_mirror(rs2) + e);
    lemma_cancel("["@, ser_first(rs1) + e, ser_first(rs2) + e);
    if rs1.len() == 0 && rs2.len() == 0 {
        assert(rs1 =~= rs2);
    } else if rs1.len() == 0 {
        assert((ser_first(rs1) + e)[0] == ']');
        assert((ser_first(rs2) + e)[0] == (ser_record(rs2[0]))[0]);
        assert((ser_record(rs2[0]))[0] == '{');
        assert(false);
    } else if rs2.len() == 0 {
        assert((ser_first(rs1) + e)[0] == (ser_record(rs1[0]))[0]);
        assert((ser_record(rs1[0]))[0] == '{');
        assert((ser_first(rs2) + e)[0] == ']');
        assert(false);
    } else {
        assert(ser_first(rs1) + e =~= ser_record(rs1[0]) + (ser_tail(rs1.drop_first()) + e));
        assert(ser_first(rs2) + e =~= ser_record(rs2[0]) + (ser_tail(rs2.drop_first()) + e));
        lemma_wf_records_plain(rs1);
        lemma_wf_records_plain(rs2);
        lemma_un_record(
            rs1[0],
            rs2[0],
            ser_tail(rs1.drop_first()) + e,
            ser_tail(rs2.drop_first()) + e,
        );
        assert(forall|i: int|
            0 <= i < rs1.drop_first().len() ==> rs1.drop_first()[i] == rs1[i + 1]);
        assert(forall|i: int|
            0 <= i < rs2.drop_first().len() ==> rs2.drop_first()[i] == rs2[i + 1]);
        lemma_un_rec_tail(rs1.drop_first(), rs2.drop_first(), e, e);
        assert(rs1.len() == rs2.len());
        assert forall|i: int| 0 <= i < rs1.len() implies rs1[i] == rs2[i] by {
            if i > 0 {
                assert(rs1[i] == rs1.drop_first()[i - 1]);
                assert(rs2[i] == rs2.drop_first()[i - 1]);
            }
        }
        assert(rs1 =~= rs2);
    }
}

} // verus!
