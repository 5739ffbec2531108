use vstd::prelude::*;
use crate::chain::{address_of_secret, derive_address, key_hash, key_hash_spec};
use crate::errors::ClientError;
use crate::hexdata::{decode_hex, hex_bytes, is_hex_payload};
use crate::mirror::{bumped_timestamp, has_id, Mirror};
use crate::network::NetworkContext;
use crate::records::{KeyRecord, KeyRecordView};
use crate::roles::Role;
use crate::text::{is_plain, lower_ascii, lower_seq, plain_str};

verus! {

/// Actions on the local configuration file: the mirror can be shown,
/// a key entry added locally, a fresh store created, or its path
/// printed.
#[derive(Debug, Clone, PartialEq, Eq)]
pub enum ConfigAction {
    View,
    Add {
        key_id: String,
        contract_address: String,
        private_key_path: String,
        network: String,
        rpc_url: Option<String>,
        timeout: u64,
        owner: Option<String>,
    },
    Init { force: bool },
    Path,
}

/// Inputs of a key entry as a command supplies them.
#[derive(Debug, Clone, PartialEq, Eq)]
pub struct KeyData {
    pub id: String,
    pub owner: Option<String>,
    pub timeout: u64,
}

/// Inputs of a custodian assignment as a command supplies them.
#[derive(Debug, Clone, PartialEq, Eq)]
pub struct CustodianData {
    pub role: Role,
    pub can_ping: bool,
    pub address: String,
}

/// What a single on-chain call needs: the connection, the target
/// contract, and the signer's key material.  The key material is
/// handed in once by the caller and cached; it is never persisted.
#[derive(Debug, Clone, PartialEq, Eq)]
pub struct ContractSpecs {
    pub ctx: NetworkContext,
    pub contract_addr: String,
    pub priv_key_path: String,
    pub priv_key: Option<String>,
}

impl ContractSpecs {
    /// Caches the signer's key material, normalized, unless some is
    /// already cached; the contents are read from `priv_key_path` by
    /// the caller.  Once loaded it is never replaced.
    pub fn load_private_key_if_missing(&mut self, contents: &str)
        ensures
            old(self).priv_key is Some ==> *final(self) == *old(self),
            old(self).priv_key is None ==> *final(self) == (ContractSpecs {
                priv_key: Option::Some(final(self).priv_key->0),
                ..*old(self)
            }) && final(self).priv_key->0@ == normalized_secret(contents@),
    {
        if self.priv_key.is_none() {
            self.priv_key = Option::Some(normalize_secret(contents));
        }
    }

    pub fn get_private_key(&self) -> (r: &Option<String>)
        ensures
            r == self.priv_key,
    {
        &self.priv_key
    }
}

/// ASCII whitespace, as trimmed from key files.
pub open spec fn is_ws(c: char) -> bool {
    c == ' ' || c == '\n' || c == '\t' || c == '\r'
}

pub open spec fn trim_front(s: Seq<char>) -> Seq<char>
    decreases s.len(),
{
    if s.len() > 0 && is_ws(s[0]) {
        trim_front(s.drop_first())
    } else {
        s
    }
}

pub open spec fn trim_back(s: Seq<char>) -> Seq<char>
    decreases s.len(),
{
    if s.len() > 0 && is_ws(s.last()) {
        trim_back(s.drop_last())
    } else {
        s
    }
}

pub open spec fn strip_hex_prefix(s: Seq<char>) -> Seq<char>
    decreases s.len(),
{
    if s.len() >= 2 && s[0] == '0' && s[1] == 'x' {
        strip_hex_prefix(s.skip(2))
    } else {
        s
    }
}

/// Key material as the signer parser expects it: whitespace trimmed
/// from both ends and every leading `0x` marker removed.
pub open spec fn normalized_secret(s: Seq<char>) -> Seq<char> {
    strip_hex_prefix(trim_back(trim_front(s)))
}

proof fn lemma_trim_front_skip(s: Seq<char>, i: int)
    requires
        0 <= i <= s.len(),
        forall|k: int| 0 <= k < i ==> is_ws(#[trigger] s[k]),
        i < s.len() ==> !is_ws(s[i]),
    ensures
        trim_front(s) == s.skip(i),
    decreases i,
{
    if i == 0 {
        if s.len() > 0 {
            assert(!is_ws(s[0]));
        }
        assert(s.skip(0) =~= s);
    } else {
        assert(is_ws(s[0]));
        assert(forall|k: int| 0 <= k < s.drop_first().len() ==> s.drop_first()[k] == s[k + 1]);
        lemma_trim_front_skip(s.drop_first(), i - 1);
        assert(s.drop_first().skip(i - 1) =~= s.skip(i));
    }
}

proof fn lemma_trim_back_take(s: Seq<char>, j: int)
    requires
        0 <= j <= s.len(),
        forall|k: int| j <= k < s.len() ==> is_ws(#[trigger] s[k]),
        j > 0 ==> !is_ws(s[j - 1]),
    ensures
        trim_back(s) == s.take(j),
    decreases s.len() - j,
{
    if j == s.len() {
        if s.len() > 0 {
            assert(!is_ws(s.last()));
        }
        assert(s.take(j) =~= s);
    } else {
        assert(is_ws(s.last()));
        assert(forall|k: int| 0 <= k < s.drop_last().len() ==> s.drop_last()[k] == s[k]);
        lemma_trim_back_take(s.drop_last(), j);
        assert(s.drop_last().take(j) =~= s.take(j));
    }
}

proof fn lemma_strip_prefix_skip(s: Seq<char>, i: int)
    requires
        0 <= i <= s.len(),
        i % 2 == 0,
        forall|k: int| 0 <= k < i ==> (if k % 2 == 0 {
            #[trigger] s[k] == '0'
        } else {
            s[k] == 'x'
        }),
        !(i + 2 <= s.len() && s[i] == '0' && s[i + 1] == 'x'),
    ensures
        strip_hex_prefix(s) == s.skip(i),
    decreases i,
{
    if i == 0 {
        assert(s.skip(0) =~= s);
    } else {
        assert(s[0] == '0' && s[1] == 'x');
        assert(forall|k: int| 0 <= k < s.skip(2).len() ==> s.skip(2)[k] == s[k + 2]);
        lemma_strip_prefix_skip(s.skip(2), i - 2);
        assert(s.skip(2).skip(i - 2) =~= s.skip(i));
    }
}

fn is_ws_exec(c: char) -> (r: bool)
    ensures
        r == is_ws(c),
{
    c == ' ' || c == '\n' || c == '\t' || c == '\r'
}

/// Normalizes key-file contents: trims ASCII whitespace and strips
/// every leading `0x` marker.
pub fn normalize_secret(contents: &str) -> (r: String)
    ensures
        r@ == normalized_secret(contents@),
{
    let chars = crate::text::str_to_chars(contents);
    let n = chars.len();
    let mut lo: usize = 0;
    while lo < n && is_ws_exec(chars[lo])
        invariant
            lo <= n,
            n == chars@.len(),
            chars@ == contents@,
            forall|k: int| 0 <= k < lo ==> is_ws(#[trigger] chars@[k]),
        decreases n - lo,
    {
        lo = lo + 1;
    }
    proof {
        lemma_trim_front_skip(contents@, lo as int);
    }
    let mut hi: usize = n;
    while hi > lo && is_ws_exec(chars[hi - 1])
        invariant
            lo <= hi <= n,
            n == chars@.len(),
            chars@ == contents@,
            forall|k: int| hi <= k < n ==> is_ws(#[trigger] chars@[k]),
        decreases hi,
    {
        hi = hi - 1;
    }
    let ghost mid = contents@.skip(lo as int);
    proof {
        assert(forall|k: int| 0 <= k < mid.len() ==> mid[k] == contents@[k + lo]);
        if hi == lo {
            lemma_trim_back_take(mid, 0);
        } else {
            lemma_trim_back_take(mid, hi - lo);
        }
    }
    let mut start = lo;
    while hi - start >= 2 && chars[start] == '0' && chars[start + 1] == 'x'
        invariant
            lo <= start <= hi <= n,
            n == chars@.len(),
            chars@ == contents@,
            (start - lo) % 2 == 0,
            forall|k: int| lo <= k < start ==> (if (k - lo) % 2 == 0 {
                #[trigger] chars@[k] == '0'
            } else {
                chars@[k] == 'x'
            }),
        decreases hi - start,
    {
        start = start + 2;
    }
    let ghost trimmed = mid.take(hi - lo);
    proof {
        assert(forall|k: int| 0 <= k < trimmed.len() ==> trimmed[k] == contents@[k + lo]);
        lemma_strip_prefix_skip(trimmed, start - lo as int);
        assert(trimmed.skip(start - lo as int) =~= contents@.subrange(start as int, hi as int));
    }
    crate::text::chars_range_to_string(&chars, start, hi)
}

/// One on-chain call, fully determined: the operation, the hashed key
/// identifier, and its encoded arguments.
#[derive(Debug, Clone, PartialEq, Eq)]
pub enum CallShape {
    Create { key_hash: Vec<u8>, data: Vec<u8>, timeout: u64 },
    Delete { key_hash: Vec<u8>, owner: String },
    Ping { key_hash: Vec<u8>, owner: String },
    Update { key_hash: Vec<u8>, owner: String, data: Vec<u8>, timeout: u64 },
    SetCustodian {
        key_hash: Vec<u8>,
        owner: String,
        custodian: String,
        role_code: u8,
        can_ping: bool,
    },
    RemoveCustodian { key_hash: Vec<u8>, owner: String, custodian: String },
    Read { key_hash: Vec<u8>, owner: String },
}

/// Validates a create call and assembles its shape.  The payload must
/// be hex; nothing is looked up in the mirror, since a fresh key has
/// no entry to find.
pub fn prepare_create(key_id: &str, data_hex: &str, timeout: u64) -> (r: Result<
    CallShape,
    ClientError,
>)
    ensures
        match r {
            Ok(shape) => {
                &&& is_hex_payload(data_hex@)
                &&& shape matches CallShape::Create { key_hash, data, timeout: t } && key_hash@
                    == key_hash_spec(key_id) && data@ == hex_bytes(data_hex@) && t == timeout
            },
            Err(e) => {
                &&& !is_hex_payload(data_hex@)
                &&& e matches ClientError::InvalidHex(t) && t@ == data_hex@
            },
        },
{
    let data = decode_hex(data_hex)?;
    Ok(CallShape::Create { key_hash: key_hash(key_id), data, timeout })
}

/// The connection and signer context drawn from one mirror entry: the
/// endpoint, label, target contract and key path are the entry's own,
/// and no key material is cached yet.
pub open spec fn specs_match_entry(specs: ContractSpecs, rec: KeyRecordView) -> bool {
    &&& specs.contract_addr@ == rec.contract_address
    &&& specs.priv_key_path@ == rec.private_key_path
    &&& specs.ctx.rpc_url@ == rec.rpc_url
    &&& (match (specs.ctx.network, rec.network) {
        (Option::Some(a), Option::Some(b)) => a@ == b,
        (Option::None, Option::None) => true,
        _ => false,
    })
    &&& specs.priv_key is None
}

/// Looks up the connection and signer context for an existing key.
/// An id absent from the mirror fails here, before any network
/// interaction, and the mirror is untouched.
pub fn lookup_call_context(m: &Mirror, key_id: &str) -> (r: Result<
    (ContractSpecs, String),
    ClientError,
>)
    ensures
        match r {
            Ok((specs, owner)) => exists|i: int|
                #![auto]
                {
                    &&& 0 <= i < m@.len()
                    &&& m@[i].key_id == key_id@
                    &&& specs_match_entry(specs, m@[i])
                    &&& owner@ == m@[i].owner
                },
            Err(e) => {
                &&& e matches ClientError::KeyNotFound(k) && k@ == key_id@
                &&& !has_id(m@, key_id@)
            },
        },
{
    match m.get_record(key_id) {
        Option::Some(rec) => {
            let network: Option<String> = match &rec.network {
                Option::Some(s) => Option::Some(s.clone()),
                Option::None => Option::None,
            };
            let specs = ContractSpecs {
                ctx: NetworkContext { rpc_url: rec.rpc_url.clone(), network },
                contract_addr: rec.contract_address.clone(),
                priv_key_path: rec.private_key_path.clone(),
                priv_key: Option::None,
            };
            Ok((specs, rec.owner.clone()))
        },
        Option::None => Err(ClientError::KeyNotFound(String::from_str(key_id))),
    }
}

/// Validates a ping and assembles its call: the mirror lookup comes
/// first, so a missing key spends no gas and asks no confirmation.
pub fn prepare_ping(m: &Mirror, key_id: &str) -> (r: Result<
    (ContractSpecs, CallShape),
    ClientError,
>)
    ensures
        match r {
            Ok((specs, shape)) => {
                &&& has_id(m@, key_id@)
                &&& exists|i: int|
                    #![auto]
                    {
                        &&& 0 <= i < m@.len()
                        &&& m@[i].key_id == key_id@
                        &&& specs_match_entry(specs, m@[i])
                        &&& shape matches CallShape::Ping { key_hash, owner } && key_hash@
                            == key_hash_spec(key_id) && owner@ == m@[i].owner
                    }
            },
            Err(e) => {
                &&& e matches ClientError::KeyNotFound(k) && k@ == key_id@
                &&& !has_id(m@, key_id@)
            },
        },
{
    let (specs, owner) = lookup_call_context(m, key_id)?;
    Ok((specs, CallShape::Ping { key_hash: key_hash(key_id), owner }))
}

/// Validates a delete and assembles its call.
pub fn prepare_delete(m: &Mirror, key_id: &str) -> (r: Result<
    (ContractSpecs, CallShape),
    ClientError,
>)
    ensures
        match r {
            Ok((specs, shape)) => {
                &&& has_id(m@, key_id@)
                &&& exists|i: int|
                    #![auto]
                    {
                        &&& 0 <= i < m@.len()
                        &&& m@[i].key_id == key_id@
                        &&& specs_match_entry(specs, m@[i])
                        &&& shape matches CallShape::Delete { key_hash, owner } && key_hash@
                            == key_hash_spec(key_id) && owner@ == m@[i].owner
                    }
            },
            Err(e) => {
                &&& e matches ClientError::KeyNotFound(k) && k@ == key_id@
                &&& !has_id(m@, key_id@)
            },
        },
{
    let (specs, owner) = lookup_call_context(m, key_id)?;
    Ok((specs, CallShape::Delete { key_hash: key_hash(key_id), owner }))
}

/// Validates a read query and assembles its call.
pub fn prepare_read(m: &Mirror, key_id: &str) -> (r: Result<
    (ContractSpecs, CallShape),
    ClientError,
>)
    ensures
        match r {
            Ok((specs, shape)) => {
                &&& has_id(m@, key_id@)
                &&& exists|i: int|
                    #![auto]
                    {
                        &&& 0 <= i < m@.len()
                        &&& m@[i].key_id == key_id@
                        &&& specs_match_entry(specs, m@[i])
                        &&& shape matches CallShape::Read { key_hash, owner } && key_hash@
                            == key_hash_spec(key_id) && owner@ == m@[i].owner
                    }
            },
            Err(e) => {
                &&& e matches ClientError::KeyNotFound(k) && k@ == key_id@
                &&& !has_id(m@, key_id@)
            },
        },
{
    let (specs, owner) = lookup_call_context(m, key_id)?;
    Ok((specs, CallShape::Read { key_hash: key_hash(key_id), owner }))
}

/// Validates an update and assembles its call: lookup first, then the
/// payload.
pub fn prepare_update(m: &Mirror, key_id: &str, data_hex: &str, timeout: u64) -> (r: Result<
    (ContractSpecs, CallShape),
    ClientError,
>)
    ensures
        match r {
            Ok((specs, shape)) => {
                &&& has_id(m@, key_id@)
                &&& is_hex_payload(data_hex@)
                &&& exists|i: int|
                    #![auto]
                    {
                        &&& 0 <= i < m@.len()
                        &&& m@[i].key_id == key_id@
                        &&& specs_match_entry(specs, m@[i])
                        &&& shape matches CallShape::Update { key_hash, owner, data, timeout: t }
                            && key_hash@ == key_hash_spec(key_id) && owner@ == m@[i].owner
                            && data@ == hex_bytes(data_hex@) && t == timeout
                    }
            },
            Err(e) => match e {
                ClientError::KeyNotFound(k) => k@ == key_id@ && !has_id(m@, key_id@),
                ClientError::InvalidHex(t) => t@ == data_hex@ && has_id(m@, key_id@)
                    && !is_hex_payload(data_hex@),
                _ => false,
            },
        },
{
    let (specs, owner) = lookup_call_context(m, key_id)?;
    let data = decode_hex(data_hex)?;
    Ok((specs, CallShape::Update { key_hash: key_hash(key_id), owner, data, timeout }))
}

/// Validates a custodian assignment and assembles its call: lookup
/// first, then the role label, then the address.
pub fn prepare_set_custodian(
    m: &Mirror,
    key_id: &str,
    user_address: &str,
    role_str: &str,
    can_ping: bool,
) -> (r: Result<(ContractSpecs, CallShape), ClientError>)
    ensures
        match r {
            Ok((specs, shape)) => {
                &&& has_id(m@, key_id@)
                &&& plain_str(lower_seq(user_address@)) && lower_seq(user_address@).len() > 0
                &&& exists|i: int|
                    #![auto]
                    {
                        &&& 0 <= i < m@.len()
                        &&& m@[i].key_id == key_id@
                        &&& specs_match_entry(specs, m@[i])
                        &&& shape matches CallShape::SetCustodian {
                            key_hash,
                            owner,
                            custodian,
                            role_code,
                            can_ping: cp,
                        } && key_hash@ == key_hash_spec(key_id) && owner@ == m@[i].owner
                            && custodian@ == user_address@ && (exists|role: Role|
                            Role::of_label_spec(role_str@) == Option::Some(role) && role_code
                                == role.wire_spec()) && cp == can_ping
                    }
            },
            Err(e) => match e {
                ClientError::KeyNotFound(k) => k@ == key_id@ && !has_id(m@, key_id@),
                ClientError::InvalidRole(t) => t@ == role_str@ && has_id(m@, key_id@)
                    && Role::of_label_spec(role_str@) is None,
                ClientError::InvalidAddress(a) => a@ == user_address@ && has_id(m@, key_id@)
                    && Role::of_label_spec(role_str@) is Some && !(plain_str(
                    lower_seq(user_address@),
                ) && lower_seq(user_address@).len() > 0),
                _ => false,
            },
        },
{
    let (specs, owner) = lookup_call_context(m, key_id)?;
    let role = Role::parse_role(role_str)?;
    let lowered = lower_ascii(user_address);
    if !(is_plain(lowered.as_str()) && lowered.as_str().unicode_len() > 0) {
        return Err(ClientError::InvalidAddress(String::from_str(user_address)));
    }
    Ok(
        (
            specs,
            CallShape::SetCustodian {
                key_hash: key_hash(key_id),
                owner,
                custodian: String::from_str(user_address),
                role_code: role.to_wire(),
                can_ping,
            },
        ),
    )
}

/// Validates a custodian removal and assembles its call.
pub fn prepare_remove_custodian(m: &Mirror, key_id: &str, user_address: &str) -> (r: Result<
    (ContractSpecs, CallShape),
    ClientError,
>)
    ensures
        match r {
            Ok((specs, shape)) => {
                &&& has_id(m@, key_id@)
                &&& exists|i: int|
                    #![auto]
                    {
                        &&& 0 <= i < m@.len()
                        &&& m@[i].key_id == key_id@
                        &&& specs_match_entry(specs, m@[i])
                        &&& shape matches CallShape::RemoveCustodian { key_hash, owner, custodian }
                            && key_hash@ == key_hash_spec(key_id) && owner@ == m@[i].owner
                            && custodian@ == user_address@
                    }
            },
            Err(e) => {
                &&& e matches ClientError::KeyNotFound(k) && k@ == key_id@
                &&& !has_id(m@, key_id@)
            },
        },
{
    let (specs, owner) = lookup_call_context(m, key_id)?;
    Ok(
        (
            specs,
            CallShape::RemoveCustodian {
                key_hash: key_hash(key_id),
                owner,
                custodian: String::from_str(user_address),
            },
        ),
    )
}

/// The record a confirmed create installs in the mirror: the owner is
/// the address derived from the signer's key material unless an
/// explicit owner was supplied, in which case that owner is stored in
/// canonical lower case.
pub open spec fn created_record(
    specs: ContractSpecs,
    key_id: Seq<char>,
    owner: Seq<char>,
    timeout: u64,
) -> KeyRecordView {
    KeyRecordView {
        key_id: key_id,
        contract_address: specs.contract_addr@,
        private_key_path: specs.priv_key_path@,
        owner: owner,
        network: match specs.ctx.network {
            Option::Some(n) => Option::Some(n@),
            Option::None => Option::None,
        },
        rpc_url: specs.ctx.rpc_url@,
        timeout: timeout,
        data: Option::None,
        last_ping_timestamp: Option::None,
        custodians: Seq::empty(),
    }
}

/// Installs a freshly created key in the mirror, after (and only
/// after) the on-chain create was confirmed or bypassed in mock mode.
/// The owner is derived from the cached key material when none is
/// given.  An id collision is reported as a conflict without touching
/// the mirror: the on-chain effect is already irreversible, so the
/// operator is warned instead.
pub fn commit_create(m: &mut Mirror, specs: &ContractSpecs, key_data: &KeyData) -> (r: Result<
    (),
    ClientError,
>)
    requires
        old(m).wf(),
    ensures
        final(m).wf(),
        match r {
            Ok(()) => {
                &&& !has_id(old(m)@, key_data.id@)
                &&& exists|ow: Seq<char>|
                    #![auto]
                    {
                        &&& final(m)@ == old(m)@.push(
                            created_record(*specs, key_data.id@, ow, key_data.timeout),
                        )
                        &&& (match key_data.owner {
                            Option::Some(o) => ow == lower_seq(o@),
                            Option::None => specs.priv_key matches Option::Some(k)
                                && address_of_secret(k@) == Option::Some(ow),
                        })
                    }
            },
            Err(e) => {
                &&& final(m)@ == old(m)@
                &&& match e {
                    ClientError::DuplicateKey(k) => k@ == key_data.id@ && has_id(
                        old(m)@,
                        key_data.id@,
                    ),
                    ClientError::InvalidPrivateKey(p) => {
                        &&& key_data.owner is None
                        &&& p@ == specs.priv_key_path@
                        &&& (specs.priv_key is None || address_of_secret(
                            specs.priv_key->0@,
                        ) is None)
                    },
                    ClientError::InvalidField(_) => exists|ow: Seq<char>|
                        #![auto]
                        {
                            &&& (match key_data.owner {
                                Option::Some(o) => ow == lower_seq(o@),
                                Option::None => specs.priv_key matches Option::Some(k)
                                    && address_of_secret(k@) == Option::Some(ow),
                            })
                            &&& !crate::records::wf_record(
                                created_record(*specs, key_data.id@, ow, key_data.timeout),
                            )
                        },
                    _ => false,
                }
            },
        },
{
    let owner: String = match &key_data.owner {
        Option::Some(o) => lower_ascii(o.as_str()),
        Option::None => {
            let sk = match &specs.priv_key {
                Option::Some(sk) => sk,
                Option::None => {
                    proof {
                        assert(final(m)@ =~= old(m)@);
                    }
                    return Err(
                        ClientError::InvalidPrivateKey(specs.priv_key_path.clone()),
                    );
                },
            };
            match derive_address(sk.as_str()) {
                Option::Some(a) => a,
                Option::None => {
                    proof {
                        assert(final(m)@ =~= old(m)@);
                    }
                    return Err(
                        ClientError::InvalidPrivateKey(specs.priv_key_path.clone()),
                    );
                },
            }
        },
    };
    let rec = KeyRecord {
        key_id: key_data.id.clone(),
        contract_address: specs.contract_addr.clone(),
        private_key_path: specs.priv_key_path.clone(),
        owner,
        network: match &specs.ctx.network {
            Option::Some(n) => Option::Some(n.clone()),
            Option::None => Option::None,
        },
        rpc_url: specs.ctx.rpc_url.clone(),
        timeout: key_data.timeout,
        data: Option::None,
        last_ping_timestamp: Option::None,
        custodians: Vec::new(),
    };
    let ghost rv = rec@;
    let ghost ow = rec@.owner;
    proof {
        assert(rv.custodians =~= Seq::<crate::records::CustodianView>::empty());
        assert(rv == created_record(*specs, key_data.id@, ow, key_data.timeout));
    }
    if !rec.is_well_formed() {
        proof {
            assert(final(m)@ =~= old(m)@);
        }
        return Err(ClientError::InvalidField(String::from_str("key entry")));
    }
    let r = m.insert(rec);
    proof {
        if r is Ok {
            assert(final(m)@ == old(m)@.push(created_record(*specs, key_data.id@, ow, key_data.timeout)));
            assert(match key_data.owner {
                Option::Some(o) => ow == lower_seq(o@),
                Option::None => specs.priv_key matches Option::Some(k) && address_of_secret(k@)
                    == Option::Some(ow),
            });
        }
    }
    r
}

/// Hex digits are storable characters.
proof fn lemma_hex_payload_plain(s: Seq<char>)
    requires
        is_hex_payload(s),
    ensures
        plain_str(s),
{
    assert forall|i: int| 0 <= i < s.len() implies crate::text::plain_char(#[trigger] s[i]) by {
        assert(crate::hexdata::is_hex_digit(s[i]));
        assert('"' as int == 34 && '\\' as int == 92);
    }
}

/// The create command with the on-chain call bypassed: validate the
/// payload, then install the record, whose owner is derived from the
/// cached key material.
pub fn run_create_mock(
    m: &mut Mirror,
    specs: &ContractSpecs,
    key_id: &str,
    data_hex: &str,
    timeout: u64,
) -> (r: Result<(), ClientError>)
    requires
        old(m).wf(),
    ensures
        final(m).wf(),
        match r {
            Ok(()) => {
                &&& is_hex_payload(data_hex@)
                &&& !has_id(old(m)@, key_id@)
                &&& exists|ow: Seq<char>|
                    #![auto]
                    {
                        &&& specs.priv_key matches Option::Some(k) && address_of_secret(k@)
                            == Option::Some(ow)
                        &&& final(m)@ == old(m)@.push(
                            created_record(*specs, key_id@, ow, timeout),
                        )
                    }
            },
            Err(e) => {
                &&& final(m)@ == old(m)@
                &&& match e {
                    ClientError::InvalidHex(t) => t@ == data_hex@ && !is_hex_payload(data_hex@),
                    ClientError::DuplicateKey(k) => k@ == key_id@ && has_id(old(m)@, key_id@),
                    ClientError::InvalidPrivateKey(p) => {
                        &&& p@ == specs.priv_key_path@
                        &&& (specs.priv_key is None || address_of_secret(
                            specs.priv_key->0@,
                        ) is None)
                    },
                    ClientError::InvalidField(_) => exists|ow: Seq<char>|
                        #![auto]
                        {
                            &&& specs.priv_key matches Option::Some(k) && address_of_secret(k@)
                                == Option::Some(ow)
                            &&& !crate::records::wf_record(
                                created_record(*specs, key_id@, ow, timeout),
                            )
                        },
                    _ => false,
                }
            },
        },
{
    let shape = prepare_create(key_id, data_hex, timeout)?;
    let key_data = KeyData { id: String::from_str(key_id), owner: Option::None, timeout };
    commit_create(m, specs, &key_data)
}

/// The ping command with the on-chain call bypassed: an id absent from
/// the mirror fails before any network interaction and leaves the
/// mirror unchanged; otherwise the liveness timestamp is recorded.
pub fn run_ping_mock(m: &mut Mirror, key_id: &str, ts: u64) -> (r: Result<(), ClientError>)
    requires
        old(m).wf(),
    ensures
        final(m).wf(),
        match r {
            Ok(()) => exists|i: int|
                #![auto]
                0 <= i < old(m)@.len() && old(m)@[i].key_id == key_id@ && final(m)@ == old(
                    m,
                )@.update(
                    i,
                    KeyRecordView {
                        last_ping_timestamp: Option::Some(
                            bumped_timestamp(old(m)@[i].last_ping_timestamp, ts),
                        ),
                        ..old(m)@[i]
                    },
                ),
            Err(e) => {
                &&& e matches ClientError::KeyNotFound(k) && k@ == key_id@
                &&& !has_id(old(m)@, key_id@)
                &&& final(m)@ == old(m)@
            },
        },
{
    let prepared = prepare_ping(m, key_id)?;
    match m.record_ping(key_id, ts) {
        Ok(()) => Ok(()),
        Err(e) => {
            proof {
                assert(false);
            }
            Err(e)
        },
    }
}

/// The update command with the on-chain call bypassed: lookup first,
/// then the payload; on success the entry's data and timeout reflect
/// the update.
pub fn run_update_mock(m: &mut Mirror, key_id: &str, data_hex: &str, timeout: u64) -> (r: Result<
    (),
    ClientError,
>)
    requires
        old(m).wf(),
    ensures
        final(m).wf(),
        match r {
            Ok(()) => {
                &&& is_hex_payload(data_hex@)
                &&& exists|i: int|
                    #![auto]
                    0 <= i < old(m)@.len() && old(m)@[i].key_id == key_id@ && final(m)@ == old(
                        m,
                    )@.update(
                        i,
                        KeyRecordView {
                            data: Option::Some(data_hex@),
                            timeout: timeout,
                            ..old(m)@[i]
                        },
                    )
            },
            Err(e) => {
                &&& final(m)@ == old(m)@
                &&& match e {
                    ClientError::KeyNotFound(k) => k@ == key_id@ && !has_id(old(m)@, key_id@),
                    ClientError::InvalidHex(t) => t@ == data_hex@ && !is_hex_payload(data_hex@),
                    _ => false,
                }
            },
        },
{
    let prepared = prepare_update(m, key_id, data_hex, timeout)?;
    proof {
        lemma_hex_payload_plain(data_hex@);
    }
    match m.set_data_timeout(key_id, data_hex, timeout) {
        Ok(()) => Ok(()),
        Err(e) => {
            proof {
                assert(false);
            }
            Err(e)
        },
    }
}

/// The delete command with the on-chain call bypassed: on success the
/// mirror no longer holds an entry with the id; deleting again fails.
pub fn run_delete_mock(m: &mut Mirror, key_id: &str) -> (r: Result<(), ClientError>)
    requires
        old(m).wf(),
    ensures
        final(m).wf(),
        match r {
            Ok(()) => {
                &&& has_id(old(m)@, key_id@)
                &&& !has_id(final(m)@, key_id@)
                &&& exists|i: int|
                    0 <= i < old(m)@.len() && old(m)@[i].key_id == key_id@ && final(m)@ == old(
                        m,
                    )@.remove(i)
            },
            Err(e) => {
                &&& e matches ClientError::KeyNotFound(k) && k@ == key_id@
                &&& !has_id(old(m)@, key_id@)
                &&& final(m)@ == old(m)@
            },
        },
{
    let prepared = prepare_delete(m, key_id)?;
    match m.remove(key_id) {
        Ok(()) => Ok(()),
        Err(e) => {
            proof {
                assert(false);
            }
            Err(e)
        },
    }
}

/// The custodian-assignment command with the on-chain call bypassed:
/// an existing record for the same canonical address is overwritten,
/// so assigning twice keeps exactly one record carrying the second
/// call's values.
pub fn run_set_custodian_mock(
    m: &mut Mirror,
    key_id: &str,
    user_address: &str,
    role_str: &str,
    can_ping: bool,
) -> (r: Result<bool, ClientError>)
    requires
        old(m).wf(),
    ensures
        final(m).wf(),
        match r {
            Ok(updated) => exists|role: Role|
                #![auto]
                {
                    &&& Role::of_label_spec(role_str@) == Option::Some(role)
                    &&& exists|i: int|
                        #![auto]
                        {
                            &&& 0 <= i < old(m)@.len()
                            &&& old(m)@[i].key_id == key_id@
                            &&& updated == crate::custodians::has_custodian(
                                old(m)@[i].custodians,
                                lower_seq(user_address@),
                            )
                            &&& final(m)@ == old(m)@.update(
                                i,
                                KeyRecordView {
                                    custodians: crate::custodians::set_custodian_spec(
                                        old(m)@[i].custodians,
                                        crate::records::CustodianView {
                                            address: lower_seq(user_address@),
                                            role: role,
                                            can_ping: can_ping,
                                        },
                                    ),
                                    ..old(m)@[i]
                                },
                            )
                        }
                },
            Err(e) => {
                &&& final(m)@ == old(m)@
                &&& match e {
                    ClientError::KeyNotFound(k) => k@ == key_id@ && !has_id(old(m)@, key_id@),
                    ClientError::InvalidRole(t) => t@ == role_str@ && Role::of_label_spec(
                        role_str@,
                    ) is None,
                    ClientError::InvalidAddress(a) => a@ == user_address@
                        && Role::of_label_spec(role_str@) is Some && !(plain_str(
                        lower_seq(user_address@),
                    ) && lower_seq(user_address@).len() > 0),
                    _ => false,
                }
            },
        },
{
    let prepared = prepare_set_custodian(m, key_id, user_address, role_str, can_ping)?;
    let role = match Role::parse_role(role_str) {
        Ok(role) => role,
        Err(e) => {
            proof {
                assert(false);
            }
            return Err(e);
        },
    };
    let data = CustodianData { role, can_ping, address: String::from_str(user_address) };
    match m.set_custodian(key_id, &data) {
        Ok(updated) => Ok(updated),
        Err(e) => {
            proof {
                assert(false);
            }
            Err(e)
        },
    }
}

/// The custodian-removal command with the on-chain call bypassed: a
/// custodian absent from the entry is not an error and the list is
/// left untouched.
pub fn run_remove_custodian_mock(m: &mut Mirror, key_id: &str, user_address: &str) -> (r: Result<
    bool,
    ClientError,
>)
    requires
        old(m).wf(),
    ensures
        final(m).wf(),
        match r {
            Ok(removed) => exists|i: int|
                #![auto]
                {
                    &&& 0 <= i < old(m)@.len()
                    &&& old(m)@[i].key_id == key_id@
                    &&& removed == crate::custodians::has_custodian(
                        old(m)@[i].custodians,
                        lower_seq(user_address@),
                    )
                    &&& final(m)@ == old(m)@.update(
                        i,
                        KeyRecordView {
                            custodians: crate::custodians::remove_custodian_spec(
                                old(m)@[i].custodians,
                                lower_seq(user_address@),
                            ),
                            ..old(m)@[i]
                        },
                    )
                },
            Err(e) => {
                &&& e matches ClientError::KeyNotFound(k) && k@ == key_id@
                &&& !has_id(old(m)@, key_id@)
                &&& final(m)@ == old(m)@
            },
        },
{
    let prepared = prepare_remove_custodian(m, key_id, user_address)?;
    match m.remove_custodian(key_id, user_address) {
        Ok(removed) => Ok(removed),
        Err(e) => {
            proof {
                assert(false);
            }
            Err(e)
        },
    }
}

} // verus!
