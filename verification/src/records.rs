use vstd::prelude::*;
use crate::roles::Role;
use crate::text::{is_plain, no_upper, plain_str};

verus! {

/// One authorized third party for a key: its canonical lower-case
/// address, its role, and whether it may ping.
#[derive(Debug, Clone, PartialEq, Eq)]
pub struct CustodianRecord {
    pub address: String,
    pub role: Role,
    pub can_ping: bool,
}

/// The mathematical value of a `CustodianRecord`.
pub struct CustodianView {
    pub address: Seq<char>,
    pub role: Role,
    pub can_ping: bool,
}

impl View for CustodianRecord {
    type V = CustodianView;

    open spec fn view(&self) -> CustodianView {
        CustodianView { address: self.address@, role: self.role, can_ping: self.can_ping }
    }
}

/// One mirrored key: the metadata the client persists locally for an
/// on-chain key.  Secret material is referenced by path, never stored.
#[derive(Debug, Clone, PartialEq, Eq)]
pub struct KeyRecord {
    pub key_id: String,
    pub contract_address: String,
    pub private_key_path: String,
    pub owner: String,
    pub network: Option<String>,
    pub rpc_url: String,
    pub timeout: u64,
    pub data: Option<String>,
    pub last_ping_timestamp: Option<u64>,
    pub custodians: Vec<CustodianRecord>,
}

/// The mathematical value of a `KeyRecord`.
pub struct KeyRecordView {
    pub key_id: Seq<char>,
    pub contract_address: Seq<char>,
    pub private_key_path: Seq<char>,
    pub owner: Seq<char>,
    pub network: Option<Seq<char>>,
    pub rpc_url: Seq<char>,
    pub timeout: u64,
    pub data: Option<Seq<char>>,
    pub last_ping_timestamp: Option<u64>,
    pub custodians: Seq<CustodianView>,
}

impl View for KeyRecord {
    type V = KeyRecordView;

    open spec fn view(&self) -> KeyRecordView {
        KeyRecordView {
            key_id: self.key_id@,
            contract_address: self.contract_address@,
            private_key_path: self.private_key_path@,
            owner: self.owner@,
            network: match self.network {
                Option::Some(n) => Option::Some(n@),
                Option::None => Option::None,
            },
            rpc_url: self.rpc_url@,
            timeout: self.timeout,
            data: match self.data {
                Option::Some(d) => Option::Some(d@),
                Option::None => Option::None,
            },
            last_ping_timestamp: self.last_ping_timestamp,
            custodians: Seq::new(self.custodians@.len(), |i: int| self.custodians@[i]@),
        }
    }
}

/// A well-formed custodian: a non-empty address of storable characters,
/// already lower-cased.
pub open spec fn wf_custodian(c: CustodianView) -> bool {
    &&& plain_str(c.address)
    &&& no_upper(c.address)
    &&& c.address.len() > 0
}

/// At most one custodian per address.
pub open spec fn custodians_unique(cs: Seq<CustodianView>) -> bool {
    forall|i: int, j: int| 0 <= i < j < cs.len() ==> cs[i].address != cs[j].address
}

pub open spec fn wf_opt_str(o: Option<Seq<char>>) -> bool {
    match o {
        Option::Some(s) => plain_str(s),
        Option::None => true,
    }
}

/// A well-formed key record: every stored string is made of storable
/// characters, the id is non-empty, the owner address is canonical
/// lower-case, and the custodian list is unique by address.
pub open spec fn wf_record(r: KeyRecordView) -> bool {
    &&& plain_str(r.key_id)
    &&& r.key_id.len() > 0
    &&& plain_str(r.contract_address)
    &&& plain_str(r.private_key_path)
    &&& plain_str(r.owner)
    &&& no_upper(r.owner)
    &&& wf_opt_str(r.network)
    &&& plain_str(r.rpc_url)
    &&& wf_opt_str(r.data)
    &&& (forall|i: int| 0 <= i < r.custodians.len() ==> wf_custodian(#[trigger] r.custodians[i]))
    &&& custodians_unique(r.custodians)
}

impl CustodianRecord {
    pub fn is_well_formed(&self) -> (r: bool)
        ensures
            r == wf_custodian(self@),
    {
        let mut ok = is_plain(self.address.as_str());
        ok = ok && self.address.as_str().unicode_len() > 0;
        if !ok {
            return false;
        }
        no_upper_exec(self.address.as_str())
    }
}

/// Whether a string has no upper-case ASCII letter.
pub fn no_upper_exec(s: &str) -> (r: bool)
    ensures
        r == no_upper(s@),
{
    let n = s.unicode_len();
    let mut i: usize = 0;
    while i < n
        invariant
            i <= n,
            n == s@.len(),
            forall|j: int| 0 <= j < i ==> !(65 <= #[trigger] s@[j] as int && s@[j] as int <= 90),
        decreases n - i,
    {
        let u = s.get_char(i) as u32;
        if 65 <= u && u <= 90 {
            return false;
        }
        i = i + 1;
    }
    true
}

impl KeyRecord {
    pub fn is_well_formed(&self) -> (r: bool)
        ensures
            r == wf_record(self@),
    {
        if !(is_plain(self.key_id.as_str()) && self.key_id.as_str().unicode_len() > 0) {
            return false;
        }
        if !is_plain(self.contract_address.as_str()) {
            return false;
        }
        if !is_plain(self.private_key_path.as_str()) {
            return false;
        }
        if !(is_plain(self.owner.as_str()) && no_upper_exec(self.owner.as_str())) {
            return false;
        }
        match &self.network {
            Option::Some(n) => {
                if !is_plain(n.as_str()) {
                    return false;
                }
            },
            Option::None => {},
        }
        if !is_plain(self.rpc_url.as_str()) {
            return false;
        }
        match &self.data {
            Option::Some(d) => {
                if !is_plain(d.as_str()) {
                    return false;
                }
            },
            Option::None => {},
        }
        let n = self.custodians.len();
        let mut i: usize = 0;
        while i < n
            invariant
                i <= n,
                n == self.custodians@.len(),
                forall|j: int| 0 <= j < i ==> wf_custodian(#[trigger] self@.custodians[j]),
                forall|j: int, k: int|
                    0 <= j < k < i ==> self@.custodians[j].address != self@.custodians[k].address,
            decreases n - i,
        {
            if !self.custodians[i].is_well_formed() {
                return false;
            }
            let mut j: usize = 0;
            while j < i
                invariant
                    j <= i < n,
                    n == self.custodians@.len(),
                    forall|k: int|
                        0 <= k < j ==> self@.custodians[k].address != self@.custodians[i as int].address,
                decreases i - j,
            {
                if crate::text::str_eq(
                    self.custodians[j].address.as_str(),
                    self.custodians[i].address.as_str(),
                ) {
                    proof {
                        let ji = j as int;
                        let ii = i as int;
                        assert(self@.custodians[ji].address == self@.custodians[ii].address);
                        assert(!custodians_unique(self@.custodians));
                    }
                    return false;
                }
                j = j + 1;
            }
            i = i + 1;
        }
        true
    }
}

} // verus!
