use vstd::prelude::*;
use crate::custodians::{
    find_custodian_index, has_custodian, lemma_remove_custodian_at, lemma_remove_custodian_absent,
    lemma_set_custodian_absent, lemma_set_custodian_at, remove_custodian_spec, set_custodian_spec,
};
use crate::errors::ClientError;
use crate::records::{
    custodians_unique, wf_record, CustodianRecord, CustodianView, KeyRecord, KeyRecordView,
};
use crate::text::{is_plain, lower_ascii, lower_seq, plain_str, str_eq};

verus! {

/// Some record in the mirror carries this id.
pub open spec fn has_id(s: Seq<KeyRecordView>, id: Seq<char>) -> bool {
    exists|i: int| 0 <= i < s.len() && s[i].key_id == id
}

/// Ids are unique across the mirror.
pub open spec fn ids_unique(s: Seq<KeyRecordView>) -> bool {
    forall|i: int, j: int| 0 <= i < j < s.len() ==> s[i].key_id != s[j].key_id
}

/// The timestamp a successful ping leaves behind: the given time, but
/// never moving an already later timestamp backwards.
pub open spec fn bumped_timestamp(old_ts: Option<u64>, ts: u64) -> u64 {
    match old_ts {
        Option::Some(t) => if t >= ts {
            t
        } else {
            ts
        },
        Option::None => ts,
    }
}

/// The local persisted store of key records, mirroring on-chain key
/// existence and metadata.  It is the single source of local truth but
/// never authoritative over the chain.
#[derive(Debug, Clone, PartialEq, Eq)]
pub struct Mirror {
    records: Vec<KeyRecord>,
}

impl View for Mirror {
    type V = Seq<KeyRecordView>;

    closed spec fn view(&self) -> Seq<KeyRecordView> {
        Seq::new(self.records@.len(), |i: int| self.records@[i]@)
    }
}

impl Mirror {
    /// Every record is well formed and no id repeats.
    pub open spec fn wf(&self) -> bool {
        &&& ids_unique(self@)
        &&& forall|i: int| 0 <= i < self@.len() ==> wf_record(#[trigger] self@[i])
    }

    /// The empty mirror: what reading an absent backing store yields.
    pub fn new() -> (m: Mirror)
        ensures
            m@ =~= Seq::<KeyRecordView>::empty(),
            m.wf(),
    {
        Mirror { records: Vec::new() }
    }

    pub fn len(&self) -> (n: usize)
        ensures
            n == self@.len(),
    {
        self.records.len()
    }

    pub fn record_at(&self, i: usize) -> (r: &KeyRecord)
        requires
            i < self@.len(),
        ensures
            r@ == self@[i as int],
    {
        &self.records[i]
    }

    /// Index of the record with the given id, if any.
    pub fn find_index(&self, id: &str) -> (r: Option<usize>)
        ensures
            match r {
                Some(i) => {
                    &&& 0 <= i < self@.len()
                    &&& self@[i as int].key_id == id@
                    &&& forall|k: int| 0 <= k < i ==> self@[k].key_id != id@
                },
                None => !has_id(self@, id@),
            },
    {
        let n = self.records.len();
        let mut i: usize = 0;
        while i < n
            invariant
                i <= n,
                n == self@.len(),
                forall|k: int| 0 <= k < i ==> self@[k].key_id != id@,
            decreases n - i,
        {
            if str_eq(self.records[i].key_id.as_str(), id) {
                return Option::Some(i);
            }
            i = i + 1;
        }
        Option::None
    }

    pub fn contains_id(&self, id: &str) -> (r: bool)
        ensures
            r == has_id(self@, id@),
    {
        self.find_index(id).is_some()
    }

    /// The record with the given id, if any.
    pub fn get_record(&self, id: &str) -> (r: Option<&KeyRecord>)
        ensures
            match r {
                Some(rec) => {
                    &&& has_id(self@, id@)
                    &&& rec@.key_id == id@
                    &&& exists|i: int| 0 <= i < self@.len() && self@[i] == rec@
                },
                None => !has_id(self@, id@),
            },
    {
        match self.find_index(id) {
            Option::Some(i) => {
                let rec = &self.records[i];
                proof {
                    assert(self@[i as int] == rec@);
                }
                Option::Some(rec)
            },
            Option::None => Option::None,
        }
    }

    /// Appends a record under a fresh id; an id collision is reported
    /// as a conflict and changes nothing.
    pub fn insert(&mut self, rec: KeyRecord) -> (r: Result<(), ClientError>)
        requires
            old(self).wf(),
            wf_record(rec@),
        ensures
            final(self).wf(),
            match r {
                Ok(()) => {
                    &&& !has_id(old(self)@, rec@.key_id)
                    &&& final(self)@ == old(self)@.push(rec@)
                },
                Err(e) => {
                    &&& e matches ClientError::DuplicateKey(id) && id@ == rec@.key_id
                    &&& has_id(old(self)@, rec@.key_id)
                    &&& final(self)@ == old(self)@
                },
            },
    {
        match self.find_index(rec.key_id.as_str()) {
            Option::Some(_) => {
                proof {
                    assert(final(self)@ =~= old(self)@);
                }
                Err(ClientError::DuplicateKey(String::from_str(rec.key_id.as_str())))
            },
            Option::None => {
                let ghost before = self@;
                self.records.push(rec);
                proof {
                    assert(self@ =~= before.push(rec@));
                    assert forall|i: int, j: int| 0 <= i < j < self@.len() implies self@[i].key_id
                        != self@[j].key_id by {
                        if j < before.len() {
                        } else {
                            assert(self@[j] == rec@);
                            assert(!has_id(before, rec@.key_id));
                        }
                    }
                }
                Ok(())
            },
        }
    }

    /// Removes the record with the given id; a miss changes nothing.
    pub fn remove(&mut self, id: &str) -> (r: Result<(), ClientError>)
        requires
            old(self).wf(),
        ensures
            final(self).wf(),
            match r {
                Ok(()) => {
                    &&& has_id(old(self)@, id@)
                    &&& !has_id(final(self)@, id@)
                    &&& exists|i: int|
                        0 <= i < old(self)@.len() && old(self)@[i].key_id == id@ && final(self)@
                            == old(self)@.remove(i)
                },
                Err(e) => {
                    &&& e matches ClientError::KeyNotFound(k) && k@ == id@
                    &&& !has_id(old(self)@, id@)
                    &&& final(self)@ == old(self)@
                },
            },
    {
        match self.find_index(id) {
            Option::Some(i) => {
                let ghost before = self@;
                self.records.remove(i);
                proof {
                    assert(self@ =~= before.remove(i as int));
                    assert forall|k: int| 0 <= k < self@.len() implies self@[k].key_id != id@ by {
                        if k < i {
                            assert(self@[k] == before[k]);
                        } else {
                            assert(self@[k] == before[k + 1]);
                        }
                    }
                }
                Ok(())
            },
            Option::None => {
                proof {
                    assert(final(self)@ =~= old(self)@);
                }
                Err(ClientError::KeyNotFound(String::from_str(id)))
            },
        }
    }

    /// Records the payload and timeout an update call installed.
    pub fn set_data_timeout(&mut self, id: &str, data: &str, timeout: u64) -> (r: Result<
        (),
        ClientError,
    >)
        requires
            old(self).wf(),
            plain_str(data@),
        ensures
            final(self).wf(),
            match r {
                Ok(()) => exists|i: int|
                    #![auto]
                    0 <= i < old(self)@.len() && old(self)@[i].key_id == id@ && final(self)@ == old(
                        self,
                    )@.update(
                        i,
                        KeyRecordView {
                            data: Option::Some(data@),
                            timeout: timeout,
                            ..old(self)@[i]
                        },
                    ),
                Err(e) => {
                    &&& e matches ClientError::KeyNotFound(k) && k@ == id@
                    &&& !has_id(old(self)@, id@)
                    &&& final(self)@ == old(self)@
                },
            },
    {
        match self.find_index(id) {
            Option::Some(i) => {
                let ghost before = self@;
                self.records[i].data = Option::Some(String::from_str(data));
                self.records[i].timeout = timeout;
                proof {
                    let rv = KeyRecordView {
                        data: Option::Some(data@),
                        timeout: timeout,
                        ..before[i as int]
                    };
                    assert(self@ =~= before.update(i as int, rv));
                    Self::lemma_same_id_update_wf(before, i as int, rv);
                }
                Ok(())
            },
            Option::None => {
                proof {
                    assert(final(self)@ =~= old(self)@);
                }
                Err(ClientError::KeyNotFound(String::from_str(id)))
            },
        }
    }

    /// Records a successful ping at the given time; the stored
    /// timestamp never decreases.
    pub fn record_ping(&mut self, id: &str, ts: u64) -> (r: Result<(), ClientError>)
        requires
            old(self).wf(),
        ensures
            final(self).wf(),
            match r {
                Ok(()) => exists|i: int|
                    #![auto]
                    0 <= i < old(self)@.len() && old(self)@[i].key_id == id@ && final(self)@ == old(
                        self,
                    )@.update(
                        i,
                        KeyRecordView {
                            last_ping_timestamp: Option::Some(
                                bumped_timestamp(old(self)@[i].last_ping_timestamp, ts),
                            ),
                            ..old(self)@[i]
                        },
                    ),
                Err(e) => {
                    &&& e matches ClientError::KeyNotFound(k) && k@ == id@
                    &&& !has_id(old(self)@, id@)
                    &&& final(self)@ == old(self)@
                },
            },
    {
        match self.find_index(id) {
            Option::Some(i) => {
                let ghost before = self@;
                let new_ts: u64 = match self.records[i].last_ping_timestamp {
                    Option::Some(t) => if t >= ts {
                        t
                    } else {
                        ts
                    },
                    Option::None => ts,
                };
                self.records[i].last_ping_timestamp = Option::Some(new_ts);
                proof {
                    let rv = KeyRecordView {
                        last_ping_timestamp: Option::Some(
                            bumped_timestamp(before[i as int].last_ping_timestamp, ts),
                        ),
                        ..before[i as int]
                    };
                    assert(self@ =~= before.update(i as int, rv));
                    Self::lemma_same_id_update_wf(before, i as int, rv);
                }
                Ok(())
            },
            Option::None => {
                proof {
                    assert(final(self)@ =~= old(self)@);
                }
                Err(ClientError::KeyNotFound(String::from_str(id)))
            },
        }
    }

    /// Assigns a custodian on a key: an existing record for the same
    /// canonical address is overwritten in place, otherwise one is
    /// appended.  Returns whether an existing record was overwritten.
    pub fn set_custodian(&mut self, id: &str, data: &crate::ops::CustodianData) -> (r:
        Result<bool, ClientError>)
        requires
            old(self).wf(),
        ensures
            final(self).wf(),
            match r {
                Ok(updated) => {
                    &&& plain_str(lower_seq(data.address@)) && lower_seq(data.address@).len() > 0
                    &&& exists|i: int|
                        #![auto]
                        {
                            &&& 0 <= i < old(self)@.len()
                            &&& old(self)@[i].key_id == id@
                            &&& updated == has_custodian(
                                old(self)@[i].custodians,
                                lower_seq(data.address@),
                            )
                            &&& final(self)@ == old(self)@.update(
                                i,
                                KeyRecordView {
                                    custodians: set_custodian_spec(
                                        old(self)@[i].custodians,
                                        CustodianView {
                                            address: lower_seq(data.address@),
                                            role: data.role,
                                            can_ping: data.can_ping,
                                        },
                                    ),
                                    ..old(self)@[i]
                                },
                            )
                        }
                },
                Err(e) => {
                    &&& final(self)@ == old(self)@
                    &&& match e {
                        ClientError::InvalidAddress(s) => s@ == data.address@ && !(plain_str(
                            lower_seq(data.address@),
                        ) && lower_seq(data.address@).len() > 0),
                        ClientError::KeyNotFound(k) => k@ == id@ && !has_id(old(self)@, id@)
                            && plain_str(lower_seq(data.address@)) && lower_seq(data.address@).len() > 0,
                        _ => false,
                    }
                },
            },
    {
        let lowered = lower_ascii(data.address.as_str());
        if !(is_plain(lowered.as_str()) && lowered.as_str().unicode_len() > 0) {
            proof {
                assert(final(self)@ =~= old(self)@);
            }
            return Err(ClientError::InvalidAddress(data.address.clone()));
        }
        match self.find_index(id) {
            Option::Some(i) => {
                let ghost before = self@;
                let ghost cvv = CustodianView {
                    address: lower_seq(data.address@),
                    role: data.role,
                    can_ping: data.can_ping,
                };
                let found = find_custodian_index(&self.records[i].custodians, lowered.as_str());
                match found {
                    Option::Some(j) => {
                        let cv = CustodianRecord { address: lowered, role: data.role, can_ping: data.can_ping };
                        self.records[i].custodians[j] = cv;
                        proof {
                            let cs = before[i as int].custodians;
                            lemma_set_custodian_at(cs, cvv, j as int);
                            let rv = KeyRecordView {
                                custodians: set_custodian_spec(cs, cvv),
                                ..before[i as int]
                            };
                            assert(self.records@[i as int]@.custodians =~= cs.update(
                                j as int,
                                cvv,
                            ));
                            assert(self.records@[i as int]@ == rv);
                            assert(self@ =~= before.update(i as int, rv));
                            assert(has_custodian(cs, cvv.address));
                            assert(wf_record(rv)) by {
                                assert(custodians_unique(rv.custodians)) by {
                                    assert(forall|k: int|
                                        0 <= k < cs.len() && k != j ==> cs[k].address
                                            != cs[j as int].address);
                                }
                            }
                            Self::lemma_same_id_update_wf(before, i as int, rv);
                        }
                        Ok(true)
                    },
                    Option::None => {
                        let cv = CustodianRecord { address: lowered, role: data.role, can_ping: data.can_ping };
                        self.records[i].custodians.push(cv);
                        proof {
                            let cs = before[i as int].custodians;
                            lemma_set_custodian_absent(cs, cvv);
                            let rv = KeyRecordView {
                                custodians: set_custodian_spec(cs, cvv),
                                ..before[i as int]
                            };
                            assert(self.records@[i as int]@.custodians =~= cs.push(cvv));
                            assert(self.records@[i as int]@ == rv);
                            assert(self@ =~= before.update(i as int, rv));
                            assert(!has_custodian(cs, cvv.address));
                            assert(wf_record(rv)) by {
                                assert(custodians_unique(rv.custodians)) by {
                                    assert(forall|k: int|
                                        0 <= k < cs.len() ==> cs[k].address != cvv.address);
                                }
                            }
                            Self::lemma_same_id_update_wf(before, i as int, rv);
                        }
                        Ok(false)
                    },
                }
            },
            Option::None => {
                proof {
                    assert(final(self)@ =~= old(self)@);
                }
                Err(ClientError::KeyNotFound(String::from_str(id)))
            },
        }
    }

    /// Removes a custodian from a key by canonical address.  A missing
    /// custodian is not an error: local and on-chain state may already
    /// have diverged, so the list is simply left as it is.  Returns
    /// whether a record was actually removed.
    pub fn remove_custodian(&mut self, id: &str, address: &str) -> (r: Result<bool, ClientError>)
        requires
            old(self).wf(),
        ensures
            final(self).wf(),
            match r {
                Ok(removed) => exists|i: int|
                    #![auto]
                    {
                        &&& 0 <= i < old(self)@.len()
                        &&& old(self)@[i].key_id == id@
                        &&& removed == has_custodian(
                            old(self)@[i].custodians,
                            lower_seq(address@),
                        )
                        &&& final(self)@ == old(self)@.update(
                            i,
                            KeyRecordView {
                                custodians: remove_custodian_spec(
                                    old(self)@[i].custodians,
                                    lower_seq(address@),
                                ),
                                ..old(self)@[i]
                            },
                        )
                    },
                Err(e) => {
                    &&& e matches ClientError::KeyNotFound(k) && k@ == id@
                    &&& !has_id(old(self)@, id@)
                    &&& final(self)@ == old(self)@
                },
            },
    {
        let lowered = lower_ascii(address);
        match self.find_index(id) {
            Option::Some(i) => {
                let ghost before = self@;
                let ghost a = lower_seq(address@);
                let found = find_custodian_index(&self.records[i].custodians, lowered.as_str());
                match found {
                    Option::Some(j) => {
                        self.records[i].custodians.remove(j);
                        proof {
                            let cs = before[i as int].custodians;
                            assert(forall|k: int|
                                0 <= k < cs.len() && k != j ==> cs[k].address != cs[j as int].address);
                            lemma_remove_custodian_at(cs, a, j as int);
                            let rv = KeyRecordView {
                                custodians: remove_custodian_spec(cs, a),
                                ..before[i as int]
                            };
                            assert(self.records@[i as int]@.custodians =~= cs.remove(j as int));
                            assert(self.records@[i as int]@ == rv);
                            assert(self@ =~= before.update(i as int, rv));
                            assert(has_custodian(cs, a));
                            assert(wf_record(rv)) by {
                                assert(forall|p: int, q: int|
                                    0 <= p < q < rv.custodians.len() ==> rv.custodians[p].address
                                        != rv.custodians[q].address);
                            }
                            Self::lemma_same_id_update_wf(before, i as int, rv);
                        }
                        Ok(true)
                    },
                    Option::None => {
                        proof {
                            let cs = before[i as int].custodians;
                            lemma_remove_custodian_absent(cs, a);
                            let rv = KeyRecordView {
                                custodians: remove_custodian_spec(cs, a),
                                ..before[i as int]
                            };
                            assert(rv == before[i as int]);
                            assert(self@ =~= before.update(i as int, rv));
                        }
                        Ok(false)
                    },
                }
            },
            Option::None => {
                proof {
                    assert(final(self)@ =~= old(self)@);
                }
                Err(ClientError::KeyNotFound(String::from_str(id)))
            },
        }
    }

    /// Updating a record in place without changing its id keeps the
    /// mirror well formed, provided the new record itself is.
    proof fn lemma_same_id_update_wf(s: Seq<KeyRecordView>, i: int, rv: KeyRecordView)
        requires
            ids_unique(s),
            forall|k: int| 0 <= k < s.len() ==> wf_record(#[trigger] s[k]),
            0 <= i < s.len(),
            rv.key_id == s[i].key_id,
            wf_record(rv),
        ensures
            ids_unique(s.update(i, rv)),
            forall|k: int| 0 <= k < s.update(i, rv).len() ==> wf_record(#[trigger] s.update(i, rv)[k]),
    {
        let t = s.update(i, rv);
        assert forall|p: int, q: int| 0 <= p < q < t.len() implies t[p].key_id != t[q].key_id by {
            assert(t[p].key_id == s[p].key_id);
            assert(t[q].key_id == s[q].key_id);
        }
        assert forall|k: int| 0 <= k < t.len() implies wf_record(t[k]) by {
            if k != i {
                assert(t[k] == s[k]);
            }
        }
    }
}

} // verus!
