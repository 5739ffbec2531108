use vstd::prelude::*;
use crate::mirror::{bumped_timestamp, Mirror};
use crate::records::KeyRecordView;

verus! {

/// Whether the scheduler owes another cycle: it runs forever without a
/// bound, and exactly `n` cycles with a bound of `n`.
pub open spec fn should_continue_spec(shots: Option<u64>, completed: u64) -> bool {
    match shots {
        Option::Some(n) => completed < n,
        Option::None => true,
    }
}

pub fn should_continue(shots: &Option<u64>, completed: u64) -> (r: bool)
    ensures
        r == should_continue_spec(*shots, completed),
{
    match shots {
        Option::Some(n) => completed < *n,
        Option::None => true,
    }
}

/// The record after a successful ping at time `ts`: only the
/// timestamp moves, and never backwards.
pub open spec fn pinged_record(r: KeyRecordView, ts: u64) -> KeyRecordView {
    KeyRecordView {
        last_ping_timestamp: Option::Some(bumped_timestamp(r.last_ping_timestamp, ts)),
        ..r
    }
}

/// One scheduler cycle with the on-chain call bypassed: every mirrored
/// key is pinged in order and its timestamp recorded at time `ts`.
/// Returns how many keys were attempted, which is every one.
pub fn run_cycle_mock(m: &mut Mirror, ts: u64) -> (attempts: usize)
    requires
        old(m).wf(),
    ensures
        final(m).wf(),
        attempts == old(m)@.len(),
        final(m)@.len() == old(m)@.len(),
        forall|i: int| 0 <= i < old(m)@.len() ==> final(m)@[i] == pinged_record(
            #[trigger] old(m)@[i],
            ts,
        ),
{
    let n = m.len();
    let mut k: usize = 0;
    while k < n
        invariant
            k <= n,
            m.wf(),
            n == old(m)@.len(),
            m@.len() == n,
            forall|i: int| 0 <= i < k ==> m@[i] == pinged_record(#[trigger] old(m)@[i], ts),
            forall|i: int| k <= i < n ==> m@[i] == old(m)@[i],
        decreases n - k,
    {
        let ghost before = m@;
        let id = m.record_at(k).key_id.clone();
        let r = m.record_ping(id.as_str(), ts);
        proof {
            assert(before[k as int].key_id == id@);
            match r {
                Ok(()) => {
                    let i = choose|i: int|
                        #![auto]
                        0 <= i < before.len() && before[i].key_id == id@ && m@ == before.update(
                            i,
                            KeyRecordView {
                                last_ping_timestamp: Option::Some(
                                    bumped_timestamp(before[i].last_ping_timestamp, ts),
                                ),
                                ..before[i]
                            },
                        );
                    if i != k {
                        if i < k {
                            assert(before[i] == pinged_record(old(m)@[i], ts));
                            assert(old(m)@[i].key_id == before[i].key_id);
                        }
                        assert(before[i].key_id == before[k as int].key_id);
                        assert(false);
                    }
                },
                Err(_) => {
                    assert(crate::mirror::has_id(before, id@));
                    assert(false);
                },
            }
        }
        k = k + 1;
    }
    n
}

/// A recorded ping never moves a key's timestamp backwards.
pub proof fn lemma_ping_monotone(r: KeyRecordView, ts: u64)
    ensures
        ({
            let after = pinged_record(r, ts);
            &&& after.last_ping_timestamp is Some
            &&& (r.last_ping_timestamp matches Option::Some(t) ==> after.last_ping_timestamp->0
                >= t)
            &&& after.last_ping_timestamp->0 >= ts || (r.last_ping_timestamp matches Option::Some(
                t,
            ) && after.last_ping_timestamp->0 == t)
        }),
{
}

} // verus!
