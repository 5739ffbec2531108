use vstd::prelude::*;
use crate::records::{CustodianRecord, CustodianView};
use crate::text::str_eq;

verus! {

/// Some custodian in the list carries this address.
pub open spec fn has_custodian(cs: Seq<CustodianView>, a: Seq<char>) -> bool {
    exists|j: int| 0 <= j < cs.len() && cs[j].address == a
}

/// The custodian list after assigning `cv`: the first record with the
/// same address is overwritten in place, otherwise `cv` is appended.
pub open spec fn set_custodian_spec(cs: Seq<CustodianView>, cv: CustodianView) -> Seq<
    CustodianView,
>
    decreases cs.len(),
{
    if cs.len() == 0 {
        seq![cv]
    } else if cs[0].address == cv.address {
        seq![cv] + cs.drop_first()
    } else {
        seq![cs[0]] + set_custodian_spec(cs.drop_first(), cv)
    }
}

/// The custodian list after removing every record with address `a`.
pub open spec fn remove_custodian_spec(cs: Seq<CustodianView>, a: Seq<char>) -> Seq<CustodianView>
    decreases cs.len(),
{
    if cs.len() == 0 {
        Seq::empty()
    } else if cs[0].address == a {
        remove_custodian_spec(cs.drop_first(), a)
    } else {
        seq![cs[0]] + remove_custodian_spec(cs.drop_first(), a)
    }
}

/// Assigning over a list whose first match sits at `j` overwrites
/// exactly position `j`.
pub proof fn lemma_set_custodian_at(cs: Seq<CustodianView>, cv: CustodianView, j: int)
    requires
        0 <= j < cs.len(),
        cs[j].address == cv.address,
        forall|k: int| 0 <= k < j ==> cs[k].address != cv.address,
    ensures
        set_custodian_spec(cs, cv) == cs.update(j, cv),
    decreases j,
{
    if j == 0 {
        assert(set_custodian_spec(cs, cv) =~= cs.update(0, cv));
    } else {
        lemma_set_custodian_at(cs.drop_first(), cv, j - 1);
        assert(set_custodian_spec(cs, cv) =~= cs.update(j, cv));
    }
}

/// Assigning an address that is absent appends the record.
pub proof fn lemma_set_custodian_absent(cs: Seq<CustodianView>, cv: CustodianView)
    requires
        !has_custodian(cs, cv.address),
    ensures
        set_custodian_spec(cs, cv) == cs.push(cv),
    decreases cs.len(),
{
    if cs.len() == 0 {
        assert(set_custodian_spec(cs, cv) =~= cs.push(cv));
    } else {
        assert(cs[0].address != cv.address);
        assert(!has_custodian(cs.drop_first(), cv.address)) by {
            assert(forall|j: int|
                0 <= j < cs.drop_first().len() ==> cs.drop_first()[j] == cs[j + 1]);
        }
        lemma_set_custodian_absent(cs.drop_first(), cv);
        assert(set_custodian_spec(cs, cv) =~= cs.push(cv));
    }
}

/// Removing an address whose single occurrence sits at `j` drops
/// exactly position `j`.
pub proof fn lemma_remove_custodian_at(cs: Seq<CustodianView>, a: Seq<char>, j: int)
    requires
        0 <= j < cs.len(),
        cs[j].address == a,
        forall|k: int| 0 <= k < cs.len() && k != j ==> cs[k].address != a,
    ensures
        remove_custodian_spec(cs, a) == cs.remove(j),
    decreases cs.len(),
{
    if j == 0 {
        assert(forall|k: int|
            0 <= k < cs.drop_first().len() ==> cs.drop_first()[k] == cs[k + 1]);
        lemma_remove_custodian_absent(cs.drop_first(), a);
        assert(remove_custodian_spec(cs, a) =~= cs.remove(0));
    } else {
        assert(forall|k: int|
            0 <= k < cs.drop_first().len() ==> cs.drop_first()[k] == cs[k + 1]);
        lemma_remove_custodian_at(cs.drop_first(), a, j - 1);
        assert(remove_custodian_spec(cs, a) =~= cs.remove(j));
    }
}

/// Removing an address that no custodian carries leaves the list
/// unchanged.
pub proof fn lemma_remove_custodian_absent(cs: Seq<CustodianView>, a: Seq<char>)
    requires
        !has_custodian(cs, a),
    ensures
        remove_custodian_spec(cs, a) == cs,
    decreases cs.len(),
{
    if cs.len() == 0 {
        assert(remove_custodian_spec(cs, a) =~= cs);
    } else {
        assert(cs[0].address != a);
        assert(!has_custodian(cs.drop_first(), a)) by {
            assert(forall|j: int|
                0 <= j < cs.drop_first().len() ==> cs.drop_first()[j] == cs[j + 1]);
        }
        lemma_remove_custodian_absent(cs.drop_first(), a);
        assert(remove_custodian_spec(cs, a) =~= cs);
    }
}

/// The assigned record is present after an assignment.
pub proof fn lemma_set_custodian_contains(cs: Seq<CustodianView>, cv: CustodianView)
    ensures
        exists|j: int|
            0 <= j < set_custodian_spec(cs, cv).len() && set_custodian_spec(cs, cv)[j] == cv,
    decreases cs.len(),
{
    if cs.len() == 0 {
        assert(set_custodian_spec(cs, cv)[0] == cv);
    } else if cs[0].address == cv.address {
        assert(set_custodian_spec(cs, cv)[0] == cv);
    } else {
        lemma_set_custodian_contains(cs.drop_first(), cv);
        let j = choose|j: int|
            0 <= j < set_custodian_spec(cs.drop_first(), cv).len() && set_custodian_spec(
                cs.drop_first(),
                cv,
            )[j] == cv;
        assert(set_custodian_spec(cs, cv)[j + 1] == cv);
    }
}

/// Two consecutive assignments for the same address behave as the
/// second alone: the earlier role and ping flag are fully overwritten.
pub proof fn lemma_set_custodian_idempotent(
    cs: Seq<CustodianView>,
    cv1: CustodianView,
    cv2: CustodianView,
)
    requires
        cv1.address == cv2.address,
    ensures
        set_custodian_spec(set_custodian_spec(cs, cv1), cv2) == set_custodian_spec(cs, cv2),
    decreases cs.len(),
{
    if cs.len() == 0 {
        assert(set_custodian_spec(set_custodian_spec(cs, cv1), cv2) =~= set_custodian_spec(
            cs,
            cv2,
        ));
    } else if cs[0].address == cv1.address {
        assert(set_custodian_spec(cs, cv1) =~= seq![cv1] + cs.drop_first());
        assert((seq![cv1] + cs.drop_first())[0] == cv1);
        assert(set_custodian_spec(seq![cv1] + cs.drop_first(), cv2) =~= seq![cv2]
            + (seq![cv1] + cs.drop_first()).drop_first());
        assert(set_custodian_spec(set_custodian_spec(cs, cv1), cv2) =~= set_custodian_spec(
            cs,
            cv2,
        ));
    } else {
        let inner = set_custodian_spec(cs.drop_first(), cv1);
        assert(set_custodian_spec(cs, cv1) =~= seq![cs[0]] + inner);
        assert((seq![cs[0]] + inner)[0] == cs[0]);
        assert((seq![cs[0]] + inner).drop_first() =~= inner);
        lemma_set_custodian_idempotent(cs.drop_first(), cv1, cv2);
        assert(set_custodian_spec(set_custodian_spec(cs, cv1), cv2) =~= set_custodian_spec(
            cs,
            cv2,
        ));
    }
}

/// Index of the first custodian with the given address, if any.
pub fn find_custodian_index(cs: &Vec<CustodianRecord>, a: &str) -> (r: Option<usize>)
    ensures
        match r {
            Some(j) => {
                &&& 0 <= j < cs@.len()
                &&& cs@[j as int]@.address == a@
                &&& forall|k: int| 0 <= k < j ==> cs@[k]@.address != a@
            },
            None => forall|k: int| 0 <= k < cs@.len() ==> cs@[k]@.address != a@,
        },
{
    let n = cs.len();
    let mut j: usize = 0;
    while j < n
        invariant
            j <= n,
            n == cs@.len(),
            forall|k: int| 0 <= k < j ==> cs@[k]@.address != a@,
        decreases n - j,
    {
        if str_eq(cs[j].address.as_str(), a) {
            return Option::Some(j);
        }
        j = j + 1;
    }
    Option::None
}

} // verus!
