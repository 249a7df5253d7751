use vstd::prelude::*;
use crate::codec::{
    lemma_registry_round_trip, read_registry, read_u32, registry_bytes, registry_fits,
    slot_registry,
};
use crate::engine::{
    applied, has_match, is_first_match, is_match, names_nothing, status_updated, stored, with_status,
    Command, EngineError,
};
use crate::record::{CustomerData, CustomerView};

verus! {

/// A slot whose bytes are all zero, as a freshly allocated one is, holds the
/// empty registry.
pub proof fn lemma_zeroed_slot_is_empty(b: Seq<u8>)
    requires
        forall|i: int| 0 <= i < b.len() ==> b[i] == 0,
    ensures
        slot_registry(b) == Seq::<CustomerView>::empty(),
{
    if b.len() >= 4 {
        assert(read_u32(b, 0) == Some((0nat, 4int)));
        assert(read_registry(b) == Some(Seq::<CustomerView>::empty()));
    }
}

/// After a successful write of a registry, the slot holds that registry.
proof fn lemma_stored_reads_back(before: Seq<u8>, l: Seq<CustomerView>, after: Seq<u8>)
    requires
        stored(before, l, after, Ok(())),
    ensures
        registry_fits(l),
        read_registry(after) == Some(l),
        slot_registry(after) == l,
{
    lemma_registry_round_trip(l, before.subrange(registry_bytes(l).len() as int, before.len() as int));
}

/// Creating a record in a slot that holds the empty registry succeeds exactly
/// when the one-record registry fits in the slot, and the slot then holds
/// exactly that record.
pub proof fn lemma_create_on_empty_slot(
    c: CustomerData,
    before: Seq<u8>,
    after: Seq<u8>,
    r: Result<(), EngineError>,
)
    requires
        slot_registry(before) == Seq::<CustomerView>::empty(),
        applied(Command::CreateCustomer(c), before, after, r),
    ensures
        r is Ok <==> registry_fits(seq![c@]) && registry_bytes(seq![c@]).len() <= before.len(),
        r is Ok ==> read_registry(after) == Some(seq![c@]),
{
    assert(Seq::<CustomerView>::empty().push(c@) =~= seq![c@]);
    if r is Ok {
        lemma_stored_reads_back(before, seq![c@], after);
    }
}

/// A successful create leaves the registry with one record more: the earlier
/// records unchanged and in order, and the new one last.
pub proof fn lemma_create_appends(
    c: CustomerData,
    before: Seq<u8>,
    after: Seq<u8>,
    r: Result<(), EngineError>,
)
    requires
        applied(Command::CreateCustomer(c), before, after, r),
        r is Ok,
    ensures
        slot_registry(after).len() == slot_registry(before).len() + 1,
        slot_registry(after).last() == c@,
        forall|i: int|
            0 <= i < slot_registry(before).len() ==> slot_registry(after)[i] == #[trigger] slot_registry(
                before,
            )[i],
{
    lemma_stored_reads_back(before, slot_registry(before).push(c@), after);
}

/// A successful update of a record that is there changes the KYC status of the
/// first record with that customer id and LEI, and nothing else.
pub proof fn lemma_update_changes_only_status(
    c: CustomerData,
    before: Seq<u8>,
    after: Seq<u8>,
    r: Result<(), EngineError>,
)
    requires
        applied(Command::UpdateKycStatus(c), before, after, r),
        r is Ok,
        !names_nothing(c@),
    ensures
        has_match(slot_registry(before), c@.customer_id, c@.lei),
        slot_registry(after).len() == slot_registry(before).len(),
        exists|i: int|
            #[trigger] is_first_match(slot_registry(before), c@.customer_id, c@.lei, i)
                && slot_registry(after)[i] == with_status(slot_registry(before)[i], c.kyc_status)
                && forall|j: int|
                0 <= j < slot_registry(before).len() && j != i ==> #[trigger] slot_registry(after)[j]
                    == slot_registry(before)[j],
{
    let l = slot_registry(before);
    let l2 = status_updated(l, c@.customer_id, c@.lei, c.kyc_status);
    lemma_stored_reads_back(before, l2, after);
    let w = choose|i: int| 0 <= i < l.len() && #[trigger] is_match(l[i], c@.customer_id, c@.lei);
    lemma_first_match_exists(l, c@.customer_id, c@.lei, w);
    let i = choose|i: int| is_first_match(l, c@.customer_id, c@.lei, i);
    assert(is_first_match(l, c@.customer_id, c@.lei, i));
}

/// Where some record matches, a first match exists.
proof fn lemma_first_match_exists(l: Seq<CustomerView>, id: Seq<char>, lei: Seq<char>, w: int)
    requires
        0 <= w < l.len(),
        is_match(l[w], id, lei),
    ensures
        exists|i: int| is_first_match(l, id, lei, i),
    decreases w,
{
    if forall|j: int| 0 <= j < w ==> !#[trigger] is_match(l[j], id, lei) {
        assert(is_first_match(l, id, lei, w));
    } else {
        let v = choose|j: int| 0 <= j < w && #[trigger] is_match(l[j], id, lei);
        lemma_first_match_exists(l, id, lei, v);
    }
}

/// An update whose customer id and LEI match no record fails with
/// `RecordNotFound` and leaves the slot's bytes as they were.
pub proof fn lemma_update_missing_fails(
    c: CustomerData,
    before: Seq<u8>,
    after: Seq<u8>,
    r: Result<(), EngineError>,
)
    requires
        applied(Command::UpdateKycStatus(c), before, after, r),
        !names_nothing(c@),
        !has_match(slot_registry(before), c@.customer_id, c@.lei),
    ensures
        r == Err::<(), EngineError>(EngineError::RecordNotFound),
        after == before,
{
}

/// An update with an empty customer id or LEI succeeds and leaves the slot's
/// bytes as they were.
pub proof fn lemma_update_empty_name_is_noop(
    c: CustomerData,
    before: Seq<u8>,
    after: Seq<u8>,
    r: Result<(), EngineError>,
)
    requires
        applied(Command::UpdateKycStatus(c), before, after, r),
        c@.customer_id.len() == 0 || c@.lei.len() == 0,
    ensures
        r == Ok::<(), EngineError>(()),
        after == before,
{
}

/// Writing a registry whose persisted form is longer than the slot fails with
/// `CapacityExceeded` and leaves the slot's bytes as they were.
pub proof fn lemma_too_large_is_refused(
    before: Seq<u8>,
    l: Seq<CustomerView>,
    after: Seq<u8>,
    r: Result<(), EngineError>,
)
    requires
        stored(before, l, after, r),
        registry_bytes(l).len() > before.len(),
    ensures
        r == Err::<(), EngineError>(EngineError::CapacityExceeded),
        after == before,
{
}

} // verus!
