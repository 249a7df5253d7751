use vstd::prelude::*;
use vstd::utf8::{decode_utf8, encode_utf8, encode_utf8_decode_utf8, valid_utf8};
use crate::codec::{
    encode_registry, load_registry, registry_bytes, registry_fits, slot_registry,
    string_from_utf8,
};
use crate::record::{CustomerData, CustomerDataList, CustomerView};

verus! {

/// Why a request failed. A failed request leaves the slot as it was.
#[derive(Debug, Clone, Copy, PartialEq, Eq, Structural)]
pub enum EngineError {
    /// The slot is not owned by this program.
    UnauthorizedAccount,
    /// The request bytes are not UTF-8 text.
    InvalidEncoding,
    /// The request text is not a record with its command.
    InvalidPayload,
    /// No record has the customer id and LEI that an update names.
    RecordNotFound,
    /// The registry would not fit in the slot.
    CapacityExceeded,
}

/// A decoded request: the command tag and the record it carries.
#[derive(Debug, Clone)]
pub struct Envelope {
    pub command: String,
    pub record: CustomerData,
}

/// A command, dispatched on the request's tag.
#[derive(Debug, Clone)]
pub enum Command {
    /// Append the record to the registry.
    CreateCustomer(CustomerData),
    /// Set the KYC status of the record with the same customer id and LEI.
    UpdateKycStatus(CustomerData),
    /// Reads are served from the slot bytes directly; nothing to do.
    GetCustomer(CustomerData),
    /// A tag this version does not know; nothing to do.
    Noop,
}

/// The command that an envelope's tag selects.
pub open spec fn command_of(e: Envelope) -> Command {
    if e.command@ == "CreateCustomer"@ {
        Command::CreateCustomer(e.record)
    } else if e.command@ == "UpdateKycStatus"@ {
        Command::UpdateKycStatus(e.record)
    } else if e.command@ == "GetCustomer"@ {
        Command::GetCustomer(e.record)
    } else {
        Command::Noop
    }
}

pub open spec fn is_match(c: CustomerView, id: Seq<char>, lei: Seq<char>) -> bool {
    c.customer_id == id && c.lei == lei
}

pub open spec fn has_match(l: Seq<CustomerView>, id: Seq<char>, lei: Seq<char>) -> bool {
    exists|i: int| 0 <= i < l.len() && #[trigger] is_match(l[i], id, lei)
}

/// `i` is the position of the first record with this customer id and LEI.
pub open spec fn is_first_match(l: Seq<CustomerView>, id: Seq<char>, lei: Seq<char>, i: int) -> bool {
    &&& 0 <= i < l.len()
    &&& is_match(l[i], id, lei)
    &&& forall|j: int| 0 <= j < i ==> !#[trigger] is_match(l[j], id, lei)
}

pub open spec fn with_status(c: CustomerView, kyc_status: bool) -> CustomerView {
    CustomerView {
        customer_id: c.customer_id,
        legal_name: c.legal_name,
        registration_number: c.registration_number,
        incorporation_country: c.incorporation_country,
        lei_registration_status: c.lei_registration_status,
        lei: c.lei,
        incorporation_date: c.incorporation_date,
        primary_country_operation: c.primary_country_operation,
        primary_isic_code: c.primary_isic_code,
        entity_type: c.entity_type,
        swift_code: c.swift_code,
        kyc_status,
        addresses: c.addresses,
        kyc_documents: c.kyc_documents,
    }
}

/// `l` with the KYC status of its first record with this customer id and LEI
/// set to `kyc_status`.
pub open spec fn status_updated(l: Seq<CustomerView>, id: Seq<char>, lei: Seq<char>, kyc_status: bool) -> Seq<
    CustomerView,
> {
    let i = choose|i: int| is_first_match(l, id, lei, i);
    l.update(i, with_status(l[i], kyc_status))
}

/// An update that names an empty customer id or LEI does nothing.
pub open spec fn names_nothing(c: CustomerView) -> bool {
    c.customer_id.len() == 0 || c.lei.len() == 0
}

/// Writing the registry `l` over the slot bytes `before` gives `after` and `r`:
/// its persisted form from offset 0 with the bytes past it untouched, or
/// `CapacityExceeded` and no change where that form does not fit.
pub open spec fn stored(before: Seq<u8>, l: Seq<CustomerView>, after: Seq<u8>, r: Result<(), EngineError>) -> bool {
    if registry_fits(l) && registry_bytes(l).len() <= before.len() {
        &&& r == Ok::<(), EngineError>(())
        &&& after == registry_bytes(l) + before.subrange(registry_bytes(l).len() as int, before.len() as int)
    } else {
        &&& r == Err::<(), EngineError>(EngineError::CapacityExceeded)
        &&& after == before
    }
}

/// What applying `cmd` to a slot holding `before` gives: the slot's new bytes
/// `after` and the result `r`.
pub open spec fn applied(cmd: Command, before: Seq<u8>, after: Seq<u8>, r: Result<(), EngineError>) -> bool {
    let l = slot_registry(before);
    match cmd {
        Command::CreateCustomer(c) => stored(before, l.push(c@), after, r),
        Command::UpdateKycStatus(c) => if names_nothing(c@) {
            r == Ok::<(), EngineError>(()) && after == before
        } else if !has_match(l, c@.customer_id, c@.lei) {
            r == Err::<(), EngineError>(EngineError::RecordNotFound) && after == before
        } else {
            stored(before, status_updated(l, c@.customer_id, c@.lei, c@.kyc_status), after, r)
        },
        _ => r == Ok::<(), EngineError>(()) && after == before,
    }
}

/// Whether two strings hold the same characters.
fn same_text(s: &str, t: &str) -> (r: bool)
    ensures
        r == (s@ == t@),
{
    let a = s.as_bytes();
    let b = t.as_bytes();
    proof {
        encode_utf8_decode_utf8(s@);
        encode_utf8_decode_utf8(t@);
    }
    if a.len() != b.len() {
        return false;
    }
    let mut i: usize = 0;
    while i < a.len()
        invariant
            i <= a@.len(),
            a@.len() == b@.len(),
            a@ == encode_utf8(s@),
            b@ == encode_utf8(t@),
            forall|j: int| 0 <= j < i ==> a@[j] == b@[j],
        decreases a@.len() - i,
    {
        if a[i] != b[i] {
            return false;
        }
        i = i + 1;
    }
    assert(a@ =~= b@);
    true
}

/// The request text: the bytes read as UTF-8, or `InvalidEncoding`.
pub fn payload_text(raw: &[u8]) -> (r: Result<String, EngineError>)
    ensures
        r is Ok <==> valid_utf8(raw@),
        r matches Ok(s) ==> s@ == decode_utf8(raw@),
        r matches Err(e) ==> e == EngineError::InvalidEncoding,
{
    match string_from_utf8(vstd::slice::slice_to_vec(raw)) {
        Some(s) => Ok(s),
        None => Err(EngineError::InvalidEncoding),
    }
}

/// The command that the envelope's tag selects; an unknown tag is a no-op.
pub fn parse_command(envelope: Envelope) -> (r: Command)
    ensures
        r == command_of(envelope),
{
    let tag = envelope.command.as_str();
    if same_text(tag, "CreateCustomer") {
        Command::CreateCustomer(envelope.record)
    } else if same_text(tag, "UpdateKycStatus") {
        Command::UpdateKycStatus(envelope.record)
    } else if same_text(tag, "GetCustomer") {
        Command::GetCustomer(envelope.record)
    } else {
        Command::Noop
    }
}

/// Appends `customer` to the registry.
pub fn create_customer(customer: CustomerData, customers: &mut CustomerDataList)
    ensures
        final(customers)@ == old(customers)@.push(customer@),
{
    customers.customers.push(customer);
    assert(customers@ =~= old(customers)@.push(customer@));
}

/// Sets the KYC status of the first record whose customer id and LEI are
/// those of `customer`. An empty customer id or LEI makes it a no-op; where no
/// record matches it fails with `RecordNotFound`.
pub fn update_customer(customer: CustomerData, customers: &mut CustomerDataList) -> (r: Result<
    (),
    EngineError,
>)
    ensures
        names_nothing(customer@) ==> r is Ok && final(customers)@ == old(customers)@,
        !names_nothing(customer@) && !has_match(old(customers)@, customer@.customer_id, customer@.lei)
            ==> r == Err::<(), EngineError>(EngineError::RecordNotFound) && final(customers)@
            == old(customers)@,
        !names_nothing(customer@) && has_match(old(customers)@, customer@.customer_id, customer@.lei)
            ==> r is Ok && final(customers)@ == status_updated(
            old(customers)@,
            customer@.customer_id,
            customer@.lei,
            customer.kyc_status,
        ),
{
    if customer.customer_id.as_str().is_empty() || customer.lei.as_str().is_empty() {
        return Ok(());
    }
    let ghost l = old(customers)@;
    let ghost id = customer@.customer_id;
    let ghost lei = customer@.lei;
    let mut i: usize = 0;
    while i < customers.customers.len()
        invariant
            i <= customers.customers@.len(),
            customers@ == l,
            l == old(customers)@,
            !names_nothing(customer@),
            id == customer@.customer_id,
            lei == customer@.lei,
            forall|j: int| 0 <= j < i ==> !#[trigger] is_match(l[j], id, lei),
        decreases customers.customers@.len() - i,
    {
        let found = customers.customers[i].customer_id == customer.customer_id
            && customers.customers[i].lei == customer.lei;
        assert(l[i as int] == customers.customers@[i as int]@);
        if found {
            assert(is_first_match(l, id, lei, i as int));
            assert(has_match(l, id, lei));
            proof {
                let k = choose|k: int| is_first_match(l, id, lei, k);
                assert(k == i) by {
                    if k < i {
                        assert(!is_match(l[k], id, lei));
                    } else if k > i {
                        assert(!is_match(l[i as int], id, lei));
                    }
                }
            }
            let ghost vec_before = customers.customers@;
            customers.customers[i].kyc_status = customer.kyc_status;
            assert(customers.customers@[i as int]@ == with_status(l[i as int], customer.kyc_status));
            assert forall|j: int| 0 <= j < l.len() && j != i implies customers.customers@[j]
                == vec_before[j] by {}
            assert(customers@ =~= status_updated(l, id, lei, customer.kyc_status));
            return Ok(());
        }
        assert(!is_match(l[i as int], id, lei));
        i = i + 1;
    }
    assert(!has_match(l, id, lei));
    Err(EngineError::RecordNotFound)
}

/// Writes the persisted form of `l` over the slot from offset 0, or fails with
/// `CapacityExceeded` and leaves the slot alone.
fn store(slot: &mut Vec<u8>, l: &CustomerDataList) -> (r: Result<(), EngineError>)
    ensures
        stored(old(slot)@, l@, final(slot)@, r),
{
    let bytes = match encode_registry(l) {
        Some(b) => b,
        None => return Err(EngineError::CapacityExceeded),
    };
    if bytes.len() > slot.len() {
        return Err(EngineError::CapacityExceeded);
    }
    let ghost before = slot@;
    let mut i: usize = 0;
    while i < bytes.len()
        invariant
            i <= bytes@.len(),
            bytes@.len() <= before.len(),
            slot@.len() == before.len(),
            forall|j: int| 0 <= j < i ==> slot@[j] == bytes@[j],
            forall|j: int| i <= j < before.len() ==> slot@[j] == before[j],
        decreases bytes@.len() - i,
    {
        slot[i] = bytes[i];
        i = i + 1;
    }
    assert(slot@ =~= bytes@ + before.subrange(bytes@.len() as int, before.len() as int));
    Ok(())
}

/// Applies `cmd` to the registry held in the slot bytes. The slot keeps its
/// length, and any failure leaves it unchanged.
pub fn apply(cmd: Command, slot: &mut Vec<u8>) -> (r: Result<(), EngineError>)
    ensures
        applied(cmd, old(slot)@, final(slot)@, r),
        final(slot)@.len() == old(slot)@.len(),
{
    match cmd {
        Command::CreateCustomer(c) => {
            let mut l = load_registry(slot.as_slice());
            create_customer(c, &mut l);
            store(slot, &l)
        },
        Command::UpdateKycStatus(c) => {
            if c.customer_id.as_str().is_empty() || c.lei.as_str().is_empty() {
                return Ok(());
            }
            let mut l = load_registry(slot.as_slice());
            match update_customer(c, &mut l) {
                Ok(()) => store(slot, &l),
                Err(e) => Err(e),
            }
        },
        Command::GetCustomer(_) => Ok(()),
        Command::Noop => Ok(()),
    }
}

/// Whether two identities are the same.
fn same_identity(a: &[u8], b: &[u8]) -> (r: bool)
    ensures
        r == (a@ == b@),
{
    if a.len() != b.len() {
        return false;
    }
    let mut i: usize = 0;
    while i < a.len()
        invariant
            i <= a@.len(),
            a@.len() == b@.len(),
            forall|j: int| 0 <= j < i ==> a@[j] == b@[j],
        decreases a@.len() - i,
    {
        if a[i] != b[i] {
            return false;
        }
        i = i + 1;
    }
    assert(a@ =~= b@);
    true
}

/// Serves one request against a slot. `program_id` is this program's identity,
/// `owner` the slot's owner, `raw` the request bytes, and `request` what they
/// decode to as a record with its command, or `None` where they decode to none.
///
/// The checks come in this order: the owner (`UnauthorizedAccount`), the text
/// (`InvalidEncoding`), the record (`InvalidPayload`); then the command is
/// applied. The slot keeps its length, and any failure leaves it unchanged.
pub fn handle(
    program_id: &[u8],
    owner: &[u8],
    slot: &mut Vec<u8>,
    raw: &[u8],
    request: Option<Envelope>,
) -> (r: Result<(), EngineError>)
    ensures
        final(slot)@.len() == old(slot)@.len(),
        owner@ != program_id@ ==> r == Err::<(), EngineError>(EngineError::UnauthorizedAccount)
            && final(slot)@ == old(slot)@,
        owner@ == program_id@ && !valid_utf8(raw@) ==> r == Err::<(), EngineError>(
            EngineError::InvalidEncoding,
        ) && final(slot)@ == old(slot)@,
        owner@ == program_id@ && valid_utf8(raw@) && request is None ==> r == Err::<
            (),
            EngineError,
        >(EngineError::InvalidPayload) && final(slot)@ == old(slot)@,
        owner@ == program_id@ && valid_utf8(raw@) ==> (request matches Some(e) ==> applied(
            command_of(e),
            old(slot)@,
            final(slot)@,
            r,
        )),
{
    if !same_identity(owner, program_id) {
        return Err(EngineError::UnauthorizedAccount);
    }
    if let Err(e) = payload_text(raw) {
        return Err(e);
    }
    match request {
        None => Err(EngineError::InvalidPayload),
        Some(e) => apply(parse_command(e), slot),
    }
}

} // verus!
