use vstd::prelude::*;
use vstd::utf8::{decode_utf8, encode_utf8, encode_utf8_decode_utf8, encode_utf8_valid_utf8, valid_utf8};
use vstd::slice::{slice_subrange, slice_to_vec};
use crate::record::{
    addresses_view, customers_view, documents_view, strings_view, AddressData, AddressView,
    CustomerData, CustomerDataList, CustomerView, DocumentView, KycDocument,
};

verus! {

// The persisted form of a registry. Integers are four bytes, least significant
// first; a text field is its UTF-8 length followed by its UTF-8 bytes; a flag is
// one byte, 0 or 1; a sequence is its length followed by its items in order.
// A record is its text fields, its status flag, its addresses and its documents.

/// The four little-endian bytes of a 32-bit length.
pub open spec fn u32_bytes(n: nat) -> Seq<u8> {
    seq![(n % 256) as u8, (n / 256 % 256) as u8, (n / 65536 % 256) as u8, (n / 16777216 % 256) as u8]
}

pub open spec fn str_bytes(s: Seq<char>) -> Seq<u8> {
    u32_bytes(encode_utf8(s).len()) + encode_utf8(s)
}

pub open spec fn bool_bytes(b: bool) -> Seq<u8> {
    seq![if b { 1u8 } else { 0u8 }]
}

/// The items of `s`, each encoded by `enc`, one after the other.
pub open spec fn many_bytes<T>(s: Seq<T>, enc: spec_fn(T) -> Seq<u8>) -> Seq<u8>
    decreases s.len(),
{
    if s.len() == 0 {
        Seq::empty()
    } else {
        many_bytes(s.drop_last(), enc) + enc(s.last())
    }
}

pub open spec fn str_enc() -> spec_fn(Seq<char>) -> Seq<u8> {
    |s: Seq<char>| str_bytes(s)
}

pub open spec fn address_fields(a: AddressView) -> Seq<Seq<char>> {
    seq![a.address_type, a.address_line1, a.address_line2, a.city, a.state, a.country, a.postal_code]
}

pub open spec fn address_of(f: Seq<Seq<char>>) -> AddressView {
    AddressView {
        address_type: f[0],
        address_line1: f[1],
        address_line2: f[2],
        city: f[3],
        state: f[4],
        country: f[5],
        postal_code: f[6],
    }
}

pub open spec fn document_fields(d: DocumentView) -> Seq<Seq<char>> {
    seq![d.document_id, d.document_type, d.document_name, d.document_transaction_id]
}

pub open spec fn document_of(f: Seq<Seq<char>>) -> DocumentView {
    DocumentView {
        document_id: f[0],
        document_type: f[1],
        document_name: f[2],
        document_transaction_id: f[3],
    }
}

pub open spec fn customer_fields(c: CustomerView) -> Seq<Seq<char>> {
    seq![
        c.customer_id,
        c.legal_name,
        c.registration_number,
        c.incorporation_country,
        c.lei_registration_status,
        c.lei,
        c.incorporation_date,
        c.primary_country_operation,
        c.primary_isic_code,
        c.entity_type,
        c.swift_code,
    ]
}

pub open spec fn customer_of(
    f: Seq<Seq<char>>,
    kyc_status: bool,
    addresses: Seq<AddressView>,
    kyc_documents: Seq<DocumentView>,
) -> CustomerView {
    CustomerView {
        customer_id: f[0],
        legal_name: f[1],
        registration_number: f[2],
        incorporation_country: f[3],
        lei_registration_status: f[4],
        lei: f[5],
        incorporation_date: f[6],
        primary_country_operation: f[7],
        primary_isic_code: f[8],
        entity_type: f[9],
        swift_code: f[10],
        kyc_status,
        addresses,
        kyc_documents,
    }
}

pub open spec fn address_bytes(a: AddressView) -> Seq<u8> {
    many_bytes(address_fields(a), str_enc())
}

pub open spec fn address_enc() -> spec_fn(AddressView) -> Seq<u8> {
    |a: AddressView| address_bytes(a)
}

pub open spec fn document_bytes(d: DocumentView) -> Seq<u8> {
    many_bytes(document_fields(d), str_enc())
}

pub open spec fn document_enc() -> spec_fn(DocumentView) -> Seq<u8> {
    |d: DocumentView| document_bytes(d)
}

pub open spec fn customer_bytes(c: CustomerView) -> Seq<u8> {
    many_bytes(customer_fields(c), str_enc()) + bool_bytes(c.kyc_status) + u32_bytes(
        c.addresses.len(),
    ) + many_bytes(c.addresses, address_enc()) + u32_bytes(c.kyc_documents.len()) + many_bytes(
        c.kyc_documents,
        document_enc(),
    )
}

pub open spec fn customer_enc() -> spec_fn(CustomerView) -> Seq<u8> {
    |c: CustomerView| customer_bytes(c)
}

/// The persisted bytes of a registry.
pub open spec fn registry_bytes(l: Seq<CustomerView>) -> Seq<u8> {
    u32_bytes(l.len()) + many_bytes(l, customer_enc())
}

// What the encoding can hold: every length must fit in 32 bits.

pub open spec fn str_fits(s: Seq<char>) -> bool {
    encode_utf8(s).len() <= u32::MAX
}

pub open spec fn strs_fit(f: Seq<Seq<char>>) -> bool {
    forall|i: int| 0 <= i < f.len() ==> #[trigger] str_fits(f[i])
}

pub open spec fn address_fits(a: AddressView) -> bool {
    strs_fit(address_fields(a))
}

pub open spec fn document_fits(d: DocumentView) -> bool {
    strs_fit(document_fields(d))
}

pub open spec fn customer_fits(c: CustomerView) -> bool {
    &&& strs_fit(customer_fields(c))
    &&& c.addresses.len() <= u32::MAX
    &&& forall|i: int| 0 <= i < c.addresses.len() ==> #[trigger] address_fits(c.addresses[i])
    &&& c.kyc_documents.len() <= u32::MAX
    &&& forall|i: int|
        0 <= i < c.kyc_documents.len() ==> #[trigger] document_fits(c.kyc_documents[i])
}

/// Whether a registry has a persisted form at all.
pub open spec fn registry_fits(l: Seq<CustomerView>) -> bool {
    &&& l.len() <= u32::MAX
    &&& forall|i: int| 0 <= i < l.len() ==> #[trigger] customer_fits(l[i])
}

// Reading the persisted form back, from byte position `p` of `b`. Each reader
// gives the value read and the position after it, or `None`.

pub open spec fn read_u32(b: Seq<u8>, p: int) -> Option<(nat, int)> {
    if 0 <= p && p + 4 <= b.len() {
        Some(
            (
                (b[p] as nat) + 256 * (b[p + 1] as nat) + 65536 * (b[p + 2] as nat) + 16777216 * (
                b[p + 3] as nat),
                p + 4,
            ),
        )
    } else {
        None
    }
}

pub open spec fn read_str(b: Seq<u8>, p: int) -> Option<(Seq<char>, int)> {
    match read_u32(b, p) {
        Some((n, q)) => if q + n <= b.len() && valid_utf8(b.subrange(q, q + n)) {
            Some((decode_utf8(b.subrange(q, q + n)), q + n))
        } else {
            None
        },
        None => None,
    }
}

pub open spec fn read_bool(b: Seq<u8>, p: int) -> Option<(bool, int)> {
    if 0 <= p < b.len() && b[p] <= 1 {
        Some((b[p] == 1, p + 1))
    } else {
        None
    }
}

/// `k` items one after the other, each read by `item`.
pub open spec fn read_many<T>(
    b: Seq<u8>,
    p: int,
    k: nat,
    item: spec_fn(Seq<u8>, int) -> Option<(T, int)>,
) -> Option<(Seq<T>, int)>
    decreases k,
{
    if k == 0 {
        Some((Seq::empty(), p))
    } else {
        match read_many(b, p, (k - 1) as nat, item) {
            Some((s, q)) => match item(b, q) {
                Some((x, r)) => Some((s.push(x), r)),
                None => None,
            },
            None => None,
        }
    }
}

pub open spec fn str_reader() -> spec_fn(Seq<u8>, int) -> Option<(Seq<char>, int)> {
    |b: Seq<u8>, p: int| read_str(b, p)
}

pub open spec fn read_address(b: Seq<u8>, p: int) -> Option<(AddressView, int)> {
    match read_many(b, p, 7, str_reader()) {
        Some((f, q)) => Some((address_of(f), q)),
        None => None,
    }
}

pub open spec fn address_reader() -> spec_fn(Seq<u8>, int) -> Option<(AddressView, int)> {
    |b: Seq<u8>, p: int| read_address(b, p)
}

pub open spec fn read_document(b: Seq<u8>, p: int) -> Option<(DocumentView, int)> {
    match read_many(b, p, 4, str_reader()) {
        Some((f, q)) => Some((document_of(f), q)),
        None => None,
    }
}

pub open spec fn document_reader() -> spec_fn(Seq<u8>, int) -> Option<(DocumentView, int)> {
    |b: Seq<u8>, p: int| read_document(b, p)
}

pub open spec fn read_customer(b: Seq<u8>, p: int) -> Option<(CustomerView, int)> {
    match read_many(b, p, 11, str_reader()) {
        Some((f, p1)) => match read_bool(b, p1) {
            Some((k, p2)) => match read_u32(b, p2) {
                Some((na, p3)) => match read_many(b, p3, na, address_reader()) {
                    Some((a, p4)) => match read_u32(b, p4) {
                        Some((nd, p5)) => match read_many(b, p5, nd, document_reader()) {
                            Some((d, p6)) => Some((customer_of(f, k, a, d), p6)),
                            None => None,
                        },
                        None => None,
                    },
                    None => None,
                },
                None => None,
            },
            None => None,
        },
        None => None,
    }
}

pub open spec fn customer_reader() -> spec_fn(Seq<u8>, int) -> Option<(CustomerView, int)> {
    |b: Seq<u8>, p: int| read_customer(b, p)
}

/// The registry whose persisted form starts the bytes `b`, if there is one.
/// Bytes after that form are ignored.
pub open spec fn read_registry(b: Seq<u8>) -> Option<Seq<CustomerView>> {
    match read_u32(b, 0) {
        Some((n, p)) => match read_many(b, p, n, customer_reader()) {
            Some((l, _)) => Some(l),
            None => None,
        },
        None => None,
    }
}

/// The registry that a slot holds: what its bytes encode, and the empty
/// registry where they encode none.
pub open spec fn slot_registry(b: Seq<u8>) -> Seq<CustomerView> {
    match read_registry(b) {
        Some(l) => l,
        None => Seq::empty(),
    }
}

/// `x` stands in `b` from position `p` on.
pub open spec fn holds_at(b: Seq<u8>, p: int, x: Seq<u8>) -> bool {
    0 <= p && p + x.len() <= b.len() && b.subrange(p, p + x.len()) == x
}

proof fn lemma_holds_split(b: Seq<u8>, p: int, x: Seq<u8>, y: Seq<u8>)
    requires
        holds_at(b, p, x + y),
    ensures
        holds_at(b, p, x),
        holds_at(b, p + x.len(), y),
{
    let whole = b.subrange(p, p + (x + y).len());
    assert(whole == x + y);
    assert(b.subrange(p, p + x.len()) =~= whole.subrange(0, x.len() as int));
    assert((x + y).subrange(0, x.len() as int) =~= x);
    assert(b.subrange(p + x.len(), p + x.len() + y.len()) =~= whole.subrange(
        x.len() as int,
        (x + y).len() as int,
    ));
    assert((x + y).subrange(x.len() as int, (x + y).len() as int) =~= y);
}

proof fn lemma_u32_round_trip(b: Seq<u8>, p: int, n: nat)
    requires
        n <= u32::MAX,
        holds_at(b, p, u32_bytes(n)),
    ensures
        read_u32(b, p) == Some((n, p + 4)),
{
    assert(b[p] == u32_bytes(n)[0]);
    assert(b[p + 1] == u32_bytes(n)[1]);
    assert(b[p + 2] == u32_bytes(n)[2]);
    assert(b[p + 3] == u32_bytes(n)[3]);
    assert((n % 256) + 256 * (n / 256 % 256) + 65536 * (n / 65536 % 256) + 16777216 * (n
        / 16777216 % 256) == n) by (nonlinear_arith)
        requires
            n <= u32::MAX,
    ;
}

proof fn lemma_str_round_trip(b: Seq<u8>, p: int, s: Seq<char>)
    requires
        str_fits(s),
        holds_at(b, p, str_bytes(s)),
    ensures
        read_str(b, p) == Some((s, p + str_bytes(s).len())),
{
    let e = encode_utf8(s);
    lemma_holds_split(b, p, u32_bytes(e.len()), e);
    lemma_u32_round_trip(b, p, e.len());
    encode_utf8_valid_utf8(s);
    encode_utf8_decode_utf8(s);
}

proof fn lemma_bool_round_trip(b: Seq<u8>, p: int, k: bool)
    requires
        holds_at(b, p, bool_bytes(k)),
    ensures
        read_bool(b, p) == Some((k, p + 1)),
{
    assert(b[p] == bool_bytes(k)[0]);
}

/// Once `read_many` fails for some count, it fails for every larger count.
proof fn lemma_read_many_stuck<T>(
    b: Seq<u8>,
    p: int,
    i: nat,
    k: nat,
    item: spec_fn(Seq<u8>, int) -> Option<(T, int)>,
)
    requires
        i <= k,
        read_many(b, p, i, item) is None,
    ensures
        read_many(b, p, k, item) is None,
    decreases k,
{
    if i < k {
        lemma_read_many_stuck(b, p, i, (k - 1) as nat, item);
    }
}

proof fn lemma_many_round_trip<T>(
    b: Seq<u8>,
    p: int,
    s: Seq<T>,
    item: spec_fn(Seq<u8>, int) -> Option<(T, int)>,
    enc: spec_fn(T) -> Seq<u8>,
    fits: spec_fn(T) -> bool,
)
    requires
        forall|i: int| 0 <= i < s.len() ==> #[trigger] fits(s[i]),
        forall|x: T, q: int|
            fits(x) && holds_at(b, q, #[trigger] enc(x)) ==> #[trigger] item(b, q) == Some(
                (x, q + enc(x).len()),
            ),
        holds_at(b, p, many_bytes(s, enc)),
    ensures
        read_many(b, p, s.len(), item) == Some((s, p + many_bytes(s, enc).len())),
    decreases s.len(),
{
    if s.len() > 0 {
        let init = s.drop_last();
        lemma_holds_split(b, p, many_bytes(init, enc), enc(s.last()));
        assert forall|i: int| 0 <= i < init.len() implies #[trigger] fits(init[i]) by {
            assert(init[i] == s[i]);
        }
        lemma_many_round_trip(b, p, init, item, enc, fits);
        assert(fits(s[s.len() - 1]));
        assert(init.push(s.last()) =~= s);
    }
}

proof fn lemma_strs_round_trip(b: Seq<u8>, p: int, f: Seq<Seq<char>>)
    requires
        strs_fit(f),
        holds_at(b, p, many_bytes(f, str_enc())),
    ensures
        read_many(b, p, f.len(), str_reader()) == Some((f, p + many_bytes(f, str_enc()).len())),
{
    let fits = |s: Seq<char>| str_fits(s);
    assert forall|x: Seq<char>, q: int|
        fits(x) && holds_at(b, q, #[trigger] str_enc()(x)) implies #[trigger] str_reader()(b, q)
        == Some((x, q + str_enc()(x).len())) by {
        lemma_str_round_trip(b, q, x);
    }
    assert forall|i: int| 0 <= i < f.len() implies #[trigger] fits(f[i]) by {
        assert(str_fits(f[i]));
    }
    lemma_many_round_trip(b, p, f, str_reader(), str_enc(), fits);
}

proof fn lemma_address_round_trip(b: Seq<u8>, p: int, a: AddressView)
    requires
        address_fits(a),
        holds_at(b, p, address_bytes(a)),
    ensures
        read_address(b, p) == Some((a, p + address_bytes(a).len())),
{
    lemma_strs_round_trip(b, p, address_fields(a));
    assert(address_of(address_fields(a)) == a);
}

proof fn lemma_document_round_trip(b: Seq<u8>, p: int, d: DocumentView)
    requires
        document_fits(d),
        holds_at(b, p, document_bytes(d)),
    ensures
        read_document(b, p) == Some((d, p + document_bytes(d).len())),
{
    lemma_strs_round_trip(b, p, document_fields(d));
    assert(document_of(document_fields(d)) == d);
}

proof fn lemma_customer_round_trip(b: Seq<u8>, p: int, c: CustomerView)
    requires
        customer_fits(c),
        holds_at(b, p, customer_bytes(c)),
    ensures
        read_customer(b, p) == Some((c, p + customer_bytes(c).len())),
{
    let f = customer_fields(c);
    let fb = many_bytes(f, str_enc());
    let kb = bool_bytes(c.kyc_status);
    let nab = u32_bytes(c.addresses.len());
    let ab = many_bytes(c.addresses, address_enc());
    let ndb = u32_bytes(c.kyc_documents.len());
    let db = many_bytes(c.kyc_documents, document_enc());
    lemma_holds_split(b, p, fb + kb + nab + ab + ndb, db);
    lemma_holds_split(b, p, fb + kb + nab + ab, ndb);
    lemma_holds_split(b, p, fb + kb + nab, ab);
    lemma_holds_split(b, p, fb + kb, nab);
    lemma_holds_split(b, p, fb, kb);
    let p1 = p + fb.len();
    let p2 = p1 + 1;
    let p3 = p2 + 4;
    let p4 = p3 + ab.len();
    let p5 = p4 + 4;
    lemma_strs_round_trip(b, p, f);
    lemma_bool_round_trip(b, p1, c.kyc_status);
    lemma_u32_round_trip(b, p2, c.addresses.len());
    let afits = |a: AddressView| address_fits(a);
    assert forall|x: AddressView, q: int|
        afits(x) && holds_at(b, q, #[trigger] address_enc()(x)) implies #[trigger] address_reader()(
        b,
        q,
    ) == Some((x, q + address_enc()(x).len())) by {
        lemma_address_round_trip(b, q, x);
    }
    assert forall|i: int| 0 <= i < c.addresses.len() implies #[trigger] afits(c.addresses[i]) by {
        assert(address_fits(c.addresses[i]));
    }
    lemma_many_round_trip(b, p3, c.addresses, address_reader(), address_enc(), afits);
    lemma_u32_round_trip(b, p4, c.kyc_documents.len());
    let dfits = |d: DocumentView| document_fits(d);
    assert forall|x: DocumentView, q: int|
        dfits(x) && holds_at(b, q, #[trigger] document_enc()(x)) implies #[trigger] document_reader()(
        b,
        q,
    ) == Some((x, q + document_enc()(x).len())) by {
        lemma_document_round_trip(b, q, x);
    }
    assert forall|i: int| 0 <= i < c.kyc_documents.len() implies #[trigger] dfits(
        c.kyc_documents[i],
    ) by {
        assert(document_fits(c.kyc_documents[i]));
    }
    lemma_many_round_trip(b, p5, c.kyc_documents, document_reader(), document_enc(), dfits);
    assert(customer_of(f, c.kyc_status, c.addresses, c.kyc_documents) == c);
}

/// Reading back the persisted form of a registry gives that registry, whatever
/// bytes follow it.
pub proof fn lemma_registry_round_trip(l: Seq<CustomerView>, rest: Seq<u8>)
    requires
        registry_fits(l),
    ensures
        read_registry(registry_bytes(l) + rest) == Some(l),
        slot_registry(registry_bytes(l) + rest) == l,
{
    let b = registry_bytes(l) + rest;
    let cb = many_bytes(l, customer_enc());
    assert(b.subrange(0, registry_bytes(l).len() as int) =~= registry_bytes(l));
    lemma_holds_split(b, 0, u32_bytes(l.len()), cb);
    lemma_u32_round_trip(b, 0, l.len());
    let cfits = |c: CustomerView| customer_fits(c);
    assert forall|x: CustomerView, q: int|
        cfits(x) && holds_at(b, q, #[trigger] customer_enc()(x)) implies #[trigger] customer_reader()(
        b,
        q,
    ) == Some((x, q + customer_enc()(x).len())) by {
        lemma_customer_round_trip(b, q, x);
    }
    assert forall|i: int| 0 <= i < l.len() implies #[trigger] cfits(l[i]) by {
        assert(customer_fits(l[i]));
    }
    lemma_many_round_trip(b, 4, l, customer_reader(), customer_enc(), cfits);
}

proof fn lemma_many_bytes_step<T>(s: Seq<T>, i: int, enc: spec_fn(T) -> Seq<u8>)
    requires
        0 <= i < s.len(),
    ensures
        many_bytes(s.take(i + 1), enc) == many_bytes(s.take(i), enc) + enc(s[i]),
{
    assert(s.take(i + 1).drop_last() =~= s.take(i));
}

// Writing the persisted form. A writer returns false where a length does not
// fit in 32 bits; what it wrote is then of no use.

fn write_u32(out: &mut Vec<u8>, n: u32)
    ensures
        final(out)@ == old(out)@ + u32_bytes(n as nat),
{
    out.push((n % 256) as u8);
    out.push((n / 256 % 256) as u8);
    out.push((n / 65536 % 256) as u8);
    out.push((n / 16777216 % 256) as u8);
    assert(out@ =~= old(out)@ + u32_bytes(n as nat));
}

fn write_str(out: &mut Vec<u8>, s: &String) -> (ok: bool)
    ensures
        ok == str_fits(s@),
        ok ==> final(out)@ == old(out)@ + str_bytes(s@),
{
    let bytes = s.as_str().as_bytes();
    if bytes.len() as u64 > u32::MAX as u64 {
        return false;
    }
    write_u32(out, bytes.len() as u32);
    let mut tail = slice_to_vec(bytes);
    out.append(&mut tail);
    assert(out@ =~= old(out)@ + str_bytes(s@));
    true
}

fn write_strs(out: &mut Vec<u8>, f: &Vec<String>) -> (ok: bool)
    ensures
        ok == strs_fit(strings_view(f@)),
        ok ==> final(out)@ == old(out)@ + many_bytes(strings_view(f@), str_enc()),
{
    let ghost fv = strings_view(f@);
    let mut i: usize = 0;
    while i < f.len()
        invariant
            i <= f@.len(),
            fv == strings_view(f@),
            strs_fit(fv.take(i as int)),
            out@ == old(out)@ + many_bytes(fv.take(i as int), str_enc()),
        decreases f@.len() - i,
    {
        let ghost before = out@;
        if !write_str(out, &f[i]) {
            assert(!str_fits(fv[i as int]));
            return false;
        }
        proof {
            lemma_many_bytes_step(fv, i as int, str_enc());
            assert(fv.take(i + 1) =~= fv.take(i as int).push(fv[i as int]));
        }
        i = i + 1;
    }
    assert(fv.take(i as int) =~= fv);
    true
}

fn write_address(out: &mut Vec<u8>, a: &AddressData) -> (ok: bool)
    ensures
        ok == address_fits(a@),
        ok ==> final(out)@ == old(out)@ + address_bytes(a@),
{
    let f = vec![
        a.address_type.clone(),
        a.address_line1.clone(),
        a.address_line2.clone(),
        a.city.clone(),
        a.state.clone(),
        a.country.clone(),
        a.postal_code.clone(),
    ];
    assert(strings_view(f@) =~= address_fields(a@));
    write_strs(out, &f)
}

fn write_document(out: &mut Vec<u8>, d: &KycDocument) -> (ok: bool)
    ensures
        ok == document_fits(d@),
        ok ==> final(out)@ == old(out)@ + document_bytes(d@),
{
    let f = vec![
        d.document_id.clone(),
        d.document_type.clone(),
        d.document_name.clone(),
        d.document_transaction_id.clone(),
    ];
    assert(strings_view(f@) =~= document_fields(d@));
    write_strs(out, &f)
}

fn write_addresses(out: &mut Vec<u8>, v: &Vec<AddressData>) -> (ok: bool)
    ensures
        ok == (forall|i: int|
            0 <= i < v@.len() ==> #[trigger] address_fits(addresses_view(v@)[i])),
        ok ==> final(out)@ == old(out)@ + many_bytes(addresses_view(v@), address_enc()),
{
    let ghost av = addresses_view(v@);
    let mut i: usize = 0;
    while i < v.len()
        invariant
            i <= v@.len(),
            av == addresses_view(v@),
            forall|j: int| 0 <= j < i ==> #[trigger] address_fits(av[j]),
            out@ == old(out)@ + many_bytes(av.take(i as int), address_enc()),
        decreases v@.len() - i,
    {
        if !write_address(out, &v[i]) {
            assert(!address_fits(av[i as int]));
            return false;
        }
        proof {
            lemma_many_bytes_step(av, i as int, address_enc());
        }
        i = i + 1;
    }
    assert(av.take(i as int) =~= av);
    true
}

fn write_documents(out: &mut Vec<u8>, v: &Vec<KycDocument>) -> (ok: bool)
    ensures
        ok == (forall|i: int|
            0 <= i < v@.len() ==> #[trigger] document_fits(documents_view(v@)[i])),
        ok ==> final(out)@ == old(out)@ + many_bytes(documents_view(v@), document_enc()),
{
    let ghost dv = documents_view(v@);
    let mut i: usize = 0;
    while i < v.len()
        invariant
            i <= v@.len(),
            dv == documents_view(v@),
            forall|j: int| 0 <= j < i ==> #[trigger] document_fits(dv[j]),
            out@ == old(out)@ + many_bytes(dv.take(i as int), document_enc()),
        decreases v@.len() - i,
    {
        if !write_document(out, &v[i]) {
            assert(!document_fits(dv[i as int]));
            return false;
        }
        proof {
            lemma_many_bytes_step(dv, i as int, document_enc());
        }
        i = i + 1;
    }
    assert(dv.take(i as int) =~= dv);
    true
}

fn write_customer(out: &mut Vec<u8>, c: &CustomerData) -> (ok: bool)
    ensures
        ok == customer_fits(c@),
        ok ==> final(out)@ == old(out)@ + customer_bytes(c@),
{
    let f = vec![
        c.customer_id.clone(),
        c.legal_name.clone(),
        c.registration_number.clone(),
        c.incorporation_country.clone(),
        c.lei_registration_status.clone(),
        c.lei.clone(),
        c.incorporation_date.clone(),
        c.primary_country_operation.clone(),
        c.primary_isic_code.clone(),
        c.entity_type.clone(),
        c.swift_code.clone(),
    ];
    assert(strings_view(f@) =~= customer_fields(c@));
    if !write_strs(out, &f) {
        return false;
    }
    out.push(if c.kyc_status { 1u8 } else { 0u8 });
    if c.addresses.len() as u64 > u32::MAX as u64 {
        return false;
    }
    write_u32(out, c.addresses.len() as u32);
    if !write_addresses(out, &c.addresses) {
        return false;
    }
    if c.kyc_documents.len() as u64 > u32::MAX as u64 {
        return false;
    }
    write_u32(out, c.kyc_documents.len() as u32);
    if !write_documents(out, &c.kyc_documents) {
        return false;
    }
    assert(out@ =~= old(out)@ + customer_bytes(c@));
    true
}

/// The persisted form of `l`, or `None` where a length in it does not fit in
/// 32 bits.
pub fn encode_registry(l: &CustomerDataList) -> (r: Option<Vec<u8>>)
    ensures
        r is Some <==> registry_fits(l@),
        r matches Some(v) ==> v@ == registry_bytes(l@),
{
    let ghost cv = l@;
    let mut out: Vec<u8> = Vec::new();
    if l.customers.len() as u64 > u32::MAX as u64 {
        return None;
    }
    write_u32(&mut out, l.customers.len() as u32);
    let mut i: usize = 0;
    while i < l.customers.len()
        invariant
            i <= l.customers@.len(),
            cv == customers_view(l.customers@),
            forall|j: int| 0 <= j < i ==> #[trigger] customer_fits(cv[j]),
            out@ == u32_bytes(cv.len()) + many_bytes(cv.take(i as int), customer_enc()),
        decreases l.customers@.len() - i,
    {
        if !write_customer(&mut out, &l.customers[i]) {
            assert(!customer_fits(cv[i as int]));
            return None;
        }
        proof {
            lemma_many_bytes_step(cv, i as int, customer_enc());
            assert(out@ =~= u32_bytes(cv.len()) + many_bytes(cv.take(i + 1), customer_enc()));
        }
        i = i + 1;
    }
    assert(cv.take(i as int) =~= cv);
    Some(out)
}
/// Relies on `String::from_utf8`: it accepts exactly the byte sequences that
/// are valid UTF-8, and the string it then returns holds the characters they
/// encode.
#[verifier::external_body]
pub(crate) fn string_from_utf8(bytes: Vec<u8>) -> (r: Option<String>)
    ensures
        r is Some <==> valid_utf8(bytes@),
        r matches Some(s) ==> s@ == decode_utf8(bytes@),
{
    String::from_utf8(bytes).ok()
}

// Reading the persisted form. Each reader takes the bytes and a position, and
// gives what its spec reader gives there.

fn take_u32(b: &[u8], p: usize) -> (r: Option<(u32, usize)>)
    ensures
        match r {
            Some((n, q)) => read_u32(b@, p as int) == Some((n as nat, q as int)),
            None => read_u32(b@, p as int) is None,
        },
{
    if p > b.len() || b.len() - p < 4 {
        return None;
    }
    let n: u32 = b[p] as u32 + 256 * (b[p + 1] as u32) + 65536 * (b[p + 2] as u32) + 16777216 * (
    b[p + 3] as u32);
    Some((n, p + 4))
}

fn take_str(b: &[u8], p: usize) -> (r: Option<(String, usize)>)
    ensures
        match r {
            Some((s, q)) => read_str(b@, p as int) == Some((s@, q as int)),
            None => read_str(b@, p as int) is None,
        },
{
    let (n, q) = match take_u32(b, p) {
        Some(x) => x,
        None => return None,
    };
    if n as usize > b.len() - q {
        return None;
    }
    let end = q + n as usize;
    let bytes = slice_to_vec(slice_subrange(b, q, end));
    match string_from_utf8(bytes) {
        Some(s) => Some((s, end)),
        None => None,
    }
}

fn take_bool(b: &[u8], p: usize) -> (r: Option<(bool, usize)>)
    ensures
        match r {
            Some((k, q)) => read_bool(b@, p as int) == Some((k, q as int)),
            None => read_bool(b@, p as int) is None,
        },
{
    if p < b.len() && b[p] <= 1 {
        Some((b[p] == 1, p + 1))
    } else {
        None
    }
}

fn take_strs(b: &[u8], p: usize, k: usize) -> (r: Option<(Vec<String>, usize)>)
    ensures
        match r {
            Some((f, q)) => f@.len() == k && read_many(b@, p as int, k as nat, str_reader())
                == Some((strings_view(f@), q as int)),
            None => read_many(b@, p as int, k as nat, str_reader()) is None,
        },
{
    let mut f: Vec<String> = Vec::new();
    let mut q = p;
    let mut i: usize = 0;
    while i < k
        invariant
            i <= k,
            f@.len() == i,
            read_many(b@, p as int, i as nat, str_reader()) == Some((strings_view(f@), q as int)),
        decreases k - i,
    {
        match take_str(b, q) {
            Some((s, next)) => {
                let ghost before = strings_view(f@);
                f.push(s);
                q = next;
                assert(strings_view(f@) =~= before.push(s@));
            },
            None => {
                proof {
                    lemma_read_many_stuck(b@, p as int, (i + 1) as nat, k as nat, str_reader());
                }
                return None;
            },
        }
        i = i + 1;
    }
    Some((f, q))
}

fn take_address(b: &[u8], p: usize) -> (r: Option<(AddressData, usize)>)
    ensures
        match r {
            Some((a, q)) => read_address(b@, p as int) == Some((a@, q as int)),
            None => read_address(b@, p as int) is None,
        },
{
    let (f, q) = match take_strs(b, p, 7) {
        Some(x) => x,
        None => return None,
    };
    let a = AddressData {
        address_type: f[0].clone(),
        address_line1: f[1].clone(),
        address_line2: f[2].clone(),
        city: f[3].clone(),
        state: f[4].clone(),
        country: f[5].clone(),
        postal_code: f[6].clone(),
    };
    assert(a@ == address_of(strings_view(f@)));
    Some((a, q))
}

fn take_document(b: &[u8], p: usize) -> (r: Option<(KycDocument, usize)>)
    ensures
        match r {
            Some((d, q)) => read_document(b@, p as int) == Some((d@, q as int)),
            None => read_document(b@, p as int) is None,
        },
{
    let (f, q) = match take_strs(b, p, 4) {
        Some(x) => x,
        None => return None,
    };
    let d = KycDocument {
        document_id: f[0].clone(),
        document_type: f[1].clone(),
        document_name: f[2].clone(),
        document_transaction_id: f[3].clone(),
    };
    assert(d@ == document_of(strings_view(f@)));
    Some((d, q))
}

fn take_addresses(b: &[u8], p: usize, k: u32) -> (r: Option<(Vec<AddressData>, usize)>)
    ensures
        match r {
            Some((v, q)) => read_many(b@, p as int, k as nat, address_reader()) == Some(
                (addresses_view(v@), q as int),
            ),
            None => read_many(b@, p as int, k as nat, address_reader()) is None,
        },
{
    let mut v: Vec<AddressData> = Vec::new();
    let mut q = p;
    let mut i: u32 = 0;
    while i < k
        invariant
            i <= k,
            read_many(b@, p as int, i as nat, address_reader()) == Some(
                (addresses_view(v@), q as int),
            ),
        decreases k - i,
    {
        match take_address(b, q) {
            Some((a, next)) => {
                let ghost before = addresses_view(v@);
                v.push(a);
                q = next;
                assert(addresses_view(v@) =~= before.push(a@));
            },
            None => {
                proof {
                    lemma_read_many_stuck(b@, p as int, (i + 1) as nat, k as nat, address_reader());
                }
                return None;
            },
        }
        i = i + 1;
    }
    Some((v, q))
}

fn take_documents(b: &[u8], p: usize, k: u32) -> (r: Option<(Vec<KycDocument>, usize)>)
    ensures
        match r {
            Some((v, q)) => read_many(b@, p as int, k as nat, document_reader()) == Some(
                (documents_view(v@), q as int),
            ),
            None => read_many(b@, p as int, k as nat, document_reader()) is None,
        },
{
    let mut v: Vec<KycDocument> = Vec::new();
    let mut q = p;
    let mut i: u32 = 0;
    while i < k
        invariant
            i <= k,
            read_many(b@, p as int, i as nat, document_reader()) == Some(
                (documents_view(v@), q as int),
            ),
        decreases k - i,
    {
        match take_document(b, q) {
            Some((d, next)) => {
                let ghost before = documents_view(v@);
                v.push(d);
                q = next;
                assert(documents_view(v@) =~= before.push(d@));
            },
            None => {
                proof {
                    lemma_read_many_stuck(b@, p as int, (i + 1) as nat, k as nat, document_reader());
                }
                return None;
            },
        }
        i = i + 1;
    }
    Some((v, q))
}

fn take_customer(b: &[u8], p: usize) -> (r: Option<(CustomerData, usize)>)
    ensures
        match r {
            Some((c, q)) => read_customer(b@, p as int) == Some((c@, q as int)),
            None => read_customer(b@, p as int) is None,
        },
{
    let (f, p1) = match take_strs(b, p, 11) {
        Some(x) => x,
        None => return None,
    };
    let (kyc_status, p2) = match take_bool(b, p1) {
        Some(x) => x,
        None => return None,
    };
    let (na, p3) = match take_u32(b, p2) {
        Some(x) => x,
        None => return None,
    };
    let (addresses, p4) = match take_addresses(b, p3, na) {
        Some(x) => x,
        None => return None,
    };
    let (nd, p5) = match take_u32(b, p4) {
        Some(x) => x,
        None => return None,
    };
    let (kyc_documents, p6) = match take_documents(b, p5, nd) {
        Some(x) => x,
        None => return None,
    };
    let c = CustomerData {
        customer_id: f[0].clone(),
        legal_name: f[1].clone(),
        registration_number: f[2].clone(),
        incorporation_country: f[3].clone(),
        lei_registration_status: f[4].clone(),
        lei: f[5].clone(),
        incorporation_date: f[6].clone(),
        primary_country_operation: f[7].clone(),
        primary_isic_code: f[8].clone(),
        entity_type: f[9].clone(),
        swift_code: f[10].clone(),
        kyc_status,
        addresses,
        kyc_documents,
    };
    assert(c@ == customer_of(
        strings_view(f@),
        kyc_status,
        addresses_view(c.addresses@),
        documents_view(c.kyc_documents@),
    ));
    Some((c, p6))
}

/// The registry whose persisted form starts `b`, or `None` where `b` starts
/// with no such form.
pub fn decode_registry(b: &[u8]) -> (r: Option<CustomerDataList>)
    ensures
        match r {
            Some(l) => read_registry(b@) == Some(l@),
            None => read_registry(b@) is None,
        },
{
    let (n, p) = match take_u32(b, 0) {
        Some(x) => x,
        None => return None,
    };
    let mut customers: Vec<CustomerData> = Vec::new();
    let mut q = p;
    let mut i: u32 = 0;
    while i < n
        invariant
            i <= n,
            read_u32(b@, 0) == Some((n as nat, p as int)),
            read_many(b@, p as int, i as nat, customer_reader()) == Some(
                (customers_view(customers@), q as int),
            ),
        decreases n - i,
    {
        match take_customer(b, q) {
            Some((c, next)) => {
                let ghost before = customers_view(customers@);
                customers.push(c);
                q = next;
                assert(customers_view(customers@) =~= before.push(c@));
            },
            None => {
                proof {
                    lemma_read_many_stuck(b@, p as int, (i + 1) as nat, n as nat, customer_reader());
                }
                return None;
            },
        }
        i = i + 1;
    }
    Some(CustomerDataList { customers })
}

/// The registry that the slot bytes `b` hold; bytes that start with no
/// persisted registry, such as a fresh slot, hold the empty one.
pub fn load_registry(b: &[u8]) -> (r: CustomerDataList)
    ensures
        r@ == slot_registry(b@),
{
    match decode_registry(b) {
        Some(l) => l,
        None => CustomerDataList::new(),
    }
}

} // verus!
