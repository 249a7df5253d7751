use vstd::prelude::*;

verus! {

/// A postal address of a customer.
#[derive(Debug, Clone)]
pub struct AddressData {
    pub address_type: String,
    pub address_line1: String,
    pub address_line2: String,
    pub city: String,
    pub state: String,
    pub country: String,
    pub postal_code: String,
}

/// A KYC document filed for a customer.
#[derive(Debug, Clone)]
pub struct KycDocument {
    pub document_id: String,
    pub document_type: String,
    pub document_name: String,
    pub document_transaction_id: String,
}

/// One customer record as it is stored in the registry.
#[derive(Debug, Clone)]
pub struct CustomerData {
    pub customer_id: String,
    pub legal_name: String,
    pub registration_number: String,
    pub incorporation_country: String,
    pub lei_registration_status: String,
    pub lei: String,
    pub incorporation_date: String,
    pub primary_country_operation: String,
    pub primary_isic_code: String,
    pub entity_type: String,
    pub swift_code: String,
    pub kyc_status: bool,
    pub addresses: Vec<AddressData>,
    pub kyc_documents: Vec<KycDocument>,
}

/// The registry: customer records in the order they were created.
#[derive(Debug, Clone)]
pub struct CustomerDataList {
    pub customers: Vec<CustomerData>,
}

/// The value of an address, with each text field as its characters.
pub struct AddressView {
    pub address_type: Seq<char>,
    pub address_line1: Seq<char>,
    pub address_line2: Seq<char>,
    pub city: Seq<char>,
    pub state: Seq<char>,
    pub country: Seq<char>,
    pub postal_code: Seq<char>,
}

/// The value of a KYC document.
pub struct DocumentView {
    pub document_id: Seq<char>,
    pub document_type: Seq<char>,
    pub document_name: Seq<char>,
    pub document_transaction_id: Seq<char>,
}

/// The value of a customer record.
pub struct CustomerView {
    pub customer_id: Seq<char>,
    pub legal_name: Seq<char>,
    pub registration_number: Seq<char>,
    pub incorporation_country: Seq<char>,
    pub lei_registration_status: Seq<char>,
    pub lei: Seq<char>,
    pub incorporation_date: Seq<char>,
    pub primary_country_operation: Seq<char>,
    pub primary_isic_code: Seq<char>,
    pub entity_type: Seq<char>,
    pub swift_code: Seq<char>,
    pub kyc_status: bool,
    pub addresses: Seq<AddressView>,
    pub kyc_documents: Seq<DocumentView>,
}

pub open spec fn strings_view(v: Seq<String>) -> Seq<Seq<char>> {
    v.map_values(|s: String| s@)
}

pub open spec fn addresses_view(v: Seq<AddressData>) -> Seq<AddressView> {
    v.map_values(|a: AddressData| a@)
}

pub open spec fn documents_view(v: Seq<KycDocument>) -> Seq<DocumentView> {
    v.map_values(|d: KycDocument| d@)
}

pub open spec fn customers_view(v: Seq<CustomerData>) -> Seq<CustomerView> {
    v.map_values(|c: CustomerData| c@)
}

impl View for AddressData {
    type V = AddressView;

    open spec fn view(&self) -> AddressView {
        AddressView {
            address_type: self.address_type@,
            address_line1: self.address_line1@,
            address_line2: self.address_line2@,
            city: self.city@,
            state: self.state@,
            country: self.country@,
            postal_code: self.postal_code@,
        }
    }
}

impl View for KycDocument {
    type V = DocumentView;

    open spec fn view(&self) -> DocumentView {
        DocumentView {
            document_id: self.document_id@,
            document_type: self.document_type@,
            document_name: self.document_name@,
            document_transaction_id: self.document_transaction_id@,
        }
    }
}

impl View for CustomerData {
    type V = CustomerView;

    open spec fn view(&self) -> CustomerView {
        CustomerView {
            customer_id: self.customer_id@,
            legal_name: self.legal_name@,
            registration_number: self.registration_number@,
            incorporation_country: self.incorporation_country@,
            lei_registration_status: self.lei_registration_status@,
            lei: self.lei@,
            incorporation_date: self.incorporation_date@,
            primary_country_operation: self.primary_country_operation@,
            primary_isic_code: self.primary_isic_code@,
            entity_type: self.entity_type@,
            swift_code: self.swift_code@,
            kyc_status: self.kyc_status,
            addresses: addresses_view(self.addresses@),
            kyc_documents: documents_view(self.kyc_documents@),
        }
    }
}

impl View for CustomerDataList {
    type V = Seq<CustomerView>;

    open spec fn view(&self) -> Seq<CustomerView> {
        customers_view(self.customers@)
    }
}

impl CustomerDataList {
    /// An empty registry.
    pub fn new() -> (r: CustomerDataList)
        ensures
            r@ == Seq::<CustomerView>::empty(),
    {
        let r = CustomerDataList { customers: Vec::new() };
        assert(r@ =~= Seq::<CustomerView>::empty());
        r
    }
}

} // verus!
