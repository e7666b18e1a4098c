//! The collaborator data the aspect model is built from: content addresses,
//! entries, chain headers and link statements, each held as plain values
//! together with its mathematical model.
//!
//! These types are consumed by the aspect model, not produced by it: how an
//! address is computed from content, or how a header is assembled, belongs
//! to the surrounding system. Here each type exposes exactly the fields the
//! aspect model reads, and its view says what a value is.

use vstd::prelude::*;

verus! {

/// An opaque, comparable, hashable content identifier: the key under which
/// a value is stored in content-addressed storage.
#[derive(Debug)]
pub struct Address {
    pub key: String,
}

impl View for Address {
    type V = Seq<char>;

    open spec fn view(&self) -> Seq<char> {
        self.key@
    }
}

impl Clone for Address {
    fn clone(&self) -> (r: Self)
        ensures
            r@ == self@,
    {
        Address { key: self.key.clone() }
    }
}

impl PartialEq for Address {
    fn eq(&self, other: &Self) -> bool {
        self.key == other.key
    }
}

impl vstd::std_specs::cmp::PartialEqSpecImpl for Address {
    open spec fn obeys_eq_spec() -> bool {
        true
    }

    open spec fn eq_spec(&self, other: &Self) -> bool {
        self@ == other@
    }
}

/// The model of an [`Entry`]: its payload and its content address, both as
/// sequences of characters.
#[verifier::ext_equal]
pub struct EntryModel {
    pub content: Seq<char>,
    pub address: Seq<char>,
}

/// An opaque entry payload together with its own content address.
///
/// Computing the address from the content is the storage layer's business;
/// the aspect model only ever reads the address back.
pub struct Entry {
    pub content: String,
    pub address: Address,
}

impl View for Entry {
    type V = EntryModel;

    open spec fn view(&self) -> EntryModel {
        EntryModel { content: self.content@, address: self.address@ }
    }
}

impl Entry {
    /// The entry's own content address.
    pub fn address(&self) -> (r: &Address)
        ensures
            r@ == self@.address,
    {
        &self.address
    }
}

impl Clone for Entry {
    fn clone(&self) -> (r: Self)
        ensures
            r@ == self@,
    {
        Entry { content: self.content.clone(), address: self.address.clone() }
    }
}

impl PartialEq for Entry {
    fn eq(&self, other: &Self) -> bool {
        self.content == other.content && self.address == other.address
    }
}

impl vstd::std_specs::cmp::PartialEqSpecImpl for Entry {
    open spec fn obeys_eq_spec() -> bool {
        true
    }

    open spec fn eq_spec(&self, other: &Self) -> bool {
        self@ == other@
    }
}

/// The model of a [`ChainHeader`]: the four facts the aspect model reads
/// from a header.
#[verifier::ext_equal]
pub struct HeaderModel {
    pub entry_type: Seq<char>,
    pub entry_address: Seq<char>,
    pub link_update_delete: Option<Seq<char>>,
    pub address: Seq<char>,
}

/// The provenance record for an entry: the entry-type tag, the address of
/// the entry it headers, an optional supersede/delete reference (the
/// address of the entry being updated or deleted, absent otherwise), and
/// the header's own address.
#[derive(Debug)]
pub struct ChainHeader {
    pub entry_type: String,
    pub entry_address: Address,
    pub link_update_delete: Option<Address>,
    pub address: Address,
}

/// The model of an optional address.
pub open spec fn opt_address_model(o: Option<Address>) -> Option<Seq<char>> {
    match o {
        Option::Some(a) => Option::Some(a@),
        Option::None => Option::None,
    }
}

impl View for ChainHeader {
    type V = HeaderModel;

    open spec fn view(&self) -> HeaderModel {
        HeaderModel {
            entry_type: self.entry_type@,
            entry_address: self.entry_address@,
            link_update_delete: opt_address_model(self.link_update_delete),
            address: self.address@,
        }
    }
}

impl ChainHeader {
    /// The address of the entry this header headers.
    pub fn entry_address(&self) -> (r: &Address)
        ensures
            r@ == self@.entry_address,
    {
        &self.entry_address
    }

    /// The supersede/delete reference: the address of the entry this
    /// header's entry updates or deletes, absent otherwise.
    pub fn link_update_delete(&self) -> (r: &Option<Address>)
        ensures
            opt_address_model(*r) == self@.link_update_delete,
    {
        &self.link_update_delete
    }

    /// The header's entry-type tag.
    pub fn entry_type(&self) -> (r: &String)
        ensures
            r@ == self@.entry_type,
    {
        &self.entry_type
    }

    /// The header's own address.
    pub fn address(&self) -> (r: &Address)
        ensures
            r@ == self@.address,
    {
        &self.address
    }
}

impl Clone for ChainHeader {
    fn clone(&self) -> (r: Self)
        ensures
            r@ == self@,
    {
        ChainHeader {
            entry_type: self.entry_type.clone(),
            entry_address: self.entry_address.clone(),
            link_update_delete: match &self.link_update_delete {
                Option::Some(a) => Option::Some(a.clone()),
                Option::None => Option::None,
            },
            address: self.address.clone(),
        }
    }
}

impl PartialEq for ChainHeader {
    fn eq(&self, other: &Self) -> bool {
        let lud_eq = match (&self.link_update_delete, &other.link_update_delete) {
            (Option::Some(a), Option::Some(b)) => a == b,
            (Option::None, Option::None) => true,
            _ => false,
        };
        self.entry_type == other.entry_type && self.entry_address == other.entry_address && lud_eq
            && self.address == other.address
    }
}

impl vstd::std_specs::cmp::PartialEqSpecImpl for ChainHeader {
    open spec fn obeys_eq_spec() -> bool {
        true
    }

    open spec fn eq_spec(&self, other: &Self) -> bool {
        self@ == other@
    }
}

/// The model of a [`Link`]: base, target, tag and link-type.
#[verifier::ext_equal]
pub struct LinkModel {
    pub base: Seq<char>,
    pub target: Seq<char>,
    pub tag: Seq<char>,
    pub link_type: Seq<char>,
}

/// A link statement: it attaches `target` to `base` under a tag and a
/// link-type. The base address is the entry the link is "about".
pub struct Link {
    pub base: Address,
    pub target: Address,
    pub tag: String,
    pub link_type: String,
}

impl View for Link {
    type V = LinkModel;

    open spec fn view(&self) -> LinkModel {
        LinkModel {
            base: self.base@,
            target: self.target@,
            tag: self.tag@,
            link_type: self.link_type@,
        }
    }
}

impl Link {
    /// The address the link is attached to.
    pub fn base(&self) -> (r: &Address)
        ensures
            r@ == self@.base,
    {
        &self.base
    }

    /// The address the link points at.
    pub fn target(&self) -> (r: &Address)
        ensures
            r@ == self@.target,
    {
        &self.target
    }

    /// The link's tag.
    pub fn tag(&self) -> (r: &String)
        ensures
            r@ == self@.tag,
    {
        &self.tag
    }

    /// The link's type.
    pub fn link_type(&self) -> (r: &String)
        ensures
            r@ == self@.link_type,
    {
        &self.link_type
    }
}

impl Clone for Link {
    fn clone(&self) -> (r: Self)
        ensures
            r@ == self@,
    {
        Link {
            base: self.base.clone(),
            target: self.target.clone(),
            tag: self.tag.clone(),
            link_type: self.link_type.clone(),
        }
    }
}

impl PartialEq for Link {
    fn eq(&self, other: &Self) -> bool {
        self.base == other.base && self.target == other.target && self.tag == other.tag
            && self.link_type == other.link_type
    }
}

impl vstd::std_specs::cmp::PartialEqSpecImpl for Link {
    open spec fn obeys_eq_spec() -> bool {
        true
    }

    open spec fn eq_spec(&self, other: &Self) -> bool {
        self@ == other@
    }
}

/// The model of a [`LinkData`].
#[verifier::ext_equal]
pub struct LinkDataModel {
    pub link: LinkModel,
    pub top_chain_header: HeaderModel,
}

/// A link statement together with the header of the chain tip at the time
/// the link was created.
pub struct LinkData {
    pub link: Link,
    pub top_chain_header: ChainHeader,
}

impl View for LinkData {
    type V = LinkDataModel;

    open spec fn view(&self) -> LinkDataModel {
        LinkDataModel { link: self.link@, top_chain_header: self.top_chain_header@ }
    }
}

impl Clone for LinkData {
    fn clone(&self) -> (r: Self)
        ensures
            r@ == self@,
    {
        LinkData { link: self.link.clone(), top_chain_header: self.top_chain_header.clone() }
    }
}

impl PartialEq for LinkData {
    fn eq(&self, other: &Self) -> bool {
        self.link == other.link && self.top_chain_header == other.top_chain_header
    }
}

impl vstd::std_specs::cmp::PartialEqSpecImpl for LinkData {
    open spec fn obeys_eq_spec() -> bool {
        true
    }

    open spec fn eq_spec(&self, other: &Self) -> bool {
        self@ == other@
    }
}

} // verus!
