//! The aspect itself: a closed tagged union with one case per kind of fact
//! a node can hold about an entry, and the variant-dependent operations —
//! the discriminator tag, the header accessor and canonical address
//! resolution. Every operation dispatches by exhaustive case analysis with
//! no default arm.

use vstd::prelude::*;
use crate::types::{Address, ChainHeader, Entry, EntryModel, HeaderModel, LinkData, LinkDataModel};

verus! {

/// The model of an [`EntryAspect`]: one case per fact kind, each carrying
/// the models of its payload and of its provenance header.
#[verifier::ext_equal]
pub enum AspectModel {
    Content { entry: EntryModel, header: HeaderModel },
    Header { header: HeaderModel },
    LinkAdd { link: LinkDataModel, header: HeaderModel },
    LinkRemove { link: LinkDataModel, removed: Seq<Seq<char>>, header: HeaderModel },
    Update { entry: EntryModel, header: HeaderModel },
    Deletion { header: HeaderModel },
}

/// One discrete fact a node can hold about an entry.
///
/// Every variant carries exactly one [`ChainHeader`]: content alone never
/// makes sense, since a receiving node needs the provenance to validate
/// what it was sent. The `Header` case has no current producer but stays a
/// constructible, matchable case with defined behaviour in every operation.
pub enum EntryAspect {
    /// The entry's full content together with its originating header.
    Content(Entry, ChainHeader),
    /// A header-only fact, e.g. that an entry existed and was deleted,
    /// without re-sending the content. Reserved; no current producer.
    Header(ChainHeader),
    /// A link-creation fact; the header validates the link-add statement.
    /// Carrying [`LinkData`] rather than a generic entry payload makes
    /// illegal combinations unrepresentable: wrapping this payload in an
    /// entry is guaranteed to reconstruct the entry the header describes.
    LinkAdd(LinkData, ChainHeader),
    /// A link-removal fact: the original link data plus the addresses of
    /// the chain entries that removed it.
    LinkRemove((LinkData, Vec<Address>), ChainHeader),
    /// The new version of an entry plus the header of that new version;
    /// the header's supersede reference points at the original entry.
    Update(Entry, ChainHeader),
    /// A deletion fact; the deleted entry's address is recoverable only
    /// through the header's supersede/delete reference.
    Deletion(ChainHeader),
}

/// The sequence of address models held by a vector of addresses.
pub open spec fn addresses_model(v: Seq<Address>) -> Seq<Seq<char>> {
    v.map_values(|a: Address| a@)
}

impl View for EntryAspect {
    type V = AspectModel;

    open spec fn view(&self) -> AspectModel {
        match self {
            EntryAspect::Content(entry, header) => AspectModel::Content {
                entry: entry@,
                header: header@,
            },
            EntryAspect::Header(header) => AspectModel::Header { header: header@ },
            EntryAspect::LinkAdd(link, header) => AspectModel::LinkAdd {
                link: link@,
                header: header@,
            },
            EntryAspect::LinkRemove((link, removed), header) => AspectModel::LinkRemove {
                link: link@,
                removed: addresses_model(removed@),
                header: header@,
            },
            EntryAspect::Update(entry, header) => AspectModel::Update {
                entry: entry@,
                header: header@,
            },
            EntryAspect::Deletion(header) => AspectModel::Deletion { header: header@ },
        }
    }
}

/// The header embedded in an aspect; total over all six cases.
pub open spec fn header_of(v: AspectModel) -> HeaderModel {
    match v {
        AspectModel::Content { header, .. } => header,
        AspectModel::Header { header } => header,
        AspectModel::LinkAdd { header, .. } => header,
        AspectModel::LinkRemove { header, .. } => header,
        AspectModel::Update { header, .. } => header,
        AspectModel::Deletion { header } => header,
    }
}

/// The discriminator tag of an aspect; total, one fixed value per case.
pub open spec fn type_hint_of(v: AspectModel) -> Seq<char> {
    match v {
        AspectModel::Content { .. } => "content"@,
        AspectModel::Header { .. } => "header"@,
        AspectModel::LinkAdd { .. } => "link_add"@,
        AspectModel::LinkRemove { .. } => "link_remove"@,
        AspectModel::Update { .. } => "update"@,
        AspectModel::Deletion { .. } => "deletion"@,
    }
}

/// The canonical address an aspect is filed under, when the aspect
/// determines one:
/// - `Content` trusts the header's recorded entry address;
/// - `LinkAdd` and `LinkRemove` resolve to the link's base address, never
///   the link statement's own address;
/// - `Update` and `Deletion` resolve to the header's supersede/delete
///   reference, which may be absent — a fatal data-integrity error;
/// - `Header` resolves to the header's own address (the reserved path).
pub open spec fn resolved_address(v: AspectModel) -> Option<Seq<char>> {
    match v {
        AspectModel::Content { header, .. } => Option::Some(header.entry_address),
        AspectModel::Header { header } => Option::Some(header.address),
        AspectModel::LinkAdd { link, .. } => Option::Some(link.link.base),
        AspectModel::LinkRemove { link, .. } => Option::Some(link.link.base),
        AspectModel::Update { header, .. } => header.link_update_delete,
        AspectModel::Deletion { header } => header.link_update_delete,
    }
}

/// The failure of canonical address resolution: an `Update` or `Deletion`
/// aspect whose header lacks the required supersede/delete reference.
/// Carries the offending header for diagnostics.
#[derive(Debug)]
pub struct AddressResolutionError {
    pub header: ChainHeader,
}

impl EntryAspect {
    /// The fixed discriminator tag of the aspect's case: one of `content`,
    /// `header`, `link_add`, `link_remove`, `update`, `deletion`.
    pub fn type_hint(&self) -> (r: String)
        ensures
            r@ == type_hint_of(self@),
    {
        match self {
            EntryAspect::Content(_, _) => String::from_str("content"),
            EntryAspect::Header(_) => String::from_str("header"),
            EntryAspect::LinkAdd(_, _) => String::from_str("link_add"),
            EntryAspect::LinkRemove(_, _) => String::from_str("link_remove"),
            EntryAspect::Update(_, _) => String::from_str("update"),
            EntryAspect::Deletion(_) => String::from_str("deletion"),
        }
    }

    /// The header supplied at construction; total over all six cases.
    pub fn header(&self) -> (r: &ChainHeader)
        ensures
            r@ == header_of(self@),
    {
        match self {
            EntryAspect::Content(_, header) => header,
            EntryAspect::Header(header) => header,
            EntryAspect::LinkAdd(_, header) => header,
            EntryAspect::LinkRemove(_, header) => header,
            EntryAspect::Update(_, header) => header,
            EntryAspect::Deletion(header) => header,
        }
    }

    /// Resolves the canonical address this aspect is filed under, by the
    /// per-case rules of [`resolved_address`]. Succeeds exactly when the
    /// rules determine an address; fails only for `Update` and `Deletion`
    /// aspects whose header lacks the supersede/delete reference, and the
    /// error then carries that header.
    pub fn entry_address(&self) -> (r: Result<Address, AddressResolutionError>)
        ensures
            r is Ok <==> resolved_address(self@) is Some,
            match r {
                Result::Ok(a) => resolved_address(self@) == Option::Some(a@),
                Result::Err(e) => {
                    &&& e.header@ == header_of(self@)
                    &&& header_of(self@).link_update_delete is None
                    &&& self@ is Update || self@ is Deletion
                },
            },
    {
        match self {
            EntryAspect::Content(_, header) => Result::Ok(header.entry_address().clone()),
            EntryAspect::Header(header) => Result::Ok(header.address().clone()),
            EntryAspect::LinkAdd(link_data, _) => Result::Ok(link_data.link.base().clone()),
            EntryAspect::LinkRemove((link_data, _), _) => Result::Ok(
                link_data.link.base().clone(),
            ),
            EntryAspect::Update(_, header) => match header.link_update_delete() {
                Option::Some(a) => Result::Ok(a.clone()),
                Option::None => Result::Err(AddressResolutionError { header: header.clone() }),
            },
            EntryAspect::Deletion(header) => match header.link_update_delete() {
                Option::Some(a) => Result::Ok(a.clone()),
                Option::None => Result::Err(AddressResolutionError { header: header.clone() }),
            },
        }
    }
}

fn address_vecs_eq(a: &Vec<Address>, b: &Vec<Address>) -> (r: bool)
    ensures
        r == (addresses_model(a@) == addresses_model(b@)),
{
    if a.len() != b.len() {
        assert(addresses_model(a@).len() != addresses_model(b@).len());
        return false;
    }
    let mut i: usize = 0;
    while i < a.len()
        invariant
            i <= a.len() == b.len(),
            forall|k: int| 0 <= k < i ==> a@[k]@ == b@[k]@,
        decreases a.len() - i,
    {
        if !(a[i] == b[i]) {
            assert(addresses_model(a@)[i as int] != addresses_model(b@)[i as int]);
            return false;
        }
        i = i + 1;
    }
    assert(addresses_model(a@) =~= addresses_model(b@));
    true
}

fn clone_addresses(v: &Vec<Address>) -> (r: Vec<Address>)
    ensures
        addresses_model(r@) == addresses_model(v@),
{
    let mut r: Vec<Address> = Vec::new();
    let mut i: usize = 0;
    while i < v.len()
        invariant
            i <= v.len(),
            r@.len() == i,
            forall|k: int| 0 <= k < i ==> r@[k]@ == v@[k]@,
        decreases v.len() - i,
    {
        r.push(v[i].clone());
        i = i + 1;
    }
    assert(addresses_model(r@) =~= addresses_model(v@));
    r
}

impl Clone for EntryAspect {
    fn clone(&self) -> (r: Self)
        ensures
            r@ == self@,
    {
        match self {
            EntryAspect::Content(entry, header) => EntryAspect::Content(
                entry.clone(),
                header.clone(),
            ),
            EntryAspect::Header(header) => EntryAspect::Header(header.clone()),
            EntryAspect::LinkAdd(link, header) => EntryAspect::LinkAdd(
                link.clone(),
                header.clone(),
            ),
            EntryAspect::LinkRemove((link, removed), header) => EntryAspect::LinkRemove(
                (link.clone(), clone_addresses(removed)),
                header.clone(),
            ),
            EntryAspect::Update(entry, header) => EntryAspect::Update(
                entry.clone(),
                header.clone(),
            ),
            EntryAspect::Deletion(header) => EntryAspect::Deletion(header.clone()),
        }
    }
}

impl PartialEq for EntryAspect {
    fn eq(&self, other: &Self) -> bool {
        match (self, other) {
            (EntryAspect::Content(e1, h1), EntryAspect::Content(e2, h2)) => e1 == e2 && h1 == h2,
            (EntryAspect::Header(h1), EntryAspect::Header(h2)) => h1 == h2,
            (EntryAspect::LinkAdd(d1, h1), EntryAspect::LinkAdd(d2, h2)) => d1 == d2 && h1 == h2,
            (
                EntryAspect::LinkRemove((d1, r1), h1),
                EntryAspect::LinkRemove((d2, r2), h2),
            ) => d1 == d2 && address_vecs_eq(r1, r2) && h1 == h2,
            (EntryAspect::Update(e1, h1), EntryAspect::Update(e2, h2)) => e1 == e2 && h1 == h2,
            (EntryAspect::Deletion(h1), EntryAspect::Deletion(h2)) => h1 == h2,
            _ => false,
        }
    }
}

impl vstd::std_specs::cmp::PartialEqSpecImpl for EntryAspect {
    open spec fn obeys_eq_spec() -> bool {
        true
    }

    open spec fn eq_spec(&self, other: &Self) -> bool {
        self@ == other@
    }
}

/// The discriminator tag is total: it is always one of the six fixed
/// values.
pub proof fn lemma_type_hint_total(v: AspectModel)
    ensures
        type_hint_of(v) == "content"@ || type_hint_of(v) == "header"@ || type_hint_of(v)
            == "link_add"@ || type_hint_of(v) == "link_remove"@ || type_hint_of(v) == "update"@
            || type_hint_of(v) == "deletion"@,
{
}

/// The discriminator tag is injective on cases: two aspects carry the same
/// tag exactly when they are the same case of the union.
pub proof fn lemma_type_hint_injective(a: AspectModel, b: AspectModel)
    ensures
        type_hint_of(a) == type_hint_of(b) <==> {
            &&& a is Content <==> b is Content
            &&& a is Header <==> b is Header
            &&& a is LinkAdd <==> b is LinkAdd
            &&& a is LinkRemove <==> b is LinkRemove
            &&& a is Update <==> b is Update
            &&& a is Deletion <==> b is Deletion
        },
{
    reveal_strlit("content");
    reveal_strlit("header");
    reveal_strlit("link_add");
    reveal_strlit("link_remove");
    reveal_strlit("update");
    reveal_strlit("deletion");
    assert("content"@.len() == 7);
    assert("header"@.len() == 6);
    assert("link_add"@.len() == 8);
    assert("link_remove"@.len() == 11);
    assert("update"@.len() == 6);
    assert("deletion"@.len() == 8);
    assert("header"@[0] == 'h' && "update"@[0] == 'u');
    assert("link_add"@[0] == 'l' && "deletion"@[0] == 'd');
}

} // verus!
