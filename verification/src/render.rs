//! Human-readable rendering of aspects for debugging and logs.
//!
//! Every case is rendered by exhaustive dispatch: `Content` and `Update`
//! show the entry's address and a compact header summary; `Header` and
//! `Deletion` the header summary alone; `LinkAdd` shows base, target, tag
//! and link-type; `LinkRemove` additionally nests the embedded link data's
//! own top-chain-header summary inside the outer header summary.

use vstd::prelude::*;
use vstd::string::StringExecFns;
use crate::aspect::{AspectModel, EntryAspect};
use crate::types::{ChainHeader, HeaderModel};

verus! {

/// The rendering of an optional supersede/delete reference.
pub open spec fn opt_summary(o: Option<Seq<char>>) -> Seq<char> {
    match o {
        Option::Some(a) => "Some("@ + a + ")"@,
        Option::None => "None"@,
    }
}

/// The compact summary of a header: its entry-type tag and its
/// supersede/delete reference.
pub open spec fn header_summary(h: HeaderModel) -> Seq<char> {
    "Header[type: "@ + h.entry_type + ", crud_link: "@ + opt_summary(h.link_update_delete) + "]"@
}

/// The full rendering of an aspect.
pub open spec fn render_model(v: AspectModel) -> Seq<char> {
    match v {
        AspectModel::Content { entry, header } => "EntryAspect::Content("@ + entry.address + ", "@
            + header_summary(header) + ")"@,
        AspectModel::Header { header } => "EntryAspect::Header("@ + header_summary(header) + ")"@,
        AspectModel::LinkAdd { link, header } => "EntryAspect::LinkAdd("@ + link.link.base
            + " -> "@ + link.link.target + " [tag: "@ + link.link.tag + ", type: "@
            + link.link.link_type + "], "@ + header_summary(header) + ")"@,
        AspectModel::LinkRemove { link, removed, header } => "EntryAspect::LinkRemove("@
            + link.link.base + " -> "@ + link.link.target + " [tag: "@ + link.link.tag
            + ", type: "@ + link.link.link_type + "], top_chain_header:"@ + header_summary(
            link.top_chain_header,
        ) + ", remove_header: "@ + header_summary(header) + ")"@,
        AspectModel::Update { entry, header } => "EntryAspect::Update("@ + entry.address + ", "@
            + header_summary(header) + ")"@,
        AspectModel::Deletion { header } => "EntryAspect::Deletion("@ + header_summary(header)
            + ")"@,
    }
}

/// Renders the compact summary of a header: its entry-type tag and its
/// supersede/delete reference.
pub fn format_header(header: &ChainHeader) -> (r: String)
    ensures
        r@ == header_summary(header@),
{
    let mut out = String::from_str("Header[type: ");
    out.append(header.entry_type().as_str());
    out.append(", crud_link: ");
    match header.link_update_delete() {
        Option::Some(a) => {
            out.append("Some(");
            out.append(a.key.as_str());
            out.append(")");
        },
        Option::None => {
            out.append("None");
        },
    }
    out.append("]");
    assert(out@ =~= header_summary(header@));
    out
}

impl EntryAspect {
    /// Renders the aspect for debugging and logs: the case name, the values
    /// the case is about, and the compact summary of its header.
    pub fn render(&self) -> (r: String)
        ensures
            r@ == render_model(self@),
    {
        match self {
            EntryAspect::Content(entry, header) => {
                let mut out = String::from_str("EntryAspect::Content(");
                out.append(entry.address().key.as_str());
                out.append(", ");
                out.append(format_header(header).as_str());
                out.append(")");
                assert(out@ =~= render_model(self@));
                out
            },
            EntryAspect::Header(header) => {
                let mut out = String::from_str("EntryAspect::Header(");
                out.append(format_header(header).as_str());
                out.append(")");
                assert(out@ =~= render_model(self@));
                out
            },
            EntryAspect::LinkAdd(link_data, header) => {
                let mut out = String::from_str("EntryAspect::LinkAdd(");
                out.append(link_data.link.base().key.as_str());
                out.append(" -> ");
                out.append(link_data.link.target().key.as_str());
                out.append(" [tag: ");
                out.append(link_data.link.tag().as_str());
                out.append(", type: ");
                out.append(link_data.link.link_type().as_str());
                out.append("], ");
                out.append(format_header(header).as_str());
                out.append(")");
                assert(out@ =~= render_model(self@));
                out
            },
            EntryAspect::LinkRemove((link_data, _), header) => {
                let mut out = String::from_str("EntryAspect::LinkRemove(");
                out.append(link_data.link.base().key.as_str());
                out.append(" -> ");
                out.append(link_data.link.target().key.as_str());
                out.append(" [tag: ");
                out.append(link_data.link.tag().as_str());
                out.append(", type: ");
                out.append(link_data.link.link_type().as_str());
                out.append("], top_chain_header:");
                out.append(format_header(&link_data.top_chain_header).as_str());
                out.append(", remove_header: ");
                out.append(format_header(header).as_str());
                out.append(")");
                assert(out@ =~= render_model(self@));
                out
            },
            EntryAspect::Update(entry, header) => {
                let mut out = String::from_str("EntryAspect::Update(");
                out.append(entry.address().key.as_str());
                out.append(", ");
                out.append(format_header(header).as_str());
                out.append(")");
                assert(out@ =~= render_model(self@));
                out
            },
            EntryAspect::Deletion(header) => {
                let mut out = String::from_str("EntryAspect::Deletion(");
                out.append(format_header(header).as_str());
                out.append(")");
                assert(out@ =~= render_model(self@));
                out
            },
        }
    }
}

/// `needle` occurs verbatim inside `hay`.
pub open spec fn contains_seq(hay: Seq<char>, needle: Seq<char>) -> bool {
    exists|i: int|
        0 <= i && i + needle.len() <= hay.len() && #[trigger] hay.subrange(i, i + needle.len())
            == needle
}

proof fn lemma_concat_contains(prefix: Seq<char>, needle: Seq<char>, suffix: Seq<char>)
    ensures
        contains_seq(prefix + needle + suffix, needle),
{
    let hay = prefix + needle + suffix;
    let i = prefix.len() as int;
    assert(hay.subrange(i, i + needle.len()) =~= needle);
}

/// Rendering a `LinkAdd` aspect is complete: the rendering contains the
/// link's base, target, tag and link-type verbatim.
pub proof fn lemma_render_link_add_complete(v: AspectModel)
    requires
        v is LinkAdd,
    ensures
        contains_seq(render_model(v), v->LinkAdd_link.link.base),
        contains_seq(render_model(v), v->LinkAdd_link.link.target),
        contains_seq(render_model(v), v->LinkAdd_link.link.tag),
        contains_seq(render_model(v), v->LinkAdd_link.link.link_type),
{
    let link = v->LinkAdd_link.link;
    let header = v->LinkAdd_header;
    let s1 = "EntryAspect::LinkAdd("@;
    let s2 = " -> "@;
    let s3 = " [tag: "@;
    let s4 = ", type: "@;
    let s5 = "], "@;
    let s6 = ")"@;
    let hay = render_model(v);
    assert(hay =~= s1 + link.base + (s2 + link.target + s3 + link.tag + s4 + link.link_type + s5
        + header_summary(header) + s6));
    lemma_concat_contains(s1, link.base, s2 + link.target + s3 + link.tag + s4 + link.link_type
        + s5 + header_summary(header) + s6);
    assert(hay =~= (s1 + link.base + s2) + link.target + (s3 + link.tag + s4 + link.link_type + s5
        + header_summary(header) + s6));
    lemma_concat_contains(s1 + link.base + s2, link.target, s3 + link.tag + s4 + link.link_type
        + s5 + header_summary(header) + s6);
    assert(hay =~= (s1 + link.base + s2 + link.target + s3) + link.tag + (s4 + link.link_type + s5
        + header_summary(header) + s6));
    lemma_concat_contains(s1 + link.base + s2 + link.target + s3, link.tag, s4 + link.link_type
        + s5 + header_summary(header) + s6);
    assert(hay =~= (s1 + link.base + s2 + link.target + s3 + link.tag + s4) + link.link_type + (s5
        + header_summary(header) + s6));
    lemma_concat_contains(s1 + link.base + s2 + link.target + s3 + link.tag + s4, link.link_type,
        s5 + header_summary(header) + s6);
}

/// Rendering a `LinkRemove` aspect is complete: the rendering contains both
/// the outer header's summary and, nested, the summary of the embedded link
/// data's own top chain header.
pub proof fn lemma_render_link_remove_complete(v: AspectModel)
    requires
        v is LinkRemove,
    ensures
        contains_seq(render_model(v), header_summary(v->LinkRemove_header)),
        contains_seq(render_model(v), header_summary(v->LinkRemove_link.top_chain_header)),
{
    let link = v->LinkRemove_link.link;
    let top = header_summary(v->LinkRemove_link.top_chain_header);
    let outer = header_summary(v->LinkRemove_header);
    let s1 = "EntryAspect::LinkRemove("@;
    let s2 = " -> "@;
    let s3 = " [tag: "@;
    let s4 = ", type: "@;
    let s5 = "], top_chain_header:"@;
    let s6 = ", remove_header: "@;
    let s7 = ")"@;
    let hay = render_model(v);
    assert(hay =~= (s1 + link.base + s2 + link.target + s3 + link.tag + s4 + link.link_type + s5)
        + top + (s6 + outer + s7));
    lemma_concat_contains(s1 + link.base + s2 + link.target + s3 + link.tag + s4 + link.link_type
        + s5, top, s6 + outer + s7);
    assert(hay =~= (s1 + link.base + s2 + link.target + s3 + link.tag + s4 + link.link_type + s5
        + top + s6) + outer + s7);
    lemma_concat_contains(s1 + link.base + s2 + link.target + s3 + link.tag + s4 + link.link_type
        + s5 + top + s6, outer, s7);
}

} // verus!
