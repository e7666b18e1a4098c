use entry_aspect::aspect::EntryAspect;
use entry_aspect::render::format_header;
use entry_aspect::types::{Address, ChainHeader, Entry, Link, LinkData};

fn addr(s: &str) -> Address {
    Address { key: String::from(s) }
}

fn header_with(crud: Option<&str>) -> ChainHeader {
    ChainHeader {
        entry_type: String::from("app"),
        entry_address: Address { key: String::from("E1") },
        link_update_delete: crud.map(|s| Address { key: String::from(s) }),
        address: Address { key: String::from("H2") },
    }
}

fn entry(content: &str, address: &str) -> Entry {
    Entry { content: String::from(content), address: addr(address) }
}

fn link_data() -> LinkData {
    LinkData {
        link: Link {
            base: addr("B"),
            target: addr("T"),
            tag: String::from("friend"),
            link_type: String::from("follows"),
        },
        top_chain_header: ChainHeader {
            entry_type: String::from("link"),
            entry_address: addr("LE"),
            link_update_delete: None,
            address: addr("TOP"),
        },
    }
}

#[test]
fn type_hint_has_the_six_fixed_values() {
    let h = || header_with(None);
    assert_eq!(EntryAspect::Content(entry("c", "a"), h()).type_hint(), "content");
    assert_eq!(EntryAspect::Header(h()).type_hint(), "header");
    assert_eq!(EntryAspect::LinkAdd(link_data(), h()).type_hint(), "link_add");
    assert_eq!(
        EntryAspect::LinkRemove((link_data(), vec![addr("R1")]), h()).type_hint(),
        "link_remove"
    );
    assert_eq!(EntryAspect::Update(entry("c", "a"), h()).type_hint(), "update");
    assert_eq!(EntryAspect::Deletion(h()).type_hint(), "deletion");
}

#[test]
fn type_hint_is_injective_on_cases() {
    let h = || header_with(None);
    let hints = vec![
        EntryAspect::Content(entry("c", "a"), h()).type_hint(),
        EntryAspect::Header(h()).type_hint(),
        EntryAspect::LinkAdd(link_data(), h()).type_hint(),
        EntryAspect::LinkRemove((link_data(), vec![]), h()).type_hint(),
        EntryAspect::Update(entry("c", "a"), h()).type_hint(),
        EntryAspect::Deletion(h()).type_hint(),
    ];
    for i in 0..hints.len() {
        for j in 0..hints.len() {
            if i != j {
                assert_ne!(hints[i], hints[j]);
            }
        }
    }
}

#[test]
fn header_returns_the_header_supplied_at_construction() {
    let h = header_with(Some("X"));
    assert!(*EntryAspect::Content(entry("c", "a"), h.clone()).header() == h);
    assert!(*EntryAspect::Header(h.clone()).header() == h);
    assert!(*EntryAspect::LinkAdd(link_data(), h.clone()).header() == h);
    assert!(
        *EntryAspect::LinkRemove((link_data(), vec![addr("R1")]), h.clone()).header() == h
    );
    assert!(*EntryAspect::Update(entry("c", "a"), h.clone()).header() == h);
    assert!(*EntryAspect::Deletion(h.clone()).header() == h);
}

#[test]
fn deletion_without_supersede_reference_fails_address_resolution() {
    let h1 = header_with(None);
    let r = EntryAspect::Deletion(h1.clone()).entry_address();
    match r {
        Ok(_) => panic!("resolution must fail without a supersede reference"),
        Err(e) => assert!(e.header == h1),
    }
}

#[test]
fn update_without_supersede_reference_fails_address_resolution() {
    let h1 = header_with(None);
    let r = EntryAspect::Update(entry("new", "NA"), h1.clone()).entry_address();
    match r {
        Ok(_) => panic!("resolution must fail without a supersede reference"),
        Err(e) => assert!(e.header == h1),
    }
}

#[test]
fn deletion_and_update_resolve_to_the_supersede_reference() {
    let h2 = header_with(Some("X"));
    assert!(EntryAspect::Deletion(h2.clone()).entry_address().unwrap() == addr("X"));
    assert!(
        EntryAspect::Update(entry("anything", "ZZ"), h2).entry_address().unwrap() == addr("X")
    );
}

#[test]
fn link_aspects_resolve_to_the_base_address() {
    let h = header_with(Some("ignored"));
    assert!(EntryAspect::LinkAdd(link_data(), h.clone()).entry_address().unwrap() == addr("B"));
    let removals = vec![addr("R1"), addr("R2")];
    assert!(
        EntryAspect::LinkRemove((link_data(), removals), h).entry_address().unwrap() == addr("B")
    );
}

#[test]
fn content_resolves_to_the_recorded_entry_address() {
    let h = header_with(None);
    let e = entry("payload", "SOMETHING_ELSE");
    assert!(EntryAspect::Content(e, h).entry_address().unwrap() == addr("E1"));
}

#[test]
fn header_aspect_resolves_to_the_header_own_address() {
    let h = header_with(None);
    assert!(EntryAspect::Header(h).entry_address().unwrap() == addr("H2"));
}

#[test]
fn equal_aspects_hash_equal() {
    let a = EntryAspect::Content(entry("c", "a"), header_with(Some("X")));
    let b = EntryAspect::Content(entry("c", "a"), header_with(Some("X")));
    assert!(a == b);
    assert_eq!(a.aspect_hash(), b.aspect_hash());
}

#[test]
fn unequal_aspects_sharing_header_and_case_may_hash_equal() {
    let a = EntryAspect::Content(entry("one payload", "a"), header_with(Some("X")));
    let b = EntryAspect::Content(entry("another payload", "b"), header_with(Some("X")));
    assert!(!(a == b));
    // The hash is computed from the header and the discriminator tag only,
    // so this collision is expected, not a defect.
    assert_eq!(a.aspect_hash(), b.aspect_hash());
}

#[test]
fn hash_has_the_expected_value() {
    let a = EntryAspect::Deletion(header_with(Some("X")));
    assert_eq!(a.aspect_hash(), 14984302179152589791u64);
}

#[test]
fn format_header_shows_type_and_crud_link() {
    assert_eq!(
        format_header(&header_with(Some("X"))),
        "Header[type: app, crud_link: Some(X)]"
    );
    assert_eq!(format_header(&header_with(None)), "Header[type: app, crud_link: None]");
}

#[test]
fn render_link_add_is_complete() {
    let r = EntryAspect::LinkAdd(link_data(), header_with(None)).render();
    assert!(r.contains("B"));
    assert!(r.contains("T"));
    assert!(r.contains("friend"));
    assert!(r.contains("follows"));
    assert_eq!(
        r,
        "EntryAspect::LinkAdd(B -> T [tag: friend, type: follows], \
         Header[type: app, crud_link: None])"
    );
}

#[test]
fn render_link_remove_nests_both_header_summaries() {
    let r = EntryAspect::LinkRemove((link_data(), vec![addr("R1")]), header_with(None)).render();
    assert!(r.contains("Header[type: link, crud_link: None]"));
    assert!(r.contains("Header[type: app, crud_link: None]"));
    assert!(r.contains("top_chain_header:"));
    assert!(r.contains("remove_header: "));
}

#[test]
fn render_content_and_deletion() {
    let c = EntryAspect::Content(entry("c", "EA"), header_with(Some("X"))).render();
    assert_eq!(c, "EntryAspect::Content(EA, Header[type: app, crud_link: Some(X)])");
    let d = EntryAspect::Deletion(header_with(None)).render();
    assert_eq!(d, "EntryAspect::Deletion(Header[type: app, crud_link: None])");
}

#[test]
fn clone_preserves_the_value() {
    let a = EntryAspect::LinkRemove(
        (link_data(), vec![addr("R1"), addr("R2")]),
        header_with(Some("X")),
    );
    let b = a.clone();
    assert!(a == b);
}
