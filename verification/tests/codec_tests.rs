use entry_aspect::aspect::EntryAspect;
use entry_aspect::codec::DeserializationError;
use entry_aspect::types::{Address, ChainHeader, Entry, Link, LinkData};

fn addr(s: &str) -> Address {
    Address { key: String::from(s) }
}

fn header_with(crud: Option<&str>) -> ChainHeader {
    ChainHeader {
        entry_type: String::from("app"),
        entry_address: Address { key: String::from("E1") },
        link_update_delete: crud.map(|s| Address { key: String::from(s) }),
        address: Address { key: String::from("H2") },
    }
}

fn entry(content: &str, address: &str) -> Entry {
    Entry { content: String::from(content), address: addr(address) }
}

fn link_data() -> LinkData {
    LinkData {
        link: Link {
            base: addr("B"),
            target: addr("T"),
            tag: String::from("friend"),
            link_type: String::from("follows"),
        },
        top_chain_header: ChainHeader {
            entry_type: String::from("link"),
            entry_address: addr("LE"),
            link_update_delete: None,
            address: addr("TOP"),
        },
    }
}

fn assert_round_trip(v: EntryAspect) {
    let encoded = v.serialize();
    let back = EntryAspect::deserialize(encoded.as_str()).unwrap();
    assert!(back == v);
}

#[test]
fn round_trip_content() {
    assert_round_trip(EntryAspect::Content(entry("some payload", "EA"), header_with(Some("X"))));
}

#[test]
fn round_trip_header() {
    assert_round_trip(EntryAspect::Header(header_with(None)));
}

#[test]
fn round_trip_link_add() {
    assert_round_trip(EntryAspect::LinkAdd(link_data(), header_with(None)));
}

#[test]
fn round_trip_link_remove() {
    assert_round_trip(EntryAspect::LinkRemove(
        (link_data(), vec![addr("R1"), addr("R2"), addr("R3")]),
        header_with(Some("X")),
    ));
    assert_round_trip(EntryAspect::LinkRemove((link_data(), vec![]), header_with(None)));
}

#[test]
fn round_trip_update() {
    assert_round_trip(EntryAspect::Update(entry("new version", "NV"), header_with(Some("OLD"))));
}

#[test]
fn round_trip_deletion() {
    assert_round_trip(EntryAspect::Deletion(header_with(Some("GONE"))));
}

#[test]
fn round_trip_empty_strings() {
    let h = ChainHeader {
        entry_type: String::new(),
        entry_address: addr(""),
        link_update_delete: Some(addr("")),
        address: addr(""),
    };
    assert_round_trip(EntryAspect::Content(entry("", ""), h));
}

#[test]
fn round_trip_wide_characters() {
    let h = ChainHeader {
        entry_type: String::from("ty\u{1F600}pe"),
        entry_address: addr("\u{00e9}\u{00e9}"),
        link_update_delete: Some(addr("x\u{4e2d}y")),
        address: addr("\u{1F600}"),
    };
    assert_round_trip(EntryAspect::Update(entry("p\u{00e9}ayload", "a"), h));
}

#[test]
fn serialize_is_deterministic() {
    let a = EntryAspect::LinkAdd(link_data(), header_with(Some("X")));
    let b = EntryAspect::LinkAdd(link_data(), header_with(Some("X")));
    assert!(a == b);
    assert_eq!(a.serialize(), b.serialize());
    assert_eq!(a.serialize(), a.serialize());
}

#[test]
fn serialize_has_the_expected_encoding() {
    let d = EntryAspect::Deletion(header_with(Some("X")));
    assert_eq!(d.serialize(), "D3:app2:E1+1:X2:H2");
    let h = EntryAspect::Header(header_with(None));
    assert_eq!(h.serialize(), "H3:app2:E1-2:H2");
}

#[test]
fn serialize_counts_characters_not_bytes() {
    let d = EntryAspect::Deletion(ChainHeader {
        entry_type: String::from("\u{00e9}a"),
        entry_address: addr("E"),
        link_update_delete: None,
        address: addr("A"),
    });
    assert_eq!(d.serialize(), "D2:\u{00e9}a1:E-1:A");
}

#[test]
fn deserialize_rejects_malformed_input() {
    for bad in [
        "",
        "Z",
        "D",
        "D3:app",
        "D3:app2:E1+1:X2:H2trailing",
        "D3:app2:E1*1:X2:H2",
        "Dapp",
        "D9:app2:E1+1:X2:H2",
    ] {
        let r = EntryAspect::deserialize(bad);
        match r {
            Ok(_) => panic!("malformed input was accepted"),
            Err(e) => assert!(matches!(e, DeserializationError::Malformed)),
        }
    }
}

#[test]
fn deserialize_rejects_non_canonical_lengths() {
    // The canonical encoding of this deletion writes the entry-type length
    // as "3:"; a redundant leading zero is not canonical and is rejected.
    assert!(EntryAspect::deserialize("D03:app2:E1+1:X2:H2").is_err());
    assert!(EntryAspect::deserialize("D3:app2:E1+01:X2:H2").is_err());
}

#[test]
fn deserialize_accepts_exactly_the_canonical_encoding() {
    let v = EntryAspect::deserialize("D3:app2:E1+1:X2:H2").unwrap();
    assert!(v == EntryAspect::Deletion(header_with(Some("X"))));
    let w = EntryAspect::deserialize("H3:app2:E1-2:H2").unwrap();
    assert!(w == EntryAspect::Header(header_with(None)));
}
