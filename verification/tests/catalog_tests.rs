use n3ds_sorter::catalog::{
    build_catalog, read_3ds_metadata_xml, CatalogError, CatalogEvent, CatalogIndex,
};
use n3ds_sorter::common::Region;
use n3ds_sorter::n3ds::N3DSGameMetadata;

fn release_events(name: &str, region: &str, title_id: &str) -> Vec<CatalogEvent> {
    vec![
        CatalogEvent::ElementStart("release".to_string()),
        CatalogEvent::ElementStart("name".to_string()),
        CatalogEvent::Text(name.to_string()),
        CatalogEvent::ElementEnd("name".to_string()),
        CatalogEvent::ElementStart("region".to_string()),
        CatalogEvent::Text(region.to_string()),
        CatalogEvent::ElementEnd("region".to_string()),
        CatalogEvent::ElementStart("titleid".to_string()),
        CatalogEvent::Text(title_id.to_string()),
        CatalogEvent::ElementEnd("titleid".to_string()),
        CatalogEvent::ElementEnd("release".to_string()),
    ]
}

fn record(name: &str, region: Region, title_id: &str) -> N3DSGameMetadata {
    N3DSGameMetadata {
        name: name.to_string(),
        region,
        title_id: title_id.to_string(),
    }
}

#[test]
fn one_release_becomes_one_record() {
    let events = release_events("Game A", "EUR", "000400000008C300");
    let records = build_catalog(&events).unwrap();
    assert_eq!(records.len(), 1);
    assert_eq!(records[0].name, "Game A");
    assert_eq!(records[0].region, Region::EUR);
    assert_eq!(records[0].title_id, "000400000008C300");
}

#[test]
fn untracked_elements_are_ignored() {
    let mut events = vec![
        CatalogEvent::Other,
        CatalogEvent::ElementStart("releases".to_string()),
        CatalogEvent::ElementStart("publisher".to_string()),
        CatalogEvent::Text("Nobody".to_string()),
        CatalogEvent::ElementEnd("publisher".to_string()),
    ];
    events.extend(release_events("Game B", "JPN", "0004000000030F00"));
    events.push(CatalogEvent::ElementEnd("releases".to_string()));
    let records = build_catalog(&events).unwrap();
    assert_eq!(records.len(), 1);
    assert_eq!(records[0].region, Region::JPN);
}

#[test]
fn unknown_region_is_rejected() {
    let events = release_events("Game C", "MARS", "0004000000030F00");
    assert_eq!(build_catalog(&events).unwrap_err(), CatalogError::UnknownRegion);
}

#[test]
fn broken_document_is_rejected() {
    let mut events = release_events("Game D", "EUR", "0004000000030F00");
    events.push(CatalogEvent::Malformed);
    assert_eq!(
        build_catalog(&events).unwrap_err(),
        CatalogError::MalformedDocument
    );
}

#[test]
fn too_many_tracked_texts_are_rejected() {
    let mut events = Vec::new();
    for text in ["a", "b", "c", "d"] {
        events.push(CatalogEvent::ElementStart("name".to_string()));
        events.push(CatalogEvent::Text(text.to_string()));
        events.push(CatalogEvent::ElementEnd("name".to_string()));
    }
    assert_eq!(
        build_catalog(&events).unwrap_err(),
        CatalogError::MalformedDocument
    );
}

#[test]
fn xml_document_parses_to_records() {
    let xml = "<releases>\
        <release><name>Game A</name><region>EUR</region><titleid>AAAA</titleid></release>\
        <release><name>Game B</name><region>JPN</region><titleid>BBBB</titleid></release>\
        </releases>";
    let records = read_3ds_metadata_xml(xml.as_bytes()).unwrap();
    assert_eq!(records.len(), 2);
    assert_eq!(records[0].name, "Game A");
    assert_eq!(records[0].region, Region::EUR);
    assert_eq!(records[0].title_id, "AAAA");
    assert_eq!(records[1].name, "Game B");
    assert_eq!(records[1].region, Region::JPN);
    assert_eq!(records[1].title_id, "BBBB");
}

#[test]
fn xml_entities_are_unescaped() {
    let xml = "<releases><release><name>Fun &amp; Games</name>\
        <region>USA</region><titleid>CCCC</titleid></release></releases>";
    let records = read_3ds_metadata_xml(xml.as_bytes()).unwrap();
    assert_eq!(records[0].name, "Fun & Games");
}

#[test]
fn unclosed_xml_is_rejected() {
    let xml = "<releases><release><name>Game";
    assert_eq!(
        read_3ds_metadata_xml(xml.as_bytes()).unwrap_err(),
        CatalogError::MalformedDocument
    );
}

#[test]
fn xml_with_unknown_region_is_rejected() {
    let xml = "<releases><release><name>Game</name>\
        <region>MOON</region><titleid>DDDD</titleid></release></releases>";
    assert_eq!(
        read_3ds_metadata_xml(xml.as_bytes()).unwrap_err(),
        CatalogError::UnknownRegion
    );
}

#[test]
fn lookup_returns_exactly_the_matching_records() {
    let records = vec![
        record("Game A (EUR)", Region::EUR, "AAAA"),
        record("Game B", Region::USA, "BBBB"),
        record("Game A (JPN)", Region::JPN, "AAAA"),
        record("Game A (USA)", Region::USA, "AAAA"),
    ];
    let index = CatalogIndex::new(records);
    let hits = index.lookup(&"AAAA".to_string());
    assert_eq!(hits.len(), 3);
    assert!(hits.iter().all(|r| r.title_id == "AAAA"));
    assert_eq!(hits[0].name, "Game A (EUR)");
    assert_eq!(hits[1].name, "Game A (JPN)");
    assert_eq!(hits[2].name, "Game A (USA)");
    let misses = index.lookup(&"ZZZZ".to_string());
    assert_eq!(misses.len(), 0);
}
