use n3ds_sorter::catalog::CatalogIndex;
use n3ds_sorter::common::{default_region_priority, region_from_name, FileType, Region};
use n3ds_sorter::matching::{match_file, resolve};
use n3ds_sorter::n3ds::{N3DSGameMetadata, HEADER_LEN, START_FILE_TYPE_NCSD, START_TITLE_ID_NCSD};

fn record(name: &str, region: Region, title_id: &str) -> N3DSGameMetadata {
    N3DSGameMetadata {
        name: name.to_string(),
        region,
        title_id: title_id.to_string(),
    }
}

#[test]
fn sole_candidate_wins_regardless_of_region() {
    let candidates = vec![record("Only", Region::RUS, "ABC")];
    let priority = vec![Region::EUR, Region::USA];
    let winners = resolve(&candidates, &priority);
    assert_eq!(winners.len(), 1);
    assert_eq!(winners[0].name, "Only");
    assert_eq!(winners[0].region, Region::RUS);
}

#[test]
fn earliest_priority_region_wins_among_shared_id() {
    let candidates = vec![
        record("Game (JPN)", Region::JPN, "ABC"),
        record("Game (USA)", Region::USA, "ABC"),
        record("Game (EUR)", Region::EUR, "ABC"),
    ];
    let winners = resolve(&candidates, &default_region_priority());
    assert_eq!(winners.len(), 1);
    assert_eq!(winners[0].name, "Game (EUR)");
    assert_eq!(winners[0].region, Region::EUR);
    assert_eq!(winners[0].title_id, "ABC");
}

#[test]
fn shared_id_yields_exactly_one_winner() {
    let candidates = vec![
        record("Game (USA)", Region::USA, "ABC"),
        record("Game (JPN)", Region::JPN, "ABC"),
    ];
    let priority = vec![Region::EUR, Region::USA, Region::JPN];
    let winners = resolve(&candidates, &priority);
    assert_eq!(winners.len(), 1);
    assert_eq!(winners[0].region, Region::USA);
}

#[test]
fn regions_absent_from_priority_yield_nothing() {
    let candidates = vec![
        record("Game (JPN)", Region::JPN, "ABC"),
        record("Game (USA)", Region::USA, "ABC"),
    ];
    let priority = vec![Region::EUR];
    let winners = resolve(&candidates, &priority);
    assert_eq!(winners.len(), 0);
}

#[test]
fn distinct_ids_each_get_a_winner_in_priority_order() {
    let candidates = vec![
        record("First (JPN)", Region::JPN, "AAA"),
        record("Second (USA)", Region::USA, "BBB"),
    ];
    let priority = vec![Region::EUR, Region::USA, Region::JPN];
    let winners = resolve(&candidates, &priority);
    assert_eq!(winners.len(), 2);
    assert_eq!(winners[0].title_id, "BBB");
    assert_eq!(winners[1].title_id, "AAA");
}

#[test]
fn default_priority_starts_with_eur_and_usa() {
    let priority = default_region_priority();
    assert_eq!(priority.len(), 14);
    assert_eq!(priority[0], Region::EUR);
    assert_eq!(priority[1], Region::USA);
    assert_eq!(priority[13], Region::RUS);
}

#[test]
fn region_tags_parse_and_unknown_tags_do_not() {
    assert_eq!(region_from_name(&"EUR".to_string()), Some(Region::EUR));
    assert_eq!(region_from_name(&"WLD".to_string()), Some(Region::WLD));
    assert_eq!(region_from_name(&"eur".to_string()), None);
    assert_eq!(region_from_name(&"MARS".to_string()), None);
}

#[test]
fn match_file_picks_the_preferred_variant() {
    let records = vec![
        record("Game (USA)", Region::USA, "2211FFEEDDCCBBAA"),
        record("Game (EUR)", Region::EUR, "2211FFEEDDCCBBAA"),
        record("Other", Region::EUR, "0000000000000001"),
    ];
    let index = CatalogIndex::new(records);
    let mut buf = vec![0u8; HEADER_LEN];
    buf[START_FILE_TYPE_NCSD..START_FILE_TYPE_NCSD + 4].copy_from_slice(b"NCSD");
    let id = [0xAA, 0xBB, 0xCC, 0xDD, 0xEE, 0xFF, 0x11, 0x22];
    buf[START_TITLE_ID_NCSD..START_TITLE_ID_NCSD + 8].copy_from_slice(&id);
    let (file_type, winners) = match_file(&buf, &index, &default_region_priority()).unwrap();
    assert_eq!(file_type, FileType::NCSD);
    assert_eq!(winners.len(), 1);
    assert_eq!(winners[0].name, "Game (EUR)");
}

#[test]
fn match_file_with_no_candidates_returns_no_winners() {
    let index = CatalogIndex::new(Vec::new());
    let mut buf = vec![0u8; HEADER_LEN];
    buf[START_FILE_TYPE_NCSD..START_FILE_TYPE_NCSD + 4].copy_from_slice(b"NCSD");
    let (_, winners) = match_file(&buf, &index, &default_region_priority()).unwrap();
    assert_eq!(winners.len(), 0);
}

#[test]
fn match_file_reports_decode_faults() {
    let index = CatalogIndex::new(Vec::new());
    let buf = vec![0u8; 16];
    assert!(match_file(&buf, &index, &default_region_priority()).is_err());
}
