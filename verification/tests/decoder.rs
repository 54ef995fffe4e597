use n3ds_sorter::common::FileType;
use n3ds_sorter::hex::format_u8_to_hex_string;
use n3ds_sorter::n3ds::{
    read_header_info_3ds, DecodeError, HEADER_LEN, START_FILE_TYPE_NCCH, START_FILE_TYPE_NCSD,
    START_TITLE_ID_NCCH, START_TITLE_ID_NCSD,
};

fn buffer_with(magic: &[u8; 4], magic_at: usize, id: &[u8; 8], id_at: usize) -> Vec<u8> {
    let mut buf = vec![0u8; HEADER_LEN];
    buf[magic_at..magic_at + 4].copy_from_slice(magic);
    buf[id_at..id_at + 8].copy_from_slice(id);
    buf
}

#[test]
fn ncsd_header_decodes_reversed_hex_id() {
    let id = [0x01, 0x00, 0x00, 0x00, 0x00, 0x00, 0x00, 0x00];
    let buf = buffer_with(b"NCSD", START_FILE_TYPE_NCSD, &id, START_TITLE_ID_NCSD);
    let info = read_header_info_3ds(&buf).unwrap();
    assert_eq!(info.title_id, "0000000000000001");
    assert_eq!(info.file_type, FileType::NCSD);
}

#[test]
fn ncch_header_decodes_reversed_hex_id() {
    let id = [0x00, 0xC3, 0x08, 0x00, 0x00, 0x00, 0x04, 0x00];
    let buf = buffer_with(b"NCCH", START_FILE_TYPE_NCCH, &id, START_TITLE_ID_NCCH);
    let info = read_header_info_3ds(&buf).unwrap();
    assert_eq!(info.title_id, "000400000008C300");
    assert_eq!(info.file_type, FileType::NCCH);
}

#[test]
fn ncsd_detection_takes_precedence() {
    let ncsd_id = [0xAA, 0xBB, 0xCC, 0xDD, 0xEE, 0xFF, 0x11, 0x22];
    let ncch_id = [0x01, 0x02, 0x03, 0x04, 0x05, 0x06, 0x07, 0x08];
    let mut buf = buffer_with(b"NCSD", START_FILE_TYPE_NCSD, &ncsd_id, START_TITLE_ID_NCSD);
    buf[START_FILE_TYPE_NCCH..START_FILE_TYPE_NCCH + 4].copy_from_slice(b"NCCH");
    buf[START_TITLE_ID_NCCH..START_TITLE_ID_NCCH + 8].copy_from_slice(&ncch_id);
    let info = read_header_info_3ds(&buf).unwrap();
    assert_eq!(info.file_type, FileType::NCSD);
    assert_eq!(info.title_id, "2211FFEEDDCCBBAA");
}

#[test]
fn decode_ignores_noise_outside_windows() {
    let id = [0x10, 0x32, 0x54, 0x76, 0x98, 0xBA, 0xDC, 0xFE];
    let quiet = buffer_with(b"NCSD", START_FILE_TYPE_NCSD, &id, START_TITLE_ID_NCSD);
    let mut noisy = quiet.clone();
    for (i, byte) in noisy.iter_mut().enumerate() {
        let inside_ncsd = (START_FILE_TYPE_NCSD..START_TITLE_ID_NCSD + 8).contains(&i);
        let inside_ncch = (START_FILE_TYPE_NCCH..START_TITLE_ID_NCCH + 8).contains(&i);
        if !inside_ncsd && !inside_ncch {
            *byte = (i % 251) as u8;
        }
    }
    let a = read_header_info_3ds(&quiet).unwrap();
    let b = read_header_info_3ds(&noisy).unwrap();
    assert_eq!(a.title_id, b.title_id);
    assert_eq!(a.file_type, b.file_type);
}

#[test]
fn short_buffer_is_truncated() {
    let buf = vec![0u8; HEADER_LEN - 1];
    assert_eq!(read_header_info_3ds(&buf).unwrap_err(), DecodeError::Truncated);
}

#[test]
fn empty_buffer_is_truncated() {
    let buf: Vec<u8> = Vec::new();
    assert_eq!(read_header_info_3ds(&buf).unwrap_err(), DecodeError::Truncated);
}

#[test]
fn missing_magic_is_unrecognized() {
    let buf = vec![0u8; HEADER_LEN];
    assert_eq!(
        read_header_info_3ds(&buf).unwrap_err(),
        DecodeError::UnrecognizedFormat
    );
}

#[test]
fn lowercase_magic_is_not_accepted() {
    let id = [0u8; 8];
    let buf = buffer_with(b"ncsd", START_FILE_TYPE_NCSD, &id, START_TITLE_ID_NCSD);
    assert_eq!(
        read_header_info_3ds(&buf).unwrap_err(),
        DecodeError::UnrecognizedFormat
    );
}

#[test]
fn hex_rendering_is_uppercase_two_digits_per_byte() {
    assert_eq!(format_u8_to_hex_string(vec![0xAB, 0x01, 0xFF]), "AB01FF");
}

#[test]
fn hex_rendering_of_nothing_is_empty() {
    assert_eq!(format_u8_to_hex_string(Vec::new()), "");
}

#[test]
fn reversed_identifier_field_renders_as_spec_example() {
    let raw = vec![0x01, 0x00, 0x00, 0x00, 0x00, 0x00, 0x00, 0x00];
    let reversed: Vec<u8> = raw.into_iter().rev().collect();
    assert_eq!(format_u8_to_hex_string(reversed), "0000000000000001");
}
