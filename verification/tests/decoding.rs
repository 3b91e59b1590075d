use bincode::Options;
use ftl_saves::bytes::ByteReader;
use ftl_saves::bytes::DecodeError;
use ftl_saves::header::bytes_needed;
use ftl_saves::header::decode;
use ftl_saves::header::decode_compact;
use ftl_saves::header::decode_extended;
use ftl_saves::header::get_save_info;
use ftl_saves::header::preview_of;
use ftl_saves::header::read_header;
use ftl_saves::header::read_raw_name;
use ftl_saves::header::read_sav;
use ftl_saves::header::strip_placeholders;
use ftl_saves::header::Header;
use ftl_saves::header::Layout;
use ftl_saves::header::Sav;

fn words(values: &[u32]) -> Vec<u8> {
    let mut bytes = Vec::new();
    for value in values {
        bytes.extend_from_slice(&value.to_le_bytes());
    }
    bytes
}

fn extended(name: &[u8], declared: i32) -> Vec<u8> {
    let mut bytes = words(&[9, 4, 17, 250, 3, 0]);
    bytes.extend_from_slice(&declared.to_le_bytes());
    bytes.extend_from_slice(name);
    bytes
}

#[test]
fn reads_u32_least_significant_byte_first() {
    let source = [0x78u8, 0x56, 0x34, 0x12, 0xFF];
    let reader = ByteReader::new(&source);
    assert_eq!(reader.len(), 5);
    assert_eq!(reader.read_u32_le(0), Ok(0x1234_5678));
    assert_eq!(reader.read_u32_le(1), Ok(0xFF12_3456));
}

#[test]
fn reads_need_no_earlier_read() {
    let source = [1u8, 0, 0, 0, 2, 0, 0, 0];
    let reader = ByteReader::new(&source);
    assert_eq!(reader.read_u32_le(4), Ok(2));
    assert_eq!(reader.read_u32_le(0), Ok(1));
    assert_eq!(reader.read_u32_le(4), Ok(2));
}

#[test]
fn reads_i32_in_twos_complement() {
    let source = [0xFFu8, 0xFF, 0xFF, 0xFF, 0x00, 0x00, 0x00, 0x80, 0xC0, 0xBD, 0xF0, 0xFF];
    let reader = ByteReader::new(&source);
    assert_eq!(reader.read_i32_le(0), Ok(-1));
    assert_eq!(reader.read_i32_le(4), Ok(i32::MIN));
    assert_eq!(reader.read_i32_le(8), Ok(-1_000_000));
    assert_eq!(reader.read_u32_le(0), Ok(u32::MAX));
}

#[test]
fn integer_reads_past_the_end_are_out_of_range() {
    let source = [1u8, 2, 3, 4, 5];
    let reader = ByteReader::new(&source);
    assert_eq!(reader.read_u32_le(1), Ok(0x0504_0302));
    assert_eq!(reader.read_u32_le(2), Err(DecodeError::OutOfRange));
    assert_eq!(reader.read_i32_le(2), Err(DecodeError::OutOfRange));
    assert_eq!(reader.read_u32_le(5), Err(DecodeError::OutOfRange));
    assert_eq!(reader.read_i32_le(usize::MAX), Err(DecodeError::OutOfRange));
}

#[test]
fn read_bytes_returns_the_run() {
    let source = [10u8, 11, 12, 13, 14, 15];
    let reader = ByteReader::new(&source);
    assert_eq!(reader.read_bytes(2, 3), Ok(vec![12, 13, 14]));
    assert_eq!(reader.read_bytes(0, 6), Ok(vec![10, 11, 12, 13, 14, 15]));
    assert_eq!(reader.read_bytes(6, 0), Ok(vec![]));
    assert_eq!(reader.read_bytes(3, 0), Ok(vec![]));
}

#[test]
fn read_bytes_past_the_end_is_out_of_range() {
    let source = [10u8, 11, 12, 13, 14, 15];
    let reader = ByteReader::new(&source);
    assert_eq!(reader.read_bytes(2, 5), Err(DecodeError::OutOfRange));
    assert_eq!(reader.read_bytes(7, 0), Err(DecodeError::OutOfRange));
    assert_eq!(reader.read_bytes(0, 7), Err(DecodeError::OutOfRange));
    assert_eq!(reader.read_bytes(usize::MAX, 2), Err(DecodeError::OutOfRange));
    assert_eq!(reader.read_bytes(1, usize::MAX), Err(DecodeError::OutOfRange));
}

#[test]
fn reads_of_an_empty_source() {
    let source: [u8; 0] = [];
    let reader = ByteReader::new(&source);
    assert_eq!(reader.read_bytes(0, 0), Ok(vec![]));
    assert_eq!(reader.read_u32_le(0), Err(DecodeError::OutOfRange));
}

#[test]
fn compact_yields_the_six_integers() {
    let bytes = words(&[11, 2, 30, 7, 1234, 5]);
    let decoded = decode_compact(&bytes).unwrap();
    assert_eq!(decoded.version, 11);
    assert_eq!(decoded.difficulty, 2);
    assert_eq!(decoded.ships_defeated, 30);
    assert_eq!(decoded.jumps_in_sector, 7);
    assert_eq!(decoded.scrap_collected, 1234);
    assert_eq!(decoded.crew_recruited, 5);
    assert_eq!(decoded.ship_name, None);
}

#[test]
fn compact_ignores_what_follows() {
    let mut plain = words(&[11, 2, 30, 7, 1234, 5]);
    let mut trailed = plain.clone();
    plain.extend_from_slice(&[0; 9]);
    trailed.extend_from_slice(&[0xFF, 0x3F, 0x80, 1, 2, 3]);
    let a = decode_compact(&plain).unwrap();
    let b = decode_compact(&trailed).unwrap();
    assert_eq!(a.version, b.version);
    assert_eq!(a.difficulty, b.difficulty);
    assert_eq!(a.ships_defeated, b.ships_defeated);
    assert_eq!(a.jumps_in_sector, b.jumps_in_sector);
    assert_eq!(a.scrap_collected, b.scrap_collected);
    assert_eq!(b.crew_recruited, 5);
}

#[test]
fn compact_values_are_unsigned() {
    let bytes = words(&[u32::MAX, 0x8000_0000, 0, 0, 0, 0]);
    let decoded = decode_compact(&bytes).unwrap();
    assert_eq!(decoded.version, 4_294_967_295);
    assert_eq!(decoded.difficulty, 2_147_483_648);
}

#[test]
fn compact_needs_twenty_four_bytes() {
    let bytes = words(&[11, 2, 30, 7, 1234, 5]);
    assert!(decode_compact(&bytes[..24]).is_ok());
    assert_eq!(decode_compact(&bytes[..23]).err(), Some(DecodeError::OutOfRange));
    assert_eq!(decode_compact(&[]).err(), Some(DecodeError::OutOfRange));
}

#[test]
fn extended_yields_the_name_and_the_header() {
    let bytes = extended(b"The Kestrel", 11);
    let decoded = decode_extended(&bytes).unwrap();
    assert_eq!(decoded.ship_name, Some(String::from("The Kestrel")));
    assert_eq!(decoded.version, 9);
    assert_eq!(decoded.difficulty, 0);
    assert_eq!(decoded.ships_defeated, 4);
    assert_eq!(decoded.jumps_in_sector, 17);
    assert_eq!(decoded.scrap_collected, 250);
    assert_eq!(decoded.crew_recruited, 3);
}

#[test]
fn extended_name_stops_at_the_declared_length() {
    let bytes = extended(b"The Kestrel and more", 11);
    assert_eq!(get_save_info(&bytes), Ok(String::from("The Kestrel")));
    assert_eq!(read_raw_name(&bytes), Ok(b"The Kestrel".to_vec()));
}

#[test]
fn extended_with_an_empty_name() {
    let bytes = extended(b"", 0);
    assert_eq!(bytes.len(), 28);
    assert_eq!(get_save_info(&bytes), Ok(String::new()));
}

#[test]
fn extended_rejects_a_name_longer_than_the_bytes() {
    let bytes = extended(b"The Kestrel", 12);
    assert_eq!(get_save_info(&bytes), Err(DecodeError::OutOfRange));
    assert_eq!(decode_extended(&bytes).err(), Some(DecodeError::OutOfRange));
    assert_eq!(read_raw_name(&bytes), Err(DecodeError::OutOfRange));
    let huge = extended(b"The Kestrel", i32::MAX);
    assert_eq!(get_save_info(&huge), Err(DecodeError::OutOfRange));
}

#[test]
fn extended_rejects_a_negative_length() {
    let bytes = extended(b"The Kestrel", -1);
    assert_eq!(get_save_info(&bytes), Err(DecodeError::OutOfRange));
    let lowest = extended(b"The Kestrel", i32::MIN);
    assert_eq!(decode_extended(&lowest).err(), Some(DecodeError::OutOfRange));
}

#[test]
fn extended_rejects_a_missing_length_field() {
    let bytes = extended(b"", 0);
    assert_eq!(get_save_info(&bytes[..27]), Err(DecodeError::OutOfRange));
    assert_eq!(get_save_info(&bytes[..24]), Err(DecodeError::OutOfRange));
    assert_eq!(get_save_info(&[]), Err(DecodeError::OutOfRange));
}

#[test]
fn placeholders_are_stripped_from_the_name() {
    let bytes = extended(b"?Red? Tail??", 12);
    assert_eq!(get_save_info(&bytes), Ok(String::from("Red Tail")));
    let only = extended(b"???", 3);
    assert_eq!(get_save_info(&only), Ok(String::new()));
}

#[test]
fn strip_keeps_every_other_character() {
    assert_eq!(strip_placeholders("a?b?c"), "abc");
    assert_eq!(strip_placeholders("no marks!"), "no marks!");
    assert_eq!(strip_placeholders(""), "");
    assert_eq!(strip_placeholders("?"), "");
    assert_eq!(strip_placeholders("Gr\u{fc}\u{df}e ? \u{1F680}?\u{FFFD}"), "Gr\u{fc}\u{df}e  \u{1F680}\u{FFFD}");
}

#[test]
fn invalid_utf8_is_replaced_not_refused() {
    let bytes = extended(&[b'K', 0xFF, b'?', 0xC3, 0xA9, 0x80], 6);
    assert_eq!(get_save_info(&bytes), Ok(String::from("K\u{FFFD}\u{e9}\u{FFFD}")));
}

#[test]
fn header_is_six_signed_integers() {
    let bytes = words(&[9, 0xFFFF_FFFF, 17, 250, 0x8000_0000, 77]);
    assert_eq!(
        read_header(&bytes),
        Ok(Header {
            version: 9,
            ships_defeated: -1,
            jumps_in_sector: 17,
            scrap_collected: 250,
            crew_recruited: i32::MIN,
            xxx: 77,
        })
    );
    assert_eq!(read_header(&bytes[..23]), Err(DecodeError::OutOfRange));
}

#[test]
fn sav_is_the_header_and_a_length() {
    let mut bytes = words(&[2, 1, 2, 3, 4, 5, 0xFFFF_FFFE]);
    let expected = Sav {
        header: Header {
            version: 2,
            ships_defeated: 1,
            jumps_in_sector: 2,
            scrap_collected: 3,
            crew_recruited: 4,
            xxx: 5,
        },
        player_name_len: 4_294_967_294,
    };
    assert_eq!(read_sav(&bytes), Ok(expected));
    bytes.extend_from_slice(b"trailing");
    assert_eq!(read_sav(&bytes), Ok(expected));
    assert_eq!(read_sav(&bytes[..27]), Err(DecodeError::OutOfRange));
}

#[test]
fn decode_follows_the_named_layout() {
    let bytes = extended(b"Osprey", 6);
    let as_extended = decode(&bytes, Layout::Extended).unwrap();
    let as_compact = decode(&bytes, Layout::Compact).unwrap();
    assert_eq!(as_extended.ship_name, Some(String::from("Osprey")));
    assert_eq!(as_extended.ships_defeated, 4);
    assert_eq!(as_compact.ship_name, None);
    assert_eq!(as_compact.difficulty, 4);
    assert_eq!(as_compact.ships_defeated, 17);
}

#[test]
fn preview_is_unavailable_rather_than_an_error() {
    let short = words(&[1, 2, 3]);
    assert!(preview_of(&short, Layout::Compact).is_none());
    assert!(preview_of(&short, Layout::Extended).is_none());
    let whole = words(&[1, 2, 3, 4, 5, 6]);
    assert_eq!(preview_of(&whole, Layout::Compact).unwrap().crew_recruited, 6);
    assert!(preview_of(&whole, Layout::Extended).is_none());
}

#[test]
fn one_bad_slot_does_not_spoil_the_others() {
    let saves = vec![extended(b"Kestrel", 7), vec![1, 2, 3], extended(b"Tor?us", 6)];
    let names: Vec<Option<String>> = saves
        .iter()
        .map(|bytes| preview_of(bytes, Layout::Extended).and_then(|p| p.ship_name))
        .collect();
    assert_eq!(names, vec![Some(String::from("Kestrel")), None, Some(String::from("Torus"))]);
}

#[test]
fn sav_agrees_with_a_fixed_width_reading() {
    let mut bytes = words(&[2, 0xFFFF_FFF0, 2, 3, 0x8000_0001, 5, 0xDEAD_BEEF]);
    bytes.extend_from_slice(b"and the rest of the file");
    let fields: ((i32, i32, i32, i32, i32, i32), u32) = bincode::DefaultOptions::new()
        .with_fixint_encoding()
        .allow_trailing_bytes()
        .deserialize(&bytes)
        .unwrap();
    let sav = read_sav(&bytes).unwrap();
    let header = sav.header;
    assert_eq!(
        fields,
        (
            (
                header.version,
                header.ships_defeated,
                header.jumps_in_sector,
                header.scrap_collected,
                header.crew_recruited,
                header.xxx,
            ),
            sav.player_name_len,
        )
    );
    assert_eq!(header.ships_defeated, -16);
    assert_eq!(sav.player_name_len, 0xDEAD_BEEF);
}

#[test]
fn bytes_needed_for_a_preview() {
    let bytes = extended(b"The Kestrel and more", 11);
    assert_eq!(bytes_needed(&bytes[..28], Layout::Extended), Ok(39));
    assert_eq!(bytes_needed(&bytes, Layout::Extended), Ok(39));
    assert_eq!(bytes_needed(&bytes[..27], Layout::Extended), Err(DecodeError::OutOfRange));
    assert_eq!(bytes_needed(&extended(b"", -5), Layout::Extended), Err(DecodeError::OutOfRange));
    assert_eq!(bytes_needed(&extended(b"", i32::MAX), Layout::Extended), Ok(2_147_483_675));
    assert_eq!(bytes_needed(&[], Layout::Compact), Ok(24));
    assert_eq!(bytes_needed(&bytes, Layout::Compact), Ok(24));
}

#[test]
fn preview_reads_no_further_than_needed() {
    let bytes = extended(b"The Kestrel and more", 11);
    let needed = bytes_needed(&bytes[..28], Layout::Extended).unwrap();
    let whole = decode(&bytes, Layout::Extended).unwrap();
    let cut = decode(&bytes[..needed], Layout::Extended).unwrap();
    assert_eq!(whole.ship_name, cut.ship_name);
    assert_eq!(cut.ship_name, Some(String::from("The Kestrel")));
    assert_eq!(whole.scrap_collected, cut.scrap_collected);
    assert!(decode(&bytes[..needed - 1], Layout::Extended).is_err());
}

#[test]
fn name_length_follows_the_six_integers() {
    let mut bytes = vec![0u8; 24];
    bytes.extend_from_slice(&13i32.to_le_bytes());
    bytes.extend_from_slice(b"The ?Kestrel?");
    assert_eq!(bytes.len(), 41);
    assert_eq!(get_save_info(&bytes), Ok(String::from("The Kestrel")));
    let decoded = decode_extended(&bytes).unwrap();
    assert_eq!(decoded.ship_name, Some(String::from("The Kestrel")));
    assert_eq!(decoded.version, 0);
    assert_eq!(read_sav(&bytes).unwrap().player_name_len, 13);
}

#[test]
fn short_name_with_an_invalid_byte_decodes() {
    let mut bytes = vec![0u8; 24];
    bytes.extend_from_slice(&3i32.to_le_bytes());
    bytes.extend_from_slice(&[0x41, 0xFF, 0x42]);
    assert_eq!(bytes.len(), 31);
    let name = get_save_info(&bytes).unwrap();
    assert_eq!(name.chars().collect::<Vec<char>>(), vec!['A', '\u{FFFD}', 'B']);
}
