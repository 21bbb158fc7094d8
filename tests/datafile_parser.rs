use ndumplib::catalog::{Category, Status};
use ndumplib::logiqx::{parse_games, parse_header, parse_rom, ParseError, XmlElement};

fn el(tag: &str, attrs: &[(&str, &str)], text: Option<&str>, children: Vec<XmlElement>) -> XmlElement {
    XmlElement {
        tag: tag.to_string(),
        attributes: attrs.iter().map(|(k, v)| (k.to_string(), v.to_string())).collect(),
        text: text.map(|t| t.to_string()),
        children,
    }
}

fn rom_el(attrs: &[(&str, &str)]) -> XmlElement {
    el("rom", attrs, None, Vec::new())
}

const MD5: &str = "000102030405060708090a0b0c0d0e0f";
const SHA1: &str = "00112233445566778899AABBCCDDEEFF00112233";

fn full_rom(size: &str, crc: &str) -> XmlElement {
    rom_el(&[("name", "x.bin"), ("size", size), ("crc", crc), ("md5", MD5), ("sha1", SHA1)])
}

fn header_el() -> XmlElement {
    el(
        "header",
        &[],
        None,
        vec![
            el("name", &[], Some("Sega - Dreamcast"), vec![]),
            el("description", &[], Some("desc"), vec![]),
            el("version", &[], Some("2024-01-01"), vec![]),
            el("homepage", &[], None, vec![]),
        ],
    )
}

#[test]
fn rom_fields_are_read() {
    let e = rom_el(&[
        ("name", "x.bin"),
        ("size", "1024"),
        ("crc", "DEADBEEF"),
        ("md5", MD5),
        ("sha1", SHA1),
        ("status", "verified"),
    ]);
    let r = parse_rom(&e).ok().unwrap();
    assert_eq!(r.name, "x.bin");
    assert_eq!(r.size, 1024);
    assert_eq!(r.crc32, 0xDEADBEEFu32 as i32);
    assert_eq!(r.md5, [0, 1, 2, 3, 4, 5, 6, 7, 8, 9, 10, 11, 12, 13, 14, 15]);
    assert_eq!(r.sha1[8], 0x88);
    assert_eq!(r.sha1[10], 0xAA);
    assert_eq!(r.status, Some(Status::Verified));
    assert!(r.sha256.is_none());
}

#[test]
fn crc_is_big_endian_bit_pattern() {
    assert_eq!(parse_rom(&full_rom("1", "00000001")).ok().unwrap().crc32, 1);
    assert_eq!(parse_rom(&full_rom("1", "ffffffff")).ok().unwrap().crc32, -1);
    assert_eq!(parse_rom(&full_rom("1", "80000000")).ok().unwrap().crc32, i32::MIN);
    assert_eq!(parse_rom(&full_rom("1", "7fffffff")).ok().unwrap().crc32, i32::MAX);
}

#[test]
fn size_accepts_plus_and_rejects_overflow() {
    assert_eq!(parse_rom(&full_rom("+12", "00000000")).ok().unwrap().size, 12);
    assert_eq!(parse_rom(&full_rom("0", "00000000")).ok().unwrap().size, 0);
    let max = usize::MAX.to_string();
    assert_eq!(parse_rom(&full_rom(&max, "00000000")).ok().unwrap().size, usize::MAX);
    let over = "18446744073709551616";
    match parse_rom(&full_rom(over, "00000000")) {
        Err(ParseError::InvalidAttribute { element, attribute, value }) => {
            assert_eq!(element, "rom");
            assert_eq!(attribute, "size");
            assert_eq!(value, over);
        }
        _ => panic!("an oversized size was accepted"),
    }
    for bad in ["", "+", "12a", "-1", " 1"] {
        assert!(matches!(
            parse_rom(&full_rom(bad, "00000000")),
            Err(ParseError::InvalidAttribute { .. })
        ));
    }
}

#[test]
fn missing_and_invalid_attributes() {
    match parse_rom(&rom_el(&[("size", "1")])) {
        Err(ParseError::MissingAttribute { element, attribute }) => {
            assert_eq!(element, "rom");
            assert_eq!(attribute, "name");
        }
        _ => panic!("a rom without a name was accepted"),
    }
    match parse_rom(&rom_el(&[("name", "x"), ("size", "1"), ("crc", "0000001")])) {
        Err(ParseError::InvalidAttribute { attribute, .. }) => assert_eq!(attribute, "crc"),
        _ => panic!("a short crc was accepted"),
    }
    match parse_rom(&rom_el(&[("name", "x"), ("size", "1"), ("crc", "0000000g")])) {
        Err(ParseError::InvalidAttribute { attribute, .. }) => assert_eq!(attribute, "crc"),
        _ => panic!("a crc with a non-hex digit was accepted"),
    }
    match parse_rom(&rom_el(&[("name", "x"), ("size", "1"), ("crc", "00000000"), ("md5", MD5)])) {
        Err(ParseError::MissingAttribute { attribute, .. }) => assert_eq!(attribute, "sha1"),
        _ => panic!("a rom without sha1 was accepted"),
    }
    let mut e = full_rom("1", "00000000");
    e.attributes.push(("sha256".to_string(), "00".to_string()));
    match parse_rom(&e) {
        Err(ParseError::InvalidAttribute { attribute, .. }) => assert_eq!(attribute, "sha256"),
        _ => panic!("a short sha256 was accepted"),
    }
    let mut e = full_rom("1", "00000000");
    e.attributes.push(("sha256".to_string(), "ab".repeat(32)));
    assert_eq!(parse_rom(&e).ok().unwrap().sha256, Some([0xab; 32]));
}

#[test]
fn header_fields_and_missing_parts() {
    let root = el("datafile", &[], None, vec![header_el()]);
    let h = parse_header(&root).ok().unwrap();
    assert_eq!(h.name, "Sega - Dreamcast");
    assert_eq!(h.version, "2024-01-01");
    assert_eq!(h.homepage, "");
    let no_header = el("datafile", &[], None, vec![]);
    match parse_header(&no_header) {
        Err(ParseError::MissingElement { parent, tag }) => {
            assert_eq!(parent, "datafile");
            assert_eq!(tag, "header");
        }
        _ => panic!("a datafile without header was accepted"),
    }
    let wrong_root = el("catalog", &[], None, vec![header_el()]);
    match parse_header(&wrong_root) {
        Err(ParseError::MissingElement { parent, tag }) => {
            assert_eq!(parent, "");
            assert_eq!(tag, "datafile");
        }
        _ => panic!("a document without datafile was accepted"),
    }
    let mut partial = header_el();
    partial.children.remove(2);
    match parse_header(&el("datafile", &[], None, vec![partial])) {
        Err(ParseError::MissingElement { parent, tag }) => {
            assert_eq!(parent, "header");
            assert_eq!(tag, "version");
        }
        _ => panic!("a header without version was accepted"),
    }
}

#[test]
fn games_with_categories_and_roms() {
    let game = el(
        "game",
        &[("name", "Alpha")],
        None,
        vec![
            el("category", &[], Some("Games"), vec![]),
            el("description", &[], Some("ignored"), vec![]),
            full_rom("1", "00000001"),
            el("category", &[], Some("Strange"), vec![]),
            el("category", &[], Some("Games"), vec![]),
            full_rom("2", "00000002"),
        ],
    );
    let root = el("datafile", &[], None, vec![header_el(), game, el("game", &[("name", "Beta")], None, vec![])]);
    let games = parse_games(&root).ok().unwrap();
    assert_eq!(games.len(), 2);
    assert_eq!(games[0].name, "Alpha");
    assert_eq!(games[0].categories, vec![Category::Games, Category::Unknown]);
    assert_eq!(games[0].roms.len(), 2);
    assert_eq!(games[0].roms[1].size, 2);
    assert_eq!(games[1].name, "Beta");
    assert!(games[1].roms.is_empty());
}

#[test]
fn first_faulty_game_is_reported() {
    let good = el("game", &[("name", "A")], None, vec![full_rom("1", "00000000")]);
    let bad_rom = el("game", &[("name", "B")], None, vec![full_rom("x", "00000000")]);
    let nameless = el("game", &[], None, vec![]);
    let root = el("datafile", &[], None, vec![good, bad_rom, nameless]);
    match parse_games(&root) {
        Err(ParseError::InvalidAttribute { attribute, value, .. }) => {
            assert_eq!(attribute, "size");
            assert_eq!(value, "x");
        }
        _ => panic!("a faulty game was accepted"),
    }
    let root = el("datafile", &[], None, vec![el("game", &[], None, vec![])]);
    match parse_games(&root) {
        Err(ParseError::MissingAttribute { element, attribute }) => {
            assert_eq!(element, "game");
            assert_eq!(attribute, "name");
        }
        _ => panic!("a nameless game was accepted"),
    }
}

#[test]
fn duplicate_rom_identities_are_kept_once() {
    let game = el(
        "game",
        &[("name", "Alpha")],
        None,
        vec![full_rom("1", "00000001"), full_rom("1", "00000001"), full_rom("1", "00000002")],
    );
    let games = parse_games(&el("datafile", &[], None, vec![game])).ok().unwrap();
    assert_eq!(games[0].roms.len(), 2);
    assert_eq!(games[0].roms[1].crc32, 2);
}
