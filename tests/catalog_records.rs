use ndumplib::catalog::{Author, Category, Game, Status, ROM};

fn sample_rom(name: &str, size: usize, sha1_byte: u8) -> ROM {
    ROM {
        name: name.to_string(),
        status: None,
        size,
        crc32: -1,
        md5: [0u8; 16],
        sha1: [sha1_byte; 20],
        sha256: None,
    }
}

#[test]
fn category_names() {
    assert_eq!(Category::from_name("Games"), Category::Games);
    assert_eq!(Category::from_name("Bonus Discs"), Category::BonusDiscs);
    assert_eq!(Category::from_name("Add-Ons"), Category::Addons);
    assert_eq!(Category::from_name("Video"), Category::Video);
    assert_eq!(Category::from_name("games"), Category::Unknown);
    assert_eq!(Category::from_name(""), Category::Unknown);
}

#[test]
fn category_codes() {
    assert_eq!(Category::Games.to_code(), 0);
    assert_eq!(Category::Video.to_code(), 10);
    assert_eq!(Category::Unknown.to_code(), 127);
    assert_eq!(Category::from_code(127), Some(Category::Unknown));
    assert_eq!(Category::from_code(6), Some(Category::BonusDiscs));
    assert_eq!(Category::from_code(11), None);
    assert_eq!(Category::from_code(-1), None);
    let all = [
        Category::Games,
        Category::Demos,
        Category::Coverdiscs,
        Category::Applications,
        Category::Preproduction,
        Category::Educational,
        Category::BonusDiscs,
        Category::Multimedia,
        Category::Addons,
        Category::Audio,
        Category::Video,
        Category::Unknown,
    ];
    for c in all {
        assert_eq!(Category::from_code(c.to_code()), Some(c));
    }
}

#[test]
fn status_names_and_codes() {
    assert_eq!(Status::from_name("verified"), Status::Verified);
    assert_eq!(Status::from_name("baddump"), Status::BadDump);
    assert_eq!(Status::from_name("good"), Status::Unknown);
    assert_eq!(Status::BadDump.to_code(), 1);
    assert_eq!(Status::from_code(127), Some(Status::Unknown));
    assert_eq!(Status::from_code(2), None);
}

#[test]
fn author_names() {
    assert_eq!(Author::Redump.name(), "Redump");
    assert_eq!(Author::NoIntro.name(), "No-Intro");
    assert!(matches!(Author::from_name("No-Intro"), Author::NoIntro));
    assert!(matches!(Author::from_name("Redump"), Author::Redump));
    match Author::from_name("TOSEC") {
        Author::Other(s) => assert_eq!(s, "TOSEC"),
        _ => panic!("unexpected curator"),
    }
}

#[test]
fn rom_identity_ignores_name_and_status() {
    let a = sample_rom("a.bin", 10, 1);
    let mut b = sample_rom("b.bin", 10, 1);
    b.status = Some(Status::BadDump);
    assert!(a.same_content(&b));
    assert!(!a.same_content(&sample_rom("a.bin", 11, 1)));
    assert!(!a.same_content(&sample_rom("a.bin", 10, 2)));
    let mut c = sample_rom("a.bin", 10, 1);
    c.md5[15] = 9;
    assert!(!a.same_content(&c));
    let mut d = sample_rom("a.bin", 10, 1);
    d.crc32 = 0;
    assert!(!a.same_content(&d));
}

#[test]
fn game_categories_are_kept_once() {
    let mut g = Game::new("Alpha".to_string());
    g.add_category(Category::Games);
    g.add_category(Category::Demos);
    g.add_category(Category::Games);
    assert_eq!(g.categories, vec![Category::Games, Category::Demos]);
    g.add_rom(sample_rom("x", 1, 1));
    assert_eq!(g.roms.len(), 1);
    g.add_rom(sample_rom("renamed copy", 1, 1));
    assert_eq!(g.roms.len(), 1);
    assert_eq!(g.roms[0].name, "x");
    g.add_rom(sample_rom("y", 2, 1));
    assert_eq!(g.roms.len(), 2);
}
