use ndumplib::naming::{compress_rom_name, decompress_rom_name};

#[test]
fn compress_cue_iso_bin() {
    assert_eq!(compress_rom_name("Alpha.cue", "Alpha"), "$c");
    assert_eq!(compress_rom_name("Alpha.iso", "Alpha"), "$i");
    assert_eq!(compress_rom_name("Alpha.bin", "Alpha"), "$b");
}

#[test]
fn compress_track_keeps_label_verbatim() {
    assert_eq!(compress_rom_name("Alpha (Track 1).bin", "Alpha"), "$T1");
    assert_eq!(compress_rom_name("Alpha (Track 02).bin", "Alpha"), "$T02");
    assert_eq!(compress_rom_name("Alpha (Track ).bin", "Alpha"), "$T");
}

#[test]
fn compress_marks_other_occurrences() {
    assert_eq!(compress_rom_name("Alpha (Disc 1).bin", "Alpha"), "# (Disc 1).bin");
    assert_eq!(compress_rom_name("Alpha - Alpha.txt", "Alpha"), "# - #.txt");
    assert_eq!(compress_rom_name("readme.txt", "Alpha"), "readme.txt");
}

#[test]
fn compress_with_empty_game_name_marks_every_boundary() {
    assert_eq!(compress_rom_name("ab", ""), "#a#b#");
    assert_eq!(compress_rom_name("", ""), "#");
    assert_eq!(decompress_rom_name("#a#b#", ""), "ab");
    assert_eq!(decompress_rom_name(&compress_rom_name("readme.txt", ""), ""), "readme.txt");
}

#[test]
fn decompress_codes() {
    assert_eq!(decompress_rom_name("$c", "Alpha"), "Alpha.cue");
    assert_eq!(decompress_rom_name("$i", "Alpha"), "Alpha.iso");
    assert_eq!(decompress_rom_name("$b", "Alpha"), "Alpha.bin");
    assert_eq!(decompress_rom_name("$T07", "Alpha"), "Alpha (Track 07).bin");
    assert_eq!(decompress_rom_name("# (Disc 1).bin", "Alpha"), "Alpha (Disc 1).bin");
    assert_eq!(decompress_rom_name("plain", "Alpha"), "plain");
}

#[test]
fn round_trip_examples() {
    let game = "Sonic Adventure (USA)";
    for rom in [
        "Sonic Adventure (USA).cue",
        "Sonic Adventure (USA).iso",
        "Sonic Adventure (USA).bin",
        "Sonic Adventure (USA) (Track 12).bin",
        "Sonic Adventure (USA) (Disc 2).gdi",
        "manual.pdf",
        "",
        "a$b",
        "$foo",
        "$cd",
    ] {
        assert_eq!(decompress_rom_name(&compress_rom_name(rom, game), game), rom);
    }
}

#[test]
fn round_trip_fails_for_name_with_mark() {
    // A `#` in the ROM name cannot be told from the marked game name.
    assert_ne!(decompress_rom_name(&compress_rom_name("A#", "A"), "A"), "A#");
}

#[test]
fn unicode_names_compress() {
    assert_eq!(compress_rom_name("Pokémon.cue", "Pokémon"), "$c");
    assert_eq!(decompress_rom_name("$c", "Pokémon"), "Pokémon.cue");
}
