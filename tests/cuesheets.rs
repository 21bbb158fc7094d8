use ndumplib::cuesheet::{get_track_filenames, neutralize};

#[test]
fn neutralize_scenario() {
    let cue = "FILE \"Alpha.bin\" BINARY\nTRACK 01 MODE1/2048\nINDEX 01 00:00:00\nREM comment\n";
    assert_eq!(
        neutralize(cue, "Alpha.cue"),
        "FILE \"$.bin\" BINARY\nTRACK 01 MODE1/2048\nINDEX 01 00:00:00"
    );
}

#[test]
fn neutralize_takes_stem_from_path() {
    let cue = "FILE \"Alpha.bin\" BINARY\n";
    assert_eq!(neutralize(cue, "/games/psx/Alpha.cue"), "FILE \"$.bin\" BINARY");
    assert_eq!(neutralize(cue, "Alpha"), "FILE \"$.bin\" BINARY");
    assert_eq!(neutralize(cue, "dumps/Alpha.cue/"), "FILE \"$.bin\" BINARY");
    assert_eq!(neutralize(cue, "dumps/Alpha.cue//"), "FILE \"$.bin\" BINARY");
}

#[test]
fn neutralize_with_empty_stem_marks_every_boundary() {
    assert_eq!(neutralize("TRACK 1", "/"), "$T$R$A$C$K$ $1$");
}

#[test]
fn neutralize_trims_and_drops_noise() {
    let cue = "CATALOG 0000000000000\r\n  FILE \"Beta (Track 1).bin\" BINARY\r\n    TRACK 01 MODE2/2352\r\n      PREGAP 00:02:00\r\n      INDEX 01 00:00:00\r\n\r\n    POSTGAP 00:02:00\r\nCDTEXTFILE \"x\"\r\n";
    assert_eq!(
        neutralize(cue, "Beta.cue"),
        "FILE \"$ (Track 1).bin\" BINARY\nTRACK 01 MODE2/2352\nPREGAP 00:02:00\nINDEX 01 00:00:00\nPOSTGAP 00:02:00"
    );
}

#[test]
fn neutralize_of_empty_and_unknown_lines() {
    assert_eq!(neutralize("", "a.cue"), "");
    assert_eq!(neutralize("REM only\nFILES x\n", "a.cue"), "");
    assert_eq!(neutralize("TRACK", "a.cue"), "TRACK");
}

#[test]
fn cues_differing_in_title_share_a_form() {
    let usa = "FILE \"Game (USA) (Track 1).bin\" BINARY\n  TRACK 01 MODE2/2352\n    INDEX 01 00:00:00\nFILE \"Game (USA) (Track 2).bin\" BINARY\n  TRACK 02 AUDIO\n    INDEX 00 00:00:00\n";
    let renamed = "FILE \"My Copy (Track 1).bin\" BINARY\n  TRACK 01 MODE2/2352\n    INDEX 01 00:00:00\nFILE \"My Copy (Track 2).bin\" BINARY\n  TRACK 02 AUDIO\n    INDEX 00 00:00:00\n";
    let a = neutralize(usa, "dumps/Game (USA).cue");
    let b = neutralize(renamed, "My Copy.cue");
    assert_eq!(a, b);
    assert_eq!(
        a,
        "FILE \"$ (Track 1).bin\" BINARY\nTRACK 01 MODE2/2352\nINDEX 01 00:00:00\nFILE \"$ (Track 2).bin\" BINARY\nTRACK 02 AUDIO\nINDEX 00 00:00:00"
    );
}

#[test]
fn track_filenames_in_order() {
    let cue = "FILE \"Alpha (Track 1).bin\" BINARY\n  TRACK 01 MODE1/2352\nFILE \"Alpha (Track 2).bin\" BINARY\n";
    assert_eq!(
        get_track_filenames(&cue.to_string()),
        vec!["Alpha (Track 1).bin".to_string(), "Alpha (Track 2).bin".to_string()]
    );
}

#[test]
fn track_filenames_edge_cases() {
    assert!(get_track_filenames("").is_empty());
    assert!(get_track_filenames("FILE \"\" BINARY").is_empty());
    assert!(get_track_filenames("file \"x.bin\"").is_empty());
    assert_eq!(get_track_filenames("FILE \"open ended"), vec!["open ended".to_string()]);
}
