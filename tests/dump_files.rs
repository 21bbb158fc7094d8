use ndumplib::chdman::{parse_info, tool_outcome, Codec, Tag, TrackType};
use ndumplib::dump::{
    can_convert, can_verify, cue_status, extension, file_kind, image_status, FileKind, ROMStatus,
};

#[test]
fn extensions() {
    assert_eq!(extension("a/b/game.cue"), Some("cue".to_string()));
    assert_eq!(extension("game.tar.gz"), Some("gz".to_string()));
    assert_eq!(extension(".hidden"), None);
    assert_eq!(extension("dir.d/file"), None);
    assert_eq!(extension("noext"), None);
    assert_eq!(extension("dumps/game.chd/"), Some("chd".to_string()));
}

#[test]
fn kinds_by_extension() {
    assert_eq!(file_kind("x.cue"), FileKind::Cue);
    assert_eq!(file_kind("x.chd"), FileKind::Chd);
    assert_eq!(file_kind("x.bin"), FileKind::Image);
    assert_eq!(file_kind("x.iso"), FileKind::Image);
    assert_eq!(file_kind("x.zip"), FileKind::Other);
    assert_eq!(file_kind("x"), FileKind::Other);
}

#[test]
fn convertible_and_verifiable() {
    assert!(can_convert("a.iso"));
    assert!(can_convert("a.cue"));
    assert!(!can_convert("a.chd"));
    assert!(can_verify("a.chd"));
    assert!(can_verify("a.cue"));
    assert!(!can_verify("a.bin"));
    assert!(!can_verify("a"));
}

#[test]
fn verdicts() {
    assert_eq!(cue_status(false, Some(true)), ROMStatus::Broken);
    assert_eq!(cue_status(true, Some(true)), ROMStatus::Verified);
    assert_eq!(cue_status(true, Some(false)), ROMStatus::Unverified);
    assert_eq!(cue_status(true, None), ROMStatus::Unverified);
    assert_eq!(image_status(true), ROMStatus::Verified);
    assert_eq!(image_status(false), ROMStatus::Unverified);
}

#[test]
fn codec_names() {
    assert_eq!(Codec::CDZS.to_string(), "cdzs");
    assert_eq!(Codec::from_string("flac"), Some(Codec::FLAC));
    assert_eq!(Codec::from_string("FLAC"), None);
    for c in [Codec::ZLIB, Codec::ZSTD, Codec::LZMA, Codec::HUFF, Codec::AVHU] {
        assert_eq!(Codec::from_string(c.to_string()), Some(c));
    }
    assert_eq!(TrackType::from_str("MODE2_RAW"), Some(TrackType::Mode2Raw));
    assert_eq!(TrackType::from_str("MODE2"), None);
}

#[test]
fn tool_report_outcomes() {
    assert_eq!(tool_outcome("...\nCompression complete ... final ratio = 40%\n", "Compression complete"), Ok(()));
    assert_eq!(
        tool_outcome("chdman\nError: file not found  \n", "Compression complete"),
        Err("Error: file not found".to_string())
    );
    assert_eq!(tool_outcome("nothing useful", "Extraction complete"), Err("Unknown".to_string()));
}

const INFO_REPORT: &str = "chdman - MAME Compressed Hunks of Data (CHD) manager 0.258 (mame0258)
Input file:   game.chd
File Version: 5
Logical size: 681,984,000 bytes
Hunk Size:    19,584 bytes
Total Hunks:  34,824
Compression:  cdlz (CD LZMA), cdzl (CD Deflate), cdfl (CD FLAC)
CHD size:     302,124,657 bytes
Ratio:        44.3%
SHA1:         0123456789abcdef0123456789abcdef01234567
Data SHA1:    89ABCDEF0123456789abcdef0123456789abcdef
Metadata:     Tag='CHT2'  Index=0  Length=90 bytes
              TRACK:1 TYPE:MODE2_RAW SUBTYPE:NONE FRAMES:1234 PREGAP:0 PGTYPE:MODE2_RAW PGSUB:RW POSTGAP:0
              Tag='CHGD'  Index=0  Length=12 bytes
              something else
              Tag='CHT2'  Index=1  Length=90 bytes
              TRACK:2 TYPE:AUDIO SUBTYPE:NONE FRAMES:5678 PREGAP:150 PGTYPE:AUDIO PGSUB:RW POSTGAP:0
";

#[test]
fn info_report_is_read() {
    let info = parse_info(INFO_REPORT).unwrap();
    assert_eq!(info.logical_size, 681_984_000);
    assert_eq!(info.chd_size, 302_124_657);
    assert_eq!(info.compression, vec![Codec::CDLZ, Codec::CDZL, Codec::CDFL]);
    assert_eq!(info.sha1[0], 0x01);
    assert_eq!(info.sha1[19], 0x67);
    assert_eq!(info.data_sha1[0], 0x89);
    assert_eq!(info.metadata.len(), 3);
    match &info.metadata[0] {
        Tag::CHT2 { track, track_type } => {
            assert_eq!(*track, 1);
            assert_eq!(*track_type, TrackType::Mode2Raw);
        }
        Tag::Other(_) => panic!("track entry read as other"),
    }
    match &info.metadata[1] {
        Tag::Other(text) => assert_eq!(text, "something else"),
        Tag::CHT2 { .. } => panic!("other entry read as track"),
    }
    match &info.metadata[2] {
        Tag::CHT2 { track, track_type } => {
            assert_eq!(*track, 2);
            assert_eq!(*track_type, TrackType::Audio);
        }
        Tag::Other(_) => panic!("track entry read as other"),
    }
}

#[test]
fn info_report_faults() {
    assert!(parse_info("").is_none());
    assert!(parse_info(&INFO_REPORT.replace("cdfl (CD FLAC)", "none")).is_none());
    assert!(parse_info(&INFO_REPORT.replace("Logical size: 681,984,000 bytes", "Logical size: 681,984,000")).is_none());
    assert!(parse_info(&INFO_REPORT.replace("0123456789abcdef0123456789abcdef01234567", "0123")).is_none());
    assert!(parse_info(&INFO_REPORT.replace("              something else\n", "")).is_none());
    assert!(parse_info(&INFO_REPORT.replace("TRACK:2 ", "TRACK:300 ")).is_none());
    assert!(parse_info(&INFO_REPORT.replace("TYPE:AUDIO SUBTYPE", "TYPE:VIDEO SUBTYPE")).is_none());
}
