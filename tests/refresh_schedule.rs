use ndumplib::schedule::{
    find_timestamp, link_last_updated, is_due, nointro_step, redump_needs_import, update_order, ConsoleUpdate, DatafileLink,
    GameConsole, NoIntroStep, CATALOG_UPDATE_DELAY_MS, CUESHEET_UPDATE_DELAY_MS,
};

const DAY: i64 = 86_400_000;

#[test]
fn default_delays() {
    assert_eq!(CATALOG_UPDATE_DELAY_MS, 2 * DAY);
    assert_eq!(CUESHEET_UPDATE_DELAY_MS, 7 * DAY);
}

#[test]
fn due_exactly_at_delay() {
    assert!(is_due(2 * DAY, 0, 2 * DAY));
    assert!(!is_due(2 * DAY - 1, 0, 2 * DAY));
    assert!(is_due(i64::MAX, i64::MIN, 2 * DAY));
    assert!(!is_due(i64::MIN, i64::MAX, 2 * DAY));
}

fn link(last_updated: i64, url: Option<&str>) -> DatafileLink {
    DatafileLink {
        name: "Nintendo - Game Boy".to_string(),
        link: url.map(|u| u.to_string()),
        last_updated,
    }
}

#[test]
fn nointro_decisions() {
    let now = 10 * DAY;
    assert_eq!(nointro_step(now, 9 * DAY, 2 * DAY, Some(&link(now, Some("u")))), NoIntroStep::Skip);
    assert_eq!(nointro_step(now, 5 * DAY, 2 * DAY, None), NoIntroStep::Skip);
    assert_eq!(nointro_step(now, 5 * DAY, 2 * DAY, Some(&link(5 * DAY, Some("u")))), NoIntroStep::Touch);
    assert_eq!(nointro_step(now, 5 * DAY, 2 * DAY, Some(&link(4 * DAY, None))), NoIntroStep::Touch);
    assert_eq!(nointro_step(now, 5 * DAY, 2 * DAY, Some(&link(6 * DAY, None))), NoIntroStep::Skip);
    assert_eq!(
        nointro_step(now, 5 * DAY, 2 * DAY, Some(&link(6 * DAY, Some("https://x/y")))),
        NoIntroStep::Download("https://x/y".to_string())
    );
}

#[test]
fn redump_version_check() {
    assert!(!redump_needs_import("2024-01-01", "2024-01-01"));
    assert!(redump_needs_import("", "2024-01-01"));
    assert!(redump_needs_import("2024-01-01", ""));
}

#[test]
fn full_refresh_order() {
    let all = update_order(3 * DAY, Some(0), 2 * DAY);
    assert_eq!(all.len(), 13);
    assert_eq!(all[0], ConsoleUpdate::NoIntro(GameConsole::GB));
    assert_eq!(all[1], ConsoleUpdate::Redump(GameConsole::Dreamcast));
    assert_eq!(all[3], ConsoleUpdate::NoIntro(GameConsole::GBC));
    assert_eq!(all[12], ConsoleUpdate::Redump(GameConsole::Xbox360));
    let fresh = update_order(3 * DAY, Some(2 * DAY), 2 * DAY);
    assert_eq!(fresh.len(), 9);
    assert!(fresh.iter().all(|u| matches!(u, ConsoleUpdate::Redump(_))));
    assert_eq!(update_order(3 * DAY, None, 2 * DAY).len(), 13);
}

#[test]
fn console_tables() {
    assert_eq!(GameConsole::Dreamcast.redump_slug(), Some("dc"));
    assert_eq!(GameConsole::Xbox360.redump_slug(), Some("xbox360"));
    assert_eq!(GameConsole::GB.redump_slug(), None);
    assert_eq!(GameConsole::PSX.to_redump_slug(), Some("psx"));
    assert_eq!(GameConsole::PSP.redump_datafile_name(), Some("Sony - PlayStation Portable"));
    assert_eq!(GameConsole::N64.nointro_datafile_name(), Some("Nintendo - Nintendo 64"));
    assert_eq!(GameConsole::Wii.nointro_datafile_name(), None);
    assert_eq!(GameConsole::PSX.redump_cue_slug(), Some("psx"));
    assert_eq!(GameConsole::PS2.redump_cue_slug(), None);
    assert_eq!(GameConsole::GBA.formal_name(), "Game Boy Advance");
}

#[test]
fn timestamp_found_in_cell_text() {
    assert_eq!(
        find_timestamp("Nintendo - Game Boy (2024-03-05 12:34:56) 1234 files"),
        Some("2024-03-05 12:34:56".to_string())
    );
    assert_eq!(find_timestamp("2024-3-05 12:34:56"), None);
    assert_eq!(find_timestamp(""), None);
    assert_eq!(link_last_updated("updated 2024-03-05 12:34:56"), Some(1709642096000));
    assert_eq!(link_last_updated("1970-01-01 00:00:00"), Some(0));
    assert_eq!(link_last_updated("2024-13-05 12:34:56"), None);
    assert_eq!(link_last_updated("no date here"), None);
}

#[test]
fn console_of_datafile_name() {
    assert_eq!(GameConsole::from_datafile_name("Sega - Dreamcast"), Some(GameConsole::Dreamcast));
    assert_eq!(GameConsole::from_datafile_name("Nintendo - Game Boy Color"), Some(GameConsole::GBC));
    assert_eq!(GameConsole::from_datafile_name("Nintendo - Game Boy"), Some(GameConsole::GB));
    assert_eq!(GameConsole::from_datafile_name("Sony - PlayStation 4"), None);
}
