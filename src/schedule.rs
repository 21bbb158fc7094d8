//! When to refresh which datafile: the consoles and their curators, the
//! freshness policy, and the decisions of one refresh cycle. Times are UTC
//! milliseconds since the Unix epoch.
use vstd::prelude::*;

use crate::catalog::text_is;
use crate::logiqx::is_digit;
use crate::text::{chars_of, slice_chars, string_of};

verus! {

/// A console whose dumps the catalog knows.
#[derive(Clone, Copy, PartialEq, Eq, Structural, Debug, Hash)]
pub enum GameConsole {
    Dreamcast,
    GameCube,
    PSX,
    PS2,
    PS3,
    PSP,
    Wii,
    Xbox,
    Xbox360,
    GB,
    GBC,
    GBA,
    N64,
}

pub open spec fn opt_view(o: Option<&str>) -> Option<Seq<char>> {
    match o {
        Some(s) => Some(s@),
        None => None,
    }
}

pub open spec fn spec_formal_name(c: GameConsole) -> Seq<char> {
    match c {
        GameConsole::Dreamcast => "Dreamcast"@,
        GameConsole::GameCube => "GameCube"@,
        GameConsole::PSX => "PlayStation"@,
        GameConsole::PS2 => "PlayStation 2"@,
        GameConsole::PS3 => "PlayStation 3"@,
        GameConsole::PSP => "PlayStation Portable"@,
        GameConsole::Wii => "Wii"@,
        GameConsole::Xbox => "Xbox"@,
        GameConsole::Xbox360 => "Xbox 360"@,
        GameConsole::GB => "Game Boy"@,
        GameConsole::GBC => "Game Boy Color"@,
        GameConsole::GBA => "Game Boy Advance"@,
        GameConsole::N64 => "Nintendo 64"@,
    }
}

pub open spec fn spec_redump_slug(c: GameConsole) -> Option<Seq<char>> {
    match c {
        GameConsole::Dreamcast => Some("dc"@),
        GameConsole::GameCube => Some("gc"@),
        GameConsole::PSX => Some("psx"@),
        GameConsole::PS2 => Some("ps2"@),
        GameConsole::PS3 => Some("ps3"@),
        GameConsole::PSP => Some("psp"@),
        GameConsole::Wii => Some("wii"@),
        GameConsole::Xbox => Some("xbox"@),
        GameConsole::Xbox360 => Some("xbox360"@),
        _ => None,
    }
}

pub open spec fn spec_redump_datafile_name(c: GameConsole) -> Option<Seq<char>> {
    match c {
        GameConsole::Dreamcast => Some("Sega - Dreamcast"@),
        GameConsole::GameCube => Some("Nintendo - GameCube"@),
        GameConsole::PSX => Some("Sony - PlayStation"@),
        GameConsole::PS2 => Some("Sony - PlayStation 2"@),
        GameConsole::PS3 => Some("Sony - PlayStation 3"@),
        GameConsole::PSP => Some("Sony - PlayStation Portable"@),
        GameConsole::Wii => Some("Nintendo - Wii"@),
        GameConsole::Xbox => Some("Microsoft - Xbox"@),
        GameConsole::Xbox360 => Some("Microsoft - Xbox 360"@),
        _ => None,
    }
}

pub open spec fn spec_nointro_datafile_name(c: GameConsole) -> Option<Seq<char>> {
    match c {
        GameConsole::GB => Some("Nintendo - Game Boy"@),
        GameConsole::GBC => Some("Nintendo - Game Boy Color"@),
        GameConsole::GBA => Some("Nintendo - Game Boy Advance"@),
        GameConsole::N64 => Some("Nintendo - Nintendo 64"@),
        _ => None,
    }
}

impl GameConsole {
    /// The console's everyday name.
    pub fn formal_name(&self) -> (r: &'static str)
        ensures
            r@ == spec_formal_name(*self),
    {
        match self {
            GameConsole::Dreamcast => "Dreamcast",
            GameConsole::GameCube => "GameCube",
            GameConsole::PSX => "PlayStation",
            GameConsole::PS2 => "PlayStation 2",
            GameConsole::PS3 => "PlayStation 3",
            GameConsole::PSP => "PlayStation Portable",
            GameConsole::Wii => "Wii",
            GameConsole::Xbox => "Xbox",
            GameConsole::Xbox360 => "Xbox 360",
            GameConsole::GB => "Game Boy",
            GameConsole::GBC => "Game Boy Color",
            GameConsole::GBA => "Game Boy Advance",
            GameConsole::N64 => "Nintendo 64",
        }
    }

    /// The slug of the console in Redump's URLs, for the consoles Redump
    /// curates.
    pub fn redump_slug(&self) -> (r: Option<&'static str>)
        ensures
            opt_view(r) == spec_redump_slug(*self),
    {
        match self {
            GameConsole::Dreamcast => Some("dc"),
            GameConsole::GameCube => Some("gc"),
            GameConsole::PSX => Some("psx"),
            GameConsole::PS2 => Some("ps2"),
            GameConsole::PS3 => Some("ps3"),
            GameConsole::PSP => Some("psp"),
            GameConsole::Wii => Some("wii"),
            GameConsole::Xbox => Some("xbox"),
            GameConsole::Xbox360 => Some("xbox360"),
            _ => None,
        }
    }

    /// The slug to download a Redump datafile with; the same as
    /// `redump_slug`.
    pub fn to_redump_slug(&self) -> (r: Option<&'static str>)
        ensures
            opt_view(r) == spec_redump_slug(*self),
    {
        self.redump_slug()
    }

    /// The name of the console's Redump datafile.
    pub fn redump_datafile_name(&self) -> (r: Option<&'static str>)
        ensures
            opt_view(r) == spec_redump_datafile_name(*self),
    {
        match self {
            GameConsole::Dreamcast => Some("Sega - Dreamcast"),
            GameConsole::GameCube => Some("Nintendo - GameCube"),
            GameConsole::PSX => Some("Sony - PlayStation"),
            GameConsole::PS2 => Some("Sony - PlayStation 2"),
            GameConsole::PS3 => Some("Sony - PlayStation 3"),
            GameConsole::PSP => Some("Sony - PlayStation Portable"),
            GameConsole::Wii => Some("Nintendo - Wii"),
            GameConsole::Xbox => Some("Microsoft - Xbox"),
            GameConsole::Xbox360 => Some("Microsoft - Xbox 360"),
            _ => None,
        }
    }

    /// The name of the console's No-Intro datafile.
    pub fn nointro_datafile_name(&self) -> (r: Option<&'static str>)
        ensures
            opt_view(r) == spec_nointro_datafile_name(*self),
    {
        match self {
            GameConsole::GB => Some("Nintendo - Game Boy"),
            GameConsole::GBC => Some("Nintendo - Game Boy Color"),
            GameConsole::GBA => Some("Nintendo - Game Boy Advance"),
            GameConsole::N64 => Some("Nintendo - Nintendo 64"),
            _ => None,
        }
    }

    /// The console whose Redump or No-Intro datafile is called `name`.
    pub fn from_datafile_name(name: &str) -> (r: Option<GameConsole>)
        ensures
            r matches Some(c) ==> spec_redump_datafile_name(c) == Some(name@)
                || spec_nointro_datafile_name(c) == Some(name@),
            r is None ==> forall|c: GameConsole|
                spec_redump_datafile_name(c) != Some(name@) && spec_nointro_datafile_name(c)
                    != Some(name@),
    {
        let all = [
            GameConsole::Dreamcast,
            GameConsole::GameCube,
            GameConsole::PSX,
            GameConsole::PS2,
            GameConsole::PS3,
            GameConsole::PSP,
            GameConsole::Wii,
            GameConsole::Xbox,
            GameConsole::Xbox360,
            GameConsole::GB,
            GameConsole::GBC,
            GameConsole::GBA,
            GameConsole::N64,
        ];
        let mut i: usize = 0;
        while i < 13
            invariant
                i <= 13,
                all@.len() == 13,
                forall|c: GameConsole| #[trigger] all@.contains(c),
                forall|k: int|
                    0 <= k < i ==> spec_redump_datafile_name(#[trigger] all@[k]) != Some(name@)
                        && spec_nointro_datafile_name(all@[k]) != Some(name@),
            decreases 13 - i,
        {
            let c = all[i];
            if let Some(n) = c.redump_datafile_name() {
                if text_is(n, name) {
                    return Some(c);
                }
            }
            if let Some(n) = c.nointro_datafile_name() {
                if text_is(n, name) {
                    return Some(c);
                }
            }
            i += 1;
        }
        proof {
            assert forall|c: GameConsole|
                spec_redump_datafile_name(c) != Some(name@) && spec_nointro_datafile_name(c)
                    != Some(name@) by {
                assert(all@.contains(c));
                let k = choose|k: int| 0 <= k < all@.len() && all@[k] == c;
            }
        }
        None
    }

    /// The slug of the console's cuesheet archive at Redump, for the
    /// consoles whose cuesheets the catalog keeps.
    pub fn redump_cue_slug(&self) -> (r: Option<&'static str>)
        ensures
            opt_view(r) == match *self {
                GameConsole::PSX => Some("psx"@),
                _ => None::<Seq<char>>,
            },
    {
        match self {
            GameConsole::PSX => Some("psx"),
            _ => None,
        }
    }
}

/// Two days: how long a catalog datafile stays fresh.
pub const CATALOG_UPDATE_DELAY_MS: i64 = 172800000;

/// One week: how long a console's cuesheets stay fresh.
pub const CUESHEET_UPDATE_DELAY_MS: i64 = 604800000;

/// A datafile is due for refresh once `delay` has passed since its last
/// update.
pub open spec fn due(now: int, last_updated: int, delay: int) -> bool {
    now - last_updated >= delay
}

/// Whether a datafile last updated at `last_updated` is due at `now`.
pub fn is_due(now: i64, last_updated: i64, delay: i64) -> (r: bool)
    ensures
        r == due(now as int, last_updated as int, delay as int),
{
    (now as i128) - (last_updated as i128) >= delay as i128
}

/// The No-Intro index's entry for one datafile.
pub struct DatafileLink {
    pub name: String,
    /// Where to start the download, if the index offers one.
    pub link: Option<String>,
    /// When the curator last changed the datafile.
    pub last_updated: i64,
}

/// The UTC time in milliseconds that chrono reads from a
/// `YYYY-MM-DD HH:MM:SS` text, if it is a valid date and time.
pub uninterp spec fn utc_millis_of(stamp: Seq<char>) -> Option<i64>;

/// Relies on chrono's `NaiveDateTime::parse_from_str` with the format
/// `%Y-%m-%d %H:%M:%S`, taken as UTC and read in milliseconds by
/// `timestamp_millis`: the result depends on the text alone.
#[verifier::external_body]
fn utc_millis(stamp: &str) -> (r: Option<i64>)
    ensures
        r == utc_millis_of(stamp@),
{
    chrono::NaiveDateTime::parse_from_str(stamp, "%Y-%m-%d %H:%M:%S").ok().map(
        |t| t.and_utc().timestamp_millis(),
    )
}

/// Whether the `k`-th character of a `YYYY-MM-DD HH:MM:SS` stamp may be `c`.
pub open spec fn stamp_char_ok(k: int, c: char) -> bool {
    if k == 4 || k == 7 {
        c == '-'
    } else if k == 10 {
        c == ' '
    } else if k == 13 || k == 16 {
        c == ':'
    } else {
        is_digit(c)
    }
}

/// Whether a `YYYY-MM-DD HH:MM:SS` stamp (ASCII digits) starts at `i`.
pub open spec fn stamp_at(s: Seq<char>, i: int) -> bool {
    0 <= i && i + 19 <= s.len() && forall|k: int| 0 <= k < 19 ==> stamp_char_ok(k, #[trigger] s[i + k])
}

/// The first position at or after `p` where a stamp starts, or the length.
pub open spec fn stamp_index(s: Seq<char>, p: int) -> int
    decreases s.len() - p,
{
    if p >= s.len() || stamp_at(s, p) {
        p
    } else {
        stamp_index(s, p + 1)
    }
}

/// The first `YYYY-MM-DD HH:MM:SS` stamp in a text, if any.
pub open spec fn first_stamp(s: Seq<char>) -> Option<Seq<char>> {
    let i = stamp_index(s, 0);
    if 0 <= i < s.len() {
        Some(s.subrange(i, i + 19))
    } else {
        None
    }
}

proof fn lemma_stamp_index(s: Seq<char>, p: int)
    requires
        0 <= p <= s.len(),
    ensures
        p <= stamp_index(s, p) <= s.len(),
        stamp_index(s, p) < s.len() ==> stamp_at(s, stamp_index(s, p)),
    decreases s.len() - p,
{
    if p < s.len() && !stamp_at(s, p) {
        lemma_stamp_index(s, p + 1);
    }
}

fn stamp_matches(s: &Vec<char>, i: usize) -> (r: bool)
    requires
        i <= s@.len(),
    ensures
        r == stamp_at(s@, i as int),
{
    let n = s.len();
    if n - i < 19 {
        return false;
    }
    let mut k: usize = 0;
    while k < 19
        invariant
            k <= 19,
            n == s@.len(),
            i + 19 <= n,
            forall|j: int| 0 <= j < k ==> stamp_char_ok(j, #[trigger] s@[i + j]),
        decreases 19 - k,
    {
        let c = s[i + k];
        let ok = if k == 4 || k == 7 {
            c == '-'
        } else if k == 10 {
            c == ' '
        } else if k == 13 || k == 16 {
            c == ':'
        } else {
            '0' <= c && c <= '9'
        };
        if !ok {
            assert(!stamp_char_ok(k as int, s@[i + k]));
            return false;
        }
        k += 1;
    }
    true
}

/// The first `YYYY-MM-DD HH:MM:SS` stamp in a text, as `first_stamp` states.
pub fn find_timestamp(text: &str) -> (r: Option<String>)
    ensures
        match r {
            Some(t) => first_stamp(text@) == Some(t@),
            None => first_stamp(text@) is None,
        },
{
    let s = chars_of(text);
    let n = s.len();
    proof {
        lemma_stamp_index(s@, 0);
    }
    let mut i: usize = 0;
    while i < n && !stamp_matches(&s, i)
        invariant
            i <= n,
            n == s@.len(),
            stamp_index(s@, i as int) == stamp_index(s@, 0),
        decreases n - i,
    {
        i += 1;
    }
    if i < n {
        Some(string_of(&slice_chars(&s, i, i + 19)))
    } else {
        None
    }
}

/// When the No-Intro index says a datafile last changed, from the text of
/// its row's last cell: its first `YYYY-MM-DD HH:MM:SS` stamp, read as UTC.
pub fn link_last_updated(cell_text: &str) -> (r: Option<i64>)
    ensures
        r == match first_stamp(cell_text@) {
            Some(st) => utc_millis_of(st),
            None => None,
        },
{
    match find_timestamp(cell_text) {
        Some(st) => utc_millis(st.as_str()),
        None => None,
    }
}

/// What to do for one No-Intro console.
#[derive(PartialEq, Eq, Debug)]
pub enum NoIntroStep {
    /// Leave the datafile alone.
    Skip,
    /// The stored datafile is current: only record that it was checked now.
    Touch,
    /// Download the datafile from this link and import it.
    Download(String),
}

/// The decision for a No-Intro console whose datafile was last updated at
/// `last_updated`, given the index's entry for it, if any.
pub fn nointro_step(now: i64, last_updated: i64, delay: i64, entry: Option<&DatafileLink>) -> (r:
    NoIntroStep)
    ensures
        !due(now as int, last_updated as int, delay as int) ==> r == NoIntroStep::Skip,
        due(now as int, last_updated as int, delay as int) ==> match entry {
            None => r == NoIntroStep::Skip,
            Some(e) => if e.last_updated <= last_updated {
                r == NoIntroStep::Touch
            } else {
                match e.link {
                    None => r == NoIntroStep::Skip,
                    Some(url) => r matches NoIntroStep::Download(u) && u@ == url@,
                }
            },
        },
{
    if !is_due(now, last_updated, delay) {
        return NoIntroStep::Skip;
    }
    match entry {
        None => NoIntroStep::Skip,
        Some(e) => {
            if e.last_updated <= last_updated {
                NoIntroStep::Touch
            } else {
                match &e.link {
                    None => NoIntroStep::Skip,
                    Some(url) => NoIntroStep::Download(url.clone()),
                }
            }
        },
    }
}

/// Whether a freshly fetched Redump datafile must be imported: only when
/// its version differs from the stored one. Otherwise the datafile is only
/// marked as checked now.
pub fn redump_needs_import(stored_version: &str, fetched_version: &str) -> (r: bool)
    ensures
        r == (stored_version@ != fetched_version@),
{
    !text_is(stored_version, fetched_version)
}

/// One step of a full refresh.
#[derive(Clone, Copy, PartialEq, Eq, Structural, Debug)]
pub enum ConsoleUpdate {
    NoIntro(GameConsole),
    Redump(GameConsole),
}

/// The order of a full refresh: one No-Intro console, then Redump consoles,
/// interleaved, so that an interruption still leaves progress for both
/// curators. When No-Intro is not due, only the Redump consoles run.
pub open spec fn spec_update_order(nointro_due: bool) -> Seq<ConsoleUpdate> {
    if nointro_due {
        seq![
            ConsoleUpdate::NoIntro(GameConsole::GB),
            ConsoleUpdate::Redump(GameConsole::Dreamcast),
            ConsoleUpdate::Redump(GameConsole::GameCube),
            ConsoleUpdate::NoIntro(GameConsole::GBC),
            ConsoleUpdate::Redump(GameConsole::PSX),
            ConsoleUpdate::Redump(GameConsole::PS2),
            ConsoleUpdate::NoIntro(GameConsole::GBA),
            ConsoleUpdate::Redump(GameConsole::PS3),
            ConsoleUpdate::Redump(GameConsole::PSP),
            ConsoleUpdate::NoIntro(GameConsole::N64),
            ConsoleUpdate::Redump(GameConsole::Wii),
            ConsoleUpdate::Redump(GameConsole::Xbox),
            ConsoleUpdate::Redump(GameConsole::Xbox360),
        ]
    } else {
        seq![
            ConsoleUpdate::Redump(GameConsole::Dreamcast),
            ConsoleUpdate::Redump(GameConsole::GameCube),
            ConsoleUpdate::Redump(GameConsole::PSX),
            ConsoleUpdate::Redump(GameConsole::PS2),
            ConsoleUpdate::Redump(GameConsole::PS3),
            ConsoleUpdate::Redump(GameConsole::PSP),
            ConsoleUpdate::Redump(GameConsole::Wii),
            ConsoleUpdate::Redump(GameConsole::Xbox),
            ConsoleUpdate::Redump(GameConsole::Xbox360),
        ]
    }
}

/// The steps of a full refresh. No-Intro's consoles take part when the
/// oldest No-Intro datafile (none stored counts as never updated) is due.
pub fn update_order(now: i64, oldest_nointro_update: Option<i64>, delay: i64) -> (r: Vec<
    ConsoleUpdate,
>)
    ensures
        r@ == spec_update_order(
            due(
                now as int,
                match oldest_nointro_update {
                    Some(t) => t as int,
                    None => 0,
                },
                delay as int,
            ),
        ),
{
    let oldest = match oldest_nointro_update {
        Some(t) => t,
        None => 0,
    };
    let r = if is_due(now, oldest, delay) {
        vec![
            ConsoleUpdate::NoIntro(GameConsole::GB),
            ConsoleUpdate::Redump(GameConsole::Dreamcast),
            ConsoleUpdate::Redump(GameConsole::GameCube),
            ConsoleUpdate::NoIntro(GameConsole::GBC),
            ConsoleUpdate::Redump(GameConsole::PSX),
            ConsoleUpdate::Redump(GameConsole::PS2),
            ConsoleUpdate::NoIntro(GameConsole::GBA),
            ConsoleUpdate::Redump(GameConsole::PS3),
            ConsoleUpdate::Redump(GameConsole::PSP),
            ConsoleUpdate::NoIntro(GameConsole::N64),
            ConsoleUpdate::Redump(GameConsole::Wii),
            ConsoleUpdate::Redump(GameConsole::Xbox),
            ConsoleUpdate::Redump(GameConsole::Xbox360),
        ]
    } else {
        vec![
            ConsoleUpdate::Redump(GameConsole::Dreamcast),
            ConsoleUpdate::Redump(GameConsole::GameCube),
            ConsoleUpdate::Redump(GameConsole::PSX),
            ConsoleUpdate::Redump(GameConsole::PS2),
            ConsoleUpdate::Redump(GameConsole::PS3),
            ConsoleUpdate::Redump(GameConsole::PSP),
            ConsoleUpdate::Redump(GameConsole::Wii),
            ConsoleUpdate::Redump(GameConsole::Xbox),
            ConsoleUpdate::Redump(GameConsole::Xbox360),
        ]
    };
    assert(r@ =~= spec_update_order(due(now as int, oldest as int, delay as int)));
    r
}

} // verus!
