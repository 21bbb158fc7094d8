//! The catalog's records: games, their categories and their ROMs, with the
//! small integer codes under which the store keeps the enumerations.
use vstd::prelude::*;

use crate::text::{chars_eq, chars_of};

verus! {

/// Whether the text `s` reads exactly `lit`.
pub(crate) fn text_is(s: &str, lit: &str) -> (r: bool)
    ensures
        r == (s@ == lit@),
{
    chars_eq(&chars_of(s), &chars_of(lit))
}

/// The kind of a game, as the curators label it.
#[derive(Clone, Copy, PartialEq, Eq, Structural, Debug, Hash)]
pub enum Category {
    Games,
    Demos,
    Coverdiscs,
    Applications,
    Preproduction,
    Educational,
    BonusDiscs,
    Multimedia,
    Addons,
    Audio,
    Video,
    Unknown,
}

/// The category that a datafile's `<category>` text names; any other text
/// is `Unknown`.
pub open spec fn category_named(s: Seq<char>) -> Category {
    if s == "Games"@ {
        Category::Games
    } else if s == "Demos"@ {
        Category::Demos
    } else if s == "Coverdiscs"@ {
        Category::Coverdiscs
    } else if s == "Applications"@ {
        Category::Applications
    } else if s == "Preproduction"@ {
        Category::Preproduction
    } else if s == "Educational"@ {
        Category::Educational
    } else if s == "Bonus Discs"@ {
        Category::BonusDiscs
    } else if s == "Multimedia"@ {
        Category::Multimedia
    } else if s == "Add-Ons"@ {
        Category::Addons
    } else if s == "Audio"@ {
        Category::Audio
    } else if s == "Video"@ {
        Category::Video
    } else {
        Category::Unknown
    }
}

/// The code under which a category is stored; 127 is kept for `Unknown`.
pub open spec fn category_code(c: Category) -> i64 {
    match c {
        Category::Games => 0,
        Category::Demos => 1,
        Category::Coverdiscs => 2,
        Category::Applications => 3,
        Category::Preproduction => 4,
        Category::Educational => 5,
        Category::BonusDiscs => 6,
        Category::Multimedia => 7,
        Category::Addons => 8,
        Category::Audio => 9,
        Category::Video => 10,
        Category::Unknown => 127,
    }
}

/// The category stored under `code`, if any.
pub open spec fn category_of_code(code: i64) -> Option<Category> {
    if code == 0 {
        Some(Category::Games)
    } else if code == 1 {
        Some(Category::Demos)
    } else if code == 2 {
        Some(Category::Coverdiscs)
    } else if code == 3 {
        Some(Category::Applications)
    } else if code == 4 {
        Some(Category::Preproduction)
    } else if code == 5 {
        Some(Category::Educational)
    } else if code == 6 {
        Some(Category::BonusDiscs)
    } else if code == 7 {
        Some(Category::Multimedia)
    } else if code == 8 {
        Some(Category::Addons)
    } else if code == 9 {
        Some(Category::Audio)
    } else if code == 10 {
        Some(Category::Video)
    } else if code == 127 {
        Some(Category::Unknown)
    } else {
        None
    }
}

impl Category {
    /// The category that a `<category>` element's text names.
    pub fn from_name(name: &str) -> (r: Category)
        ensures
            r == category_named(name@),
    {
        if text_is(name, "Games") {
            Category::Games
        } else if text_is(name, "Demos") {
            Category::Demos
        } else if text_is(name, "Coverdiscs") {
            Category::Coverdiscs
        } else if text_is(name, "Applications") {
            Category::Applications
        } else if text_is(name, "Preproduction") {
            Category::Preproduction
        } else if text_is(name, "Educational") {
            Category::Educational
        } else if text_is(name, "Bonus Discs") {
            Category::BonusDiscs
        } else if text_is(name, "Multimedia") {
            Category::Multimedia
        } else if text_is(name, "Add-Ons") {
            Category::Addons
        } else if text_is(name, "Audio") {
            Category::Audio
        } else if text_is(name, "Video") {
            Category::Video
        } else {
            Category::Unknown
        }
    }

    /// The code under which this category is stored.
    pub fn to_code(&self) -> (r: i64)
        ensures
            r == category_code(*self),
    {
        match self {
            Category::Games => 0,
            Category::Demos => 1,
            Category::Coverdiscs => 2,
            Category::Applications => 3,
            Category::Preproduction => 4,
            Category::Educational => 5,
            Category::BonusDiscs => 6,
            Category::Multimedia => 7,
            Category::Addons => 8,
            Category::Audio => 9,
            Category::Video => 10,
            Category::Unknown => 127,
        }
    }

    /// The category stored under `code`; `None` for a code that no category
    /// has.
    pub fn from_code(code: i64) -> (r: Option<Category>)
        ensures
            r == category_of_code(code),
    {
        if code == 0 {
            Some(Category::Games)
        } else if code == 1 {
            Some(Category::Demos)
        } else if code == 2 {
            Some(Category::Coverdiscs)
        } else if code == 3 {
            Some(Category::Applications)
        } else if code == 4 {
            Some(Category::Preproduction)
        } else if code == 5 {
            Some(Category::Educational)
        } else if code == 6 {
            Some(Category::BonusDiscs)
        } else if code == 7 {
            Some(Category::Multimedia)
        } else if code == 8 {
            Some(Category::Addons)
        } else if code == 9 {
            Some(Category::Audio)
        } else if code == 10 {
            Some(Category::Video)
        } else if code == 127 {
            Some(Category::Unknown)
        } else {
            None
        }
    }
}

/// Every category survives being stored and read back, `Unknown` included.
pub proof fn lemma_category_code_round_trip(c: Category)
    ensures
        category_of_code(category_code(c)) == Some(c),
{
}

/// The verification status that a datafile gives a ROM.
#[derive(Clone, Copy, PartialEq, Eq, Structural, Debug, Hash)]
pub enum Status {
    Verified,
    BadDump,
    Unknown,
}

/// The status that a `status` attribute names; any other text is `Unknown`.
pub open spec fn status_named(s: Seq<char>) -> Status {
    if s == "verified"@ {
        Status::Verified
    } else if s == "baddump"@ {
        Status::BadDump
    } else {
        Status::Unknown
    }
}

pub open spec fn status_code(s: Status) -> i64 {
    match s {
        Status::Verified => 0,
        Status::BadDump => 1,
        Status::Unknown => 127,
    }
}

pub open spec fn status_of_code(code: i64) -> Option<Status> {
    if code == 0 {
        Some(Status::Verified)
    } else if code == 1 {
        Some(Status::BadDump)
    } else if code == 127 {
        Some(Status::Unknown)
    } else {
        None
    }
}

impl Status {
    /// The status that a `status` attribute's value names.
    pub fn from_name(name: &str) -> (r: Status)
        ensures
            r == status_named(name@),
    {
        if text_is(name, "verified") {
            Status::Verified
        } else if text_is(name, "baddump") {
            Status::BadDump
        } else {
            Status::Unknown
        }
    }

    /// The code under which this status is stored.
    pub fn to_code(&self) -> (r: i64)
        ensures
            r == status_code(*self),
    {
        match self {
            Status::Verified => 0,
            Status::BadDump => 1,
            Status::Unknown => 127,
        }
    }

    /// The status stored under `code`; `None` for a code that no status has.
    pub fn from_code(code: i64) -> (r: Option<Status>)
        ensures
            r == status_of_code(code),
    {
        if code == 0 {
            Some(Status::Verified)
        } else if code == 1 {
            Some(Status::BadDump)
        } else if code == 127 {
            Some(Status::Unknown)
        } else {
            None
        }
    }
}

/// Every status survives being stored and read back.
pub proof fn lemma_status_code_round_trip(s: Status)
    ensures
        status_of_code(status_code(s)) == Some(s),
{
}

/// The curator that publishes a datafile.
pub enum Author {
    Redump,
    NoIntro,
    Other(String),
}

pub open spec fn author_name(a: Author) -> Seq<char> {
    match a {
        Author::Redump => "Redump"@,
        Author::NoIntro => "No-Intro"@,
        Author::Other(s) => s@,
    }
}

impl Author {
    /// The name under which the store records this curator.
    pub fn name(&self) -> (r: String)
        ensures
            r@ == author_name(*self),
    {
        match self {
            Author::Redump => "Redump".to_string(),
            Author::NoIntro => "No-Intro".to_string(),
            Author::Other(s) => s.clone(),
        }
    }

    /// The curator that the store's name stands for.
    pub fn from_name(name: &str) -> (r: Author)
        ensures
            name@ == "Redump"@ ==> r is Redump,
            name@ == "No-Intro"@ ==> r is NoIntro,
            name@ != "Redump"@ && name@ != "No-Intro"@ ==> r is Other && author_name(r)
                == name@,
    {
        proof {
            reveal_strlit("Redump");
            reveal_strlit("No-Intro");
            assert("Redump"@.len() != "No-Intro"@.len());
        }
        if text_is(name, "Redump") {
            Author::Redump
        } else if text_is(name, "No-Intro") {
            Author::NoIntro
        } else {
            Author::Other(name.to_string())
        }
    }
}

/// One file of a game dump, with its hashes.
pub struct ROM {
    pub name: String,
    pub status: Option<Status>,
    pub size: usize,
    /// The CRC-32 as its raw 32-bit pattern.
    pub crc32: i32,
    pub md5: [u8; 16],
    pub sha1: [u8; 20],
    pub sha256: Option<[u8; 32]>,
}

/// What makes two ROMs the same dump: size and hashes, not name or status.
pub type RomKey = (usize, i32, Seq<u8>, Seq<u8>);

pub open spec fn rom_key(r: ROM) -> RomKey {
    (r.size, r.crc32, r.md5@, r.sha1@)
}

/// The content identities of a list of ROMs, as a set.
pub open spec fn rom_keys(roms: Seq<ROM>) -> Set<RomKey> {
    Set::new(|k: RomKey| exists|i: int| 0 <= i < roms.len() && rom_key(roms[i]) == k)
}

/// A list of categories, as a set.
pub open spec fn category_set(cats: Seq<Category>) -> Set<Category> {
    Set::new(|c: Category| cats.contains(c))
}

/// `acc` with `r` after it, unless a ROM of the same identity is in it.
pub open spec fn dedup_push(acc: Seq<ROM>, r: ROM) -> Seq<ROM> {
    if rom_keys(acc).contains(rom_key(r)) {
        acc
    } else {
        acc.push(r)
    }
}

/// The ROMs in order, keeping the first of each identity.
pub open spec fn deduped(rs: Seq<ROM>) -> Seq<ROM>
    decreases rs.len(),
{
    if rs.len() == 0 {
        Seq::empty()
    } else {
        dedup_push(deduped(rs.drop_last()), rs.last())
    }
}

impl ROM {
    /// Whether two ROMs are the same dump: equal size, CRC-32, MD5 and SHA-1.
    pub fn same_content(&self, other: &ROM) -> (r: bool)
        ensures
            r == (rom_key(*self) == rom_key(*other)),
    {
        if self.size != other.size || self.crc32 != other.crc32 {
            return false;
        }
        let mut i: usize = 0;
        while i < 16
            invariant
                i <= 16,
                self.md5@.len() == 16,
                other.md5@.len() == 16,
                forall|k: int| 0 <= k < i ==> self.md5@[k] == other.md5@[k],
            decreases 16 - i,
        {
            if self.md5[i] != other.md5[i] {
                return false;
            }
            i += 1;
        }
        assert(self.md5@ =~= other.md5@);
        let mut j: usize = 0;
        while j < 20
            invariant
                j <= 20,
                self.sha1@.len() == 20,
                other.sha1@.len() == 20,
                forall|k: int| 0 <= k < j ==> self.sha1@[k] == other.sha1@[k],
            decreases 20 - j,
        {
            if self.sha1[j] != other.sha1[j] {
                return false;
            }
            j += 1;
        }
        assert(self.sha1@ =~= other.sha1@);
        true
    }
}

/// A game as a datafile lists it: its name, its categories (each once) and
/// its ROMs in the order given.
pub struct Game {
    pub name: String,
    pub categories: Vec<Category>,
    pub roms: Vec<ROM>,
}

impl Game {
    /// A game with no categories and no ROMs yet.
    pub fn new(name: String) -> (r: Game)
        ensures
            r.name@ == name@,
            r.categories@.len() == 0,
            r.roms@.len() == 0,
    {
        Game { name, categories: Vec::new(), roms: Vec::new() }
    }

    /// Adds a category unless the game has it already.
    pub fn add_category(&mut self, c: Category)
        ensures
            final(self).name@ == old(self).name@,
            final(self).roms@ == old(self).roms@,
            category_set(final(self).categories@) == category_set(old(self).categories@).insert(
                c,
            ),
            old(self).categories@.no_duplicates() ==> final(self).categories@.no_duplicates(),
    {
        let mut i: usize = 0;
        while i < self.categories.len()
            invariant
                i <= self.categories@.len(),
                forall|k: int| 0 <= k < i ==> self.categories@[k] != c,
            decreases self.categories@.len() - i,
        {
            if self.categories[i] == c {
                assert(category_set(self.categories@).insert(c) =~= category_set(
                    self.categories@,
                ));
                return;
            }
            i += 1;
        }
        let ghost before = self.categories@;
        self.categories.push(c);
        assert(category_set(self.categories@) =~= category_set(before).insert(c)) by {
            assert forall|x: Category| category_set(before).insert(c).contains(x) implies #[trigger] self.categories@.contains(x) by {
                if x == c {
                    assert(self.categories@[before.len() as int] == c);
                } else {
                    let k = choose|k: int| 0 <= k < before.len() && before[k] == x;
                    assert(self.categories@[k] == x);
                }
            }
            assert forall|x: Category| #[trigger] self.categories@.contains(x) implies category_set(before).insert(c).contains(x) by {
                let k = choose|k: int| 0 <= k < self.categories@.len() && self.categories@[k] == x;
                if k < before.len() {
                    assert(before[k] == x);
                }
            }
        }
    }

    /// Adds a ROM after those the game has, unless the game has one of the
    /// same identity already.
    pub fn add_rom(&mut self, rom: ROM)
        ensures
            final(self).name@ == old(self).name@,
            final(self).categories@ == old(self).categories@,
            final(self).roms@ == dedup_push(old(self).roms@, rom),
    {
        let mut i: usize = 0;
        while i < self.roms.len()
            invariant
                i <= self.roms@.len(),
                forall|k: int| 0 <= k < i ==> rom_key(self.roms@[k]) != rom_key(rom),
            decreases self.roms@.len() - i,
        {
            if self.roms[i].same_content(&rom) {
                assert(rom_keys(self.roms@).contains(rom_key(rom)));
                return;
            }
            i += 1;
        }
        assert(!rom_keys(self.roms@).contains(rom_key(rom)));
        self.roms.push(rom);
    }
}

} // verus!
