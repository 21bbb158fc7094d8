//! The vocabulary of the external `chdman` tool, which converts disc images
//! to and from compressed hunks of data: its codecs, track types and
//! options, and how its report is read.
use vstd::prelude::*;

use crate::catalog::text_is;
use crate::cuesheet::{
    find_from, index_from, lemma_index_from, split_chars, split_on, trim_chars, trimmed,
};
use crate::logiqx::{
    decimal_digits, decimal_ok, digits_value, hex_array, hex_bytes, hex_fits, is_digit,
    parse_decimal,
};
use crate::text::{chars_of, matches_at, slice_chars, string_of};

verus! {

/// A compression codec of the CHD format.
#[derive(Clone, Copy, PartialEq, Eq, Structural, Debug)]
pub enum Codec {
    ZLIB,
    ZSTD,
    LZMA,
    HUFF,
    FLAC,
    CDZL,
    CDZS,
    CDLZ,
    CDFL,
    AVHU,
}

pub open spec fn codec_name(c: Codec) -> Seq<char> {
    match c {
        Codec::ZLIB => "zlib"@,
        Codec::ZSTD => "zstd"@,
        Codec::LZMA => "lzma"@,
        Codec::HUFF => "huff"@,
        Codec::FLAC => "flac"@,
        Codec::CDZL => "cdzl"@,
        Codec::CDZS => "cdzs"@,
        Codec::CDLZ => "cdlz"@,
        Codec::CDFL => "cdfl"@,
        Codec::AVHU => "avhu"@,
    }
}

impl Codec {
    /// The codec's name on chdman's command line.
    pub fn to_string(self) -> (r: &'static str)
        ensures
            r@ == codec_name(self),
    {
        match self {
            Codec::ZLIB => "zlib",
            Codec::ZSTD => "zstd",
            Codec::LZMA => "lzma",
            Codec::HUFF => "huff",
            Codec::FLAC => "flac",
            Codec::CDZL => "cdzl",
            Codec::CDZS => "cdzs",
            Codec::CDLZ => "cdlz",
            Codec::CDFL => "cdfl",
            Codec::AVHU => "avhu",
        }
    }

    /// The codec that chdman names `s`; `None` for any other name.
    pub fn from_string(s: &str) -> (r: Option<Codec>)
        ensures
            r matches Some(c) ==> codec_name(c) == s@,
            r is None ==> forall|c: Codec| codec_name(c) != s@,
    {
        if text_is(s, "zlib") {
            Some(Codec::ZLIB)
        } else if text_is(s, "zstd") {
            Some(Codec::ZSTD)
        } else if text_is(s, "lzma") {
            Some(Codec::LZMA)
        } else if text_is(s, "huff") {
            Some(Codec::HUFF)
        } else if text_is(s, "flac") {
            Some(Codec::FLAC)
        } else if text_is(s, "cdzl") {
            Some(Codec::CDZL)
        } else if text_is(s, "cdzs") {
            Some(Codec::CDZS)
        } else if text_is(s, "cdlz") {
            Some(Codec::CDLZ)
        } else if text_is(s, "cdfl") {
            Some(Codec::CDFL)
        } else if text_is(s, "avhu") {
            Some(Codec::AVHU)
        } else {
            None
        }
    }
}

/// Options of chdman's `createcd`.
pub struct CreateOptions {
    pub compression: Option<Vec<Codec>>,
    pub force: bool,
    pub hunk_size: Option<usize>,
    pub processor_count: Option<usize>,
}

/// Options of chdman's `extractcd`.
pub struct ExtractOptions {
    pub force: bool,
    pub split_tracks: bool,
}

/// The type of a CD track as chdman reports it.
#[derive(Clone, Copy, PartialEq, Eq, Structural, Debug)]
pub enum TrackType {
    Mode1,
    Mode2Raw,
    Audio,
}

/// The track type that chdman's report names `s`.
#[verifier::opaque]
pub open spec fn track_type_named(s: Seq<char>) -> Option<TrackType> {
    if s == "MODE1"@ {
        Some(TrackType::Mode1)
    } else if s == "MODE2_RAW"@ {
        Some(TrackType::Mode2Raw)
    } else if s == "AUDIO"@ {
        Some(TrackType::Audio)
    } else {
        None
    }
}

impl TrackType {
    /// The track type that chdman's report names `s`.
    pub fn from_str(s: &str) -> (r: Option<TrackType>)
        ensures
            r == track_type_named(s@),
    {
        proof {
            reveal(track_type_named);
        }
        if text_is(s, "MODE1") {
            Some(TrackType::Mode1)
        } else if text_is(s, "MODE2_RAW") {
            Some(TrackType::Mode2Raw)
        } else if text_is(s, "AUDIO") {
            Some(TrackType::Audio)
        } else {
            None
        }
    }
}

/// A metadata entry of a CHD file.
pub enum Tag {
    CHT2 { track: u8, track_type: TrackType },
    Other(String),
}

/// What chdman's `info` reports of a version 5 CHD file.
pub struct InfoV5 {
    pub logical_size: usize,
    pub chd_size: usize,
    pub compression: Vec<Codec>,
    pub sha1: [u8; 20],
    pub data_sha1: [u8; 20],
    pub metadata: Vec<Tag>,
}

/// Whether `p` occurs in `s` at position `i`.
pub open spec fn occurs_at(s: Seq<char>, p: Seq<char>, i: int) -> bool {
    0 <= i && i + p.len() <= s.len() && s.subrange(i, i + p.len()) == p
}

/// The first position at which `p` occurs in `s`, if any.
#[verifier::opaque]
pub open spec fn first_occurrence(s: Seq<char>, p: Seq<char>) -> Option<int> {
    if exists|i: int| occurs_at(s, p, i) {
        Some(choose|i: int| occurs_at(s, p, i) && forall|k: int| 0 <= k < i ==> !occurs_at(s, p, k))
    } else {
        None
    }
}

proof fn lemma_first_occurrence_none(s: Seq<char>, p: Seq<char>)
    requires
        forall|k: int| !occurs_at(s, p, k),
    ensures
        first_occurrence(s, p) is None,
{
    reveal(first_occurrence);
}

proof fn lemma_first_occurrence_at(s: Seq<char>, p: Seq<char>, i: int)
    requires
        occurs_at(s, p, i),
        forall|k: int| 0 <= k < i ==> !occurs_at(s, p, k),
    ensures
        first_occurrence(s, p) == Some(i),
{
    reveal(first_occurrence);
    let j = choose|j: int| occurs_at(s, p, j) && forall|k: int| 0 <= k < j ==> !occurs_at(s, p, k);
    assert(j == i) by {
        if j < i {
        } else if j > i {
        }
    }
}

/// Finds the first occurrence of `p` in `s`.
fn find_text(s: &Vec<char>, p: &Vec<char>) -> (r: Option<usize>)
    ensures
        match r {
            Some(i) => first_occurrence(s@, p@) == Some(i as int) && occurs_at(s@, p@, i as int),
            None => first_occurrence(s@, p@) is None,
        },
{
    if p.len() > s.len() {
        proof {
            lemma_first_occurrence_none(s@, p@);
        }
        return None;
    }
    let last = s.len() - p.len();
    let mut i: usize = 0;
    while i <= last
        invariant
            last == s@.len() - p@.len(),
            i <= last + 1,
            forall|k: int| 0 <= k < i ==> !occurs_at(s@, p@, k),
        decreases last + 1 - i,
    {
        if matches_at(s, i, p) {
            proof {
                lemma_first_occurrence_at(s@, p@, i as int);
            }
            return Some(i);
        }
        if i == last {
            proof {
                assert forall|k: int| !occurs_at(s@, p@, k) by {
                    if k == i as int {
                    }
                }
                lemma_first_occurrence_none(s@, p@);
            }
            return None;
        }
        i += 1;
    }
    proof {
        lemma_first_occurrence_none(s@, p@);
    }
    None
}

/// How a chdman run ended, from its report: a success when the report holds
/// `marker`; otherwise the trimmed report from its first `Error:` on, or
/// `Unknown` when there is none.
pub open spec fn outcome_of(report: Seq<char>, marker: Seq<char>) -> Result<(), Seq<char>> {
    if first_occurrence(report, marker) is Some {
        Ok(())
    } else {
        match first_occurrence(report, "Error:"@) {
            Some(i) => Err(crate::cuesheet::trimmed(report.subrange(i, report.len() as int))),
            None => Err("Unknown"@),
        }
    }
}

/// Reads how a chdman run ended from its report, as `outcome_of` states.
pub fn tool_outcome(report: &str, marker: &str) -> (r: Result<(), String>)
    ensures
        match r {
            Ok(()) => outcome_of(report@, marker@) is Ok,
            Err(e) => outcome_of(report@, marker@) == Err::<(), Seq<char>>(e@),
        },
{
    let s = chars_of(report);
    let m = chars_of(marker);
    if find_text(&s, &m).is_some() {
        return Ok(());
    }
    let err = chars_of("Error:");
    match find_text(&s, &err) {
        Some(i) => {
            let rest = slice_chars(&s, i, s.len());
            Err(string_of(&trim_chars(&rest)))
        },
        None => Err("Unknown".to_string()),
    }
}


/// The kinds of character runs that the report's values are made of.
#[derive(Clone, Copy, PartialEq, Eq, Structural)]
pub enum Run {
    Digits,
    DigitsAndCommas,
    Word,
}

pub open spec fn in_run(c: char, run: Run) -> bool {
    match run {
        Run::Digits => is_digit(c),
        Run::DigitsAndCommas => is_digit(c) || c == ',',
        Run::Word => is_digit(c) || ('a' <= c && c <= 'z') || ('A' <= c && c <= 'Z') || c == '_',
    }
}

/// The end of the run of `run` characters that starts at `p`.
pub open spec fn run_end(s: Seq<char>, p: int, run: Run) -> int
    decreases s.len() - p,
{
    if p >= s.len() || !in_run(s[p], run) {
        p
    } else {
        run_end(s, p + 1, run)
    }
}

proof fn lemma_run_end(s: Seq<char>, p: int, run: Run)
    requires
        0 <= p <= s.len(),
    ensures
        p <= run_end(s, p, run) <= s.len(),
    decreases s.len() - p,
{
    if p < s.len() && in_run(s[p], run) {
        lemma_run_end(s, p + 1, run);
    }
}

fn run_char(c: char, run: Run) -> (r: bool)
    ensures
        r == in_run(c, run),
{
    match run {
        Run::Digits => '0' <= c && c <= '9',
        Run::DigitsAndCommas => ('0' <= c && c <= '9') || c == ',',
        Run::Word => ('0' <= c && c <= '9') || ('a' <= c && c <= 'z') || ('A' <= c && c <= 'Z')
            || c == '_',
    }
}

fn run_end_at(s: &Vec<char>, p: usize, run: Run) -> (r: usize)
    requires
        p <= s@.len(),
    ensures
        r == run_end(s@, p as int, run),
        p <= r <= s@.len(),
{
    proof {
        lemma_run_end(s@, p as int, run);
    }
    let mut i = p;
    while i < s.len() && run_char(s[i], run)
        invariant
            p <= i <= s@.len(),
            run_end(s@, i as int, run) == run_end(s@, p as int, run),
        decreases s@.len() - i,
    {
        i += 1;
    }
    i
}

/// The value that follows `label` in the report: the rest of its line,
/// trimmed.
pub open spec fn field(s: Seq<char>, label: Seq<char>) -> Option<Seq<char>> {
    match first_occurrence(s, label) {
        Some(i) => {
            let k = i + label.len();
            Some(trimmed(s.subrange(k, index_from(s, k, '\n'))))
        },
        None => None,
    }
}

fn field_chars(s: &Vec<char>, label: &Vec<char>) -> (r: Option<Vec<char>>)
    ensures
        match r {
            Some(f) => field(s@, label@) == Some(f@),
            None => field(s@, label@) is None,
        },
{
    match find_text(s, label) {
        None => {
            None
        },
        Some(i) => {
            let n = s.len();
            assert(i + label@.len() <= n);
            let k = i + label.len();
            let e = find_from(s, k, '\n');
            Some(trim_chars(&slice_chars(s, k, e)))
        },
    }
}

/// `s` without its commas.
pub open spec fn without_commas(s: Seq<char>) -> Seq<char>
    decreases s.len(),
{
    if s.len() == 0 {
        s
    } else if s.last() == ',' {
        without_commas(s.drop_last())
    } else {
        without_commas(s.drop_last()).push(s.last())
    }
}

/// A size field: digits grouped by commas, then ` bytes`.
pub open spec fn size_of_field(f: Seq<char>) -> Option<usize> {
    let k = run_end(f, 0, Run::DigitsAndCommas);
    let d = without_commas(f.subrange(0, k));
    if occurs_at(f, " bytes"@, k) && decimal_ok(d) {
        Some(digits_value(decimal_digits(d)) as usize)
    } else {
        None
    }
}

fn size_from_field(f: &Vec<char>) -> (r: Option<usize>)
    ensures
        r == size_of_field(f@),
{
    let k = run_end_at(f, 0, Run::DigitsAndCommas);
    let mut d: Vec<char> = Vec::new();
    let mut i: usize = 0;
    while i < k
        invariant
            i <= k <= f@.len(),
            d@ == without_commas(f@.subrange(0, i as int)),
        decreases k - i,
    {
        let ghost pre = f@.subrange(0, i as int);
        assert(f@.subrange(0, i + 1).drop_last() =~= pre);
        if f[i] != ',' {
            d.push(f[i]);
        }
        i += 1;
    }
    let bytes = chars_of(" bytes");
    if bytes.len() <= f.len() - k && matches_at(f, k, &bytes) {
        parse_decimal(&string_of(&d))
    } else {
        None
    }
}

/// A SHA-1 field: its first 40 characters as hex.
pub open spec fn sha1_of_field(f: Seq<char>) -> Option<Seq<u8>> {
    if f.len() >= 40 && hex_fits(f.subrange(0, 40), 20) {
        Some(hex_bytes(f.subrange(0, 40)))
    } else {
        None
    }
}

fn sha1_from_field(f: &Vec<char>) -> (r: Option<[u8; 20]>)
    ensures
        match r {
            Some(h) => sha1_of_field(f@) == Some(h@),
            None => sha1_of_field(f@) is None,
        },
{
    if f.len() < 40 {
        return None;
    }
    hex_array::<20>(string_of(&slice_chars(f, 0, 40)).as_str())
}

/// The leading word of a piece of the compression field, spaces skipped.
pub open spec fn piece_word(p: Seq<char>) -> Seq<char> {
    let a = index_past_spaces(p, 0);
    p.subrange(a, run_end(p, a, Run::Word))
}

pub open spec fn index_past_spaces(p: Seq<char>, i: int) -> int
    decreases p.len() - i,
{
    if i >= p.len() || p[i] != ' ' {
        i
    } else {
        index_past_spaces(p, i + 1)
    }
}

proof fn lemma_past_spaces(p: Seq<char>, i: int)
    requires
        0 <= i <= p.len(),
    ensures
        i <= index_past_spaces(p, i) <= p.len(),
    decreases p.len() - i,
{
    if i < p.len() && p[i] == ' ' {
        lemma_past_spaces(p, i + 1);
    }
}

fn piece_word_chars(p: &Vec<char>) -> (r: Vec<char>)
    ensures
        r@ == piece_word(p@),
{
    proof {
        lemma_past_spaces(p@, 0);
    }
    let mut a: usize = 0;
    while a < p.len() && p[a] == ' '
        invariant
            a <= p@.len(),
            index_past_spaces(p@, a as int) == index_past_spaces(p@, 0),
        decreases p@.len() - a,
    {
        a += 1;
    }
    let e = run_end_at(p, a, Run::Word);
    slice_chars(p, a, e)
}

/// Whether `cs` are the codecs that the compression field lists, one per
/// comma-separated piece, each named by the piece's leading word.
pub open spec fn codecs_listed(f: Seq<char>, cs: Seq<Codec>) -> bool {
    let pieces = split_on(f, ',');
    cs.len() == pieces.len() && forall|k: int|
        0 <= k < pieces.len() ==> codec_name(#[trigger] cs[k]) == piece_word(pieces[k])
}

/// Whether some piece of the compression field names no codec.
pub open spec fn unknown_codec_listed(f: Seq<char>) -> bool {
    let pieces = split_on(f, ',');
    exists|k: int| 0 <= k < pieces.len() && forall|c: Codec| codec_name(c) != piece_word(#[trigger] pieces[k])
}

fn codecs_from_field(f: &Vec<char>) -> (r: Option<Vec<Codec>>)
    ensures
        match r {
            Some(cs) => codecs_listed(f@, cs@),
            None => unknown_codec_listed(f@),
        },
{
    let pieces = split_chars(f, ',');
    let ghost views = pieces@.map_values(|v: Vec<char>| v@);
    let mut cs: Vec<Codec> = Vec::new();
    let mut k: usize = 0;
    while k < pieces.len()
        invariant
            k <= pieces@.len(),
            views == pieces@.map_values(|v: Vec<char>| v@),
            views == split_on(f@, ','),
            cs@.len() == k,
            forall|j: int| 0 <= j < k ==> codec_name(#[trigger] cs@[j]) == piece_word(views[j]),
        decreases pieces@.len() - k,
    {
        let w = piece_word_chars(&pieces[k]);
        match Codec::from_string(string_of(&w).as_str()) {
            Some(c) => cs.push(c),
            None => {
                assert(views[k as int] == pieces@[k as int]@);
                return None;
            },
        }
        k += 1;
    }
    Some(cs)
}

/// A metadata entry, over plain values.
pub enum TagView {
    CHT2(u8, TrackType),
    Other(Seq<char>),
}

pub open spec fn tag_view(t: Tag) -> TagView {
    match t {
        Tag::CHT2 { track, track_type } => TagView::CHT2(track, track_type),
        Tag::Other(s) => TagView::Other(s@),
    }
}

/// The number after `TRACK:` in a metadata line, if it fits a `u8`.
pub open spec fn track_number(line: Seq<char>) -> Option<u8> {
    match first_occurrence(line, "TRACK:"@) {
        Some(i) => {
            let a = i + "TRACK:"@.len();
            let d = line.subrange(a, run_end(line, a, Run::Digits));
            if decimal_ok(d) && digits_value(decimal_digits(d)) <= 255 {
                Some(digits_value(decimal_digits(d)) as u8)
            } else {
                None
            }
        },
        None => None,
    }
}

/// The track type named after ` TYPE:` in a metadata line.
pub open spec fn track_type_of(line: Seq<char>) -> Option<TrackType> {
    match first_occurrence(line, " TYPE:"@) {
        Some(i) => {
            let a = i + " TYPE:"@.len();
            track_type_named(line.subrange(a, run_end(line, a, Run::Word)))
        },
        None => None,
    }
}

/// The entry that a header line and the line after it describe: a CD
/// track for a `Tag='CHT2'` header, any other entry as its text.
pub open spec fn tag_of(head: Seq<char>, line: Seq<char>) -> Option<TagView> {
    if first_occurrence(head, "Tag='CHT2'"@) is Some {
        match (track_number(line), track_type_of(line)) {
            (Some(n), Some(t)) => Some(TagView::CHT2(n, t)),
            _ => None,
        }
    } else {
        Some(TagView::Other(line))
    }
}

/// The first position just past `label`, if the text holds it.
fn find_after(s: &Vec<char>, label: &str) -> (r: Option<usize>)
    ensures
        match r {
            Some(k) => first_occurrence(s@, label@) == Some(k - label@.len()) && k <= s@.len()
                && k >= label@.len(),
            None => first_occurrence(s@, label@) is None,
        },
{
    let l = chars_of(label);
    match find_text(s, &l) {
        None => {
            None
        },
        Some(i) => {
            let n = s.len();
            assert(i + l@.len() <= n);
            Some(i + l.len())
        },
    }
}

fn track_number_from(line: &Vec<char>) -> (r: Option<u8>)
    ensures
        r == track_number(line@),
{
    match find_after(line, "TRACK:") {
        None => None,
        Some(a) => {
            let e = run_end_at(line, a, Run::Digits);
            match parse_decimal(&string_of(&slice_chars(line, a, e))) {
                Some(v) => if v <= 255 {
                    Some(v as u8)
                } else {
                    None
                },
                None => None,
            }
        },
    }
}

fn track_type_from(line: &Vec<char>) -> (r: Option<TrackType>)
    ensures
        r == track_type_of(line@),
{
    match find_after(line, " TYPE:") {
        None => None,
        Some(a) => {
            let e = run_end_at(line, a, Run::Word);
            let word = string_of(&slice_chars(line, a, e));
            let ghost start = a as int;
            assert(word@ == line@.subrange(start, run_end(line@, start, Run::Word)));
            TrackType::from_str(word.as_str())
        },
    }
}

fn tag_from_lines(head: &Vec<char>, line: &Vec<char>) -> (r: Option<Tag>)
    ensures
        match r {
            Some(t) => tag_of(head@, line@) == Some(tag_view(t)),
            None => tag_of(head@, line@) is None,
        },
{
    if find_after(head, "Tag='CHT2'").is_none() {
        return Some(Tag::Other(string_of(line)));
    }
    match (track_number_from(line), track_type_from(line)) {
        (Some(n), Some(t)) => Some(Tag::CHT2 { track: n, track_type: t }),
        _ => None,
    }
}

/// The trimmed lines of the metadata section: everything after the first
/// `Metadata:`, trimmed, split into lines, each trimmed.
pub open spec fn metadata_lines(s: Seq<char>) -> Option<Seq<Seq<char>>> {
    match first_occurrence(s, "Metadata:"@) {
        Some(i) => Some(
            split_on(trimmed(s.subrange(i + "Metadata:"@.len(), s.len() as int)), '\n').map_values(
                |l: Seq<char>| trimmed(l),
            ),
        ),
        None => None,
    }
}

/// Whether `tags` are the entries of these lines, taken as header and value
/// in pairs.
pub open spec fn tags_listed(lines: Seq<Seq<char>>, tags: Seq<Tag>) -> bool {
    &&& lines.len() == 2 * tags.len()
    &&& forall|k: int|
        0 <= k < tags.len() ==> tag_of(lines[2 * k], lines[2 * k + 1]) == Some(
            tag_view(#[trigger] tags[k]),
        )
}

/// Whether the lines cannot be read as entries: an odd count, or a pair
/// that describes none.
pub open spec fn tags_unreadable(lines: Seq<Seq<char>>) -> bool {
    lines.len() % 2 == 1 || exists|k: int|
        0 <= k < lines.len() / 2 && (#[trigger] tag_of(lines[2 * k], lines[2 * k + 1])) is None
}

fn tags_from_lines(lines: &Vec<Vec<char>>) -> (r: Option<Vec<Tag>>)
    ensures
        match r {
            Some(tags) => tags_listed(lines@.map_values(|v: Vec<char>| v@), tags@),
            None => tags_unreadable(lines@.map_values(|v: Vec<char>| v@)),
        },
{
    let ghost ls = lines@.map_values(|v: Vec<char>| v@);
    if lines.len() % 2 == 1 {
        return None;
    }
    let mut tags: Vec<Tag> = Vec::new();
    let mut k: usize = 0;
    while k < lines.len() / 2
        invariant
            lines@.len() % 2 == 0,
            ls == lines@.map_values(|v: Vec<char>| v@),
            k <= lines@.len() / 2,
            tags@.len() == k,
            forall|j: int|
                0 <= j < k ==> tag_of(ls[2 * j], ls[2 * j + 1]) == Some(tag_view(#[trigger] tags@[j])),
        decreases lines@.len() / 2 - k,
    {
        assert(ls[2 * k as int] == lines@[2 * k as int]@);
        assert(ls[2 * k + 1] == lines@[2 * k + 1]@);
        match tag_from_lines(&lines[2 * k], &lines[2 * k + 1]) {
            Some(t) => tags.push(t),
            None => return None,
        }
        k += 1;
    }
    Some(tags)
}

/// Whether `info` is what chdman's `info` report `s` says: sizes after
/// `Logical size:` and `CHD size:`, hashes after `SHA1:` (at a line start)
/// and `Data SHA1:`, codecs after `Compression:`, and the entries after
/// `Metadata:`.
pub open spec fn info_read(s: Seq<char>, info: InfoV5) -> bool {
    &&& field(s, "Logical size:"@) matches Some(f) && size_of_field(f) == Some(info.logical_size)
    &&& field(s, "CHD size:"@) matches Some(f) && size_of_field(f) == Some(info.chd_size)
    &&& field(s, "\nSHA1:"@) matches Some(f) && sha1_of_field(f) == Some(info.sha1@)
    &&& field(s, "Data SHA1:"@) matches Some(f) && sha1_of_field(f) == Some(info.data_sha1@)
    &&& field(s, "Compression:"@) matches Some(f) && codecs_listed(f, info.compression@)
    &&& metadata_lines(s) matches Some(ls) && tags_listed(ls, info.metadata@)
}

/// Whether some part of the report is missing or cannot be read.
pub open spec fn info_unreadable(s: Seq<char>) -> bool {
    ||| !(field(s, "Logical size:"@) matches Some(f) && size_of_field(f) is Some)
    ||| !(field(s, "CHD size:"@) matches Some(f) && size_of_field(f) is Some)
    ||| !(field(s, "\nSHA1:"@) matches Some(f) && sha1_of_field(f) is Some)
    ||| !(field(s, "Data SHA1:"@) matches Some(f) && sha1_of_field(f) is Some)
    ||| !(field(s, "Compression:"@) matches Some(f) && !unknown_codec_listed(f))
    ||| !(metadata_lines(s) matches Some(ls) && !tags_unreadable(ls))
}

fn size_labelled(s: &Vec<char>, label: &str) -> (r: Option<usize>)
    ensures
        match r {
            Some(v) => field(s@, label@) matches Some(f) && size_of_field(f) == Some(v),
            None => !(field(s@, label@) matches Some(f) && size_of_field(f) is Some),
        },
{
    match field_chars(s, &chars_of(label)) {
        Some(f) => size_from_field(&f),
        None => None,
    }
}

fn sha1_labelled(s: &Vec<char>, label: &str) -> (r: Option<[u8; 20]>)
    ensures
        match r {
            Some(h) => field(s@, label@) matches Some(f) && sha1_of_field(f) == Some(h@),
            None => !(field(s@, label@) matches Some(f) && sha1_of_field(f) is Some),
        },
{
    match field_chars(s, &chars_of(label)) {
        Some(f) => sha1_from_field(&f),
        None => None,
    }
}

/// Each piece, trimmed.
fn trimmed_pieces(pieces: &Vec<Vec<char>>) -> (r: Vec<Vec<char>>)
    ensures
        r@.map_values(|v: Vec<char>| v@) == pieces@.map_values(|v: Vec<char>| v@).map_values(
            |l: Seq<char>| trimmed(l),
        ),
{
    let mut lines: Vec<Vec<char>> = Vec::new();
    let mut j: usize = 0;
    while j < pieces.len()
        invariant
            j <= pieces@.len(),
            lines@.len() == j,
            forall|i: int| 0 <= i < j ==> (#[trigger] lines@[i])@ == trimmed(pieces@[i]@),
        decreases pieces@.len() - j,
    {
        lines.push(trim_chars(&pieces[j]));
        j += 1;
    }
    let ghost want = pieces@.map_values(|v: Vec<char>| v@).map_values(|l: Seq<char>| trimmed(l));
    assert(lines@.map_values(|v: Vec<char>| v@) =~= want);
    lines
}

/// The entries of the report's metadata section.
fn metadata_from(s: &Vec<char>) -> (r: Option<Vec<Tag>>)
    ensures
        match r {
            Some(tags) => metadata_lines(s@) matches Some(ls) && tags_listed(ls, tags@),
            None => !(metadata_lines(s@) matches Some(ls) && !tags_unreadable(ls)),
        },
{
    match find_after(s, "Metadata:") {
        None => None,
        Some(k) => {
            let section = trim_chars(&slice_chars(s, k, s.len()));
            let pieces = split_chars(&section, '\n');
            let lines = trimmed_pieces(&pieces);
            tags_from_lines(&lines)
        },
    }
}

/// Reads chdman's `info` report on a version 5 CHD file: `None` exactly
/// when a part of it is missing or cannot be read.
pub fn parse_info(report: &str) -> (r: Option<InfoV5>)
    ensures
        match r {
            Some(info) => info_read(report@, info),
            None => info_unreadable(report@),
        },
{
    let s = chars_of(report);
    let logical_size = match size_labelled(&s, "Logical size:") {
        Some(v) => v,
        None => return None,
    };
    let chd_size = match size_labelled(&s, "CHD size:") {
        Some(v) => v,
        None => return None,
    };
    let sha1 = match sha1_labelled(&s, "\nSHA1:") {
        Some(h) => h,
        None => return None,
    };
    let data_sha1 = match sha1_labelled(&s, "Data SHA1:") {
        Some(h) => h,
        None => return None,
    };
    let compression = match field_chars(&s, &chars_of("Compression:")) {
        Some(f) => match codecs_from_field(&f) {
            Some(cs) => cs,
            None => return None,
        },
        None => return None,
    };
    let metadata = match metadata_from(&s) {
        Some(tags) => tags,
        None => return None,
    };
    Some(InfoV5 { logical_size, chd_size, compression, sha1, data_sha1, metadata })
}

} // verus!
