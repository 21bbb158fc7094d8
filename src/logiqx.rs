//! Reading Logiqx datafiles: the header and the games with their categories
//! and ROMs, from the element tree of the XML document.
use vstd::prelude::*;

use crate::catalog::{
    category_named, category_set, deduped, status_named, text_is, Category, Game, Status, ROM,
};
use crate::text::{chars_of, string_of};

verus! {

/// An element of an XML document: its local tag name, its attributes in
/// document order, its text (that of its first child, when that is text) and
/// its child elements.
pub struct XmlElement {
    pub tag: String,
    pub attributes: Vec<(String, String)>,
    pub text: Option<String>,
    pub children: Vec<XmlElement>,
}

/// Why a datafile could not be read.
pub enum ParseError {
    /// `parent` lacks a `<tag>` child (for the document element, `parent` is
    /// empty).
    MissingElement { parent: String, tag: String },
    /// A `<element>` lacks a required attribute.
    MissingAttribute { element: String, attribute: String },
    /// A `<element>`'s attribute does not hold a number of the expected form.
    InvalidAttribute { element: String, attribute: String, value: String },
}

/// What went wrong, over plain values.
pub enum Fault {
    MissingElement(Seq<char>, Seq<char>),
    MissingAttribute(Seq<char>, Seq<char>),
    InvalidAttribute(Seq<char>, Seq<char>, Seq<char>),
}

pub open spec fn fault_of(e: ParseError) -> Fault {
    match e {
        ParseError::MissingElement { parent, tag } => Fault::MissingElement(parent@, tag@),
        ParseError::MissingAttribute { element, attribute } => Fault::MissingAttribute(
            element@,
            attribute@,
        ),
        ParseError::InvalidAttribute { element, attribute, value } => Fault::InvalidAttribute(
            element@,
            attribute@,
            value@,
        ),
    }
}

/// The datafile's header fields; a field without text is empty.
pub struct Header {
    pub name: String,
    pub description: String,
    pub version: String,
    pub homepage: String,
}

/// The first attribute at or after `i` called `name`, or the length.
pub open spec fn attr_index(attrs: Seq<(String, String)>, name: Seq<char>, i: int) -> int
    decreases attrs.len() - i,
{
    if i >= attrs.len() || attrs[i].0@ == name {
        i
    } else {
        attr_index(attrs, name, i + 1)
    }
}

/// The value of the attribute `name`, if the element has it.
pub open spec fn attr_of(e: XmlElement, name: Seq<char>) -> Option<Seq<char>> {
    let k = attr_index(e.attributes@, name, 0);
    if 0 <= k < e.attributes@.len() {
        Some(e.attributes@[k].1@)
    } else {
        None
    }
}

/// The element's text; none reads as empty.
pub open spec fn text_of(e: XmlElement) -> Seq<char> {
    match e.text {
        Some(t) => t@,
        None => Seq::empty(),
    }
}

/// The first child at or after `i` tagged `tag`, or the number of children.
pub open spec fn child_index(kids: Seq<XmlElement>, tag: Seq<char>, i: int) -> int
    decreases kids.len() - i,
{
    if i >= kids.len() || kids[i].tag@ == tag {
        i
    } else {
        child_index(kids, tag, i + 1)
    }
}

pub open spec fn has_child(e: XmlElement, tag: Seq<char>) -> bool {
    0 <= child_index(e.children@, tag, 0) < e.children@.len()
}

/// The first child tagged `tag` (meaningful where `has_child` holds).
pub open spec fn child_of(e: XmlElement, tag: Seq<char>) -> XmlElement {
    e.children@[child_index(e.children@, tag, 0)]
}

/// The children tagged `tag`, in order.
pub open spec fn tagged(kids: Seq<XmlElement>, tag: Seq<char>) -> Seq<XmlElement>
    decreases kids.len(),
{
    if kids.len() == 0 {
        Seq::empty()
    } else {
        let rest = tagged(kids.drop_last(), tag);
        if kids.last().tag@ == tag {
            rest.push(kids.last())
        } else {
            rest
        }
    }
}

pub open spec fn is_digit(c: char) -> bool {
    '0' <= c && c <= '9'
}

/// The digits of a decimal attribute: an optional leading `+` is dropped.
pub open spec fn decimal_digits(s: Seq<char>) -> Seq<char> {
    if s.len() > 0 && s[0] == '+' {
        s.subrange(1, s.len() as int)
    } else {
        s
    }
}

pub open spec fn digits_value(d: Seq<char>) -> nat
    decreases d.len(),
{
    if d.len() == 0 {
        0
    } else {
        digits_value(d.drop_last()) * 10 + (d.last() as nat - '0' as nat) as nat
    }
}

/// Whether `s` is a decimal number that fits a `usize`.
pub open spec fn decimal_ok(s: Seq<char>) -> bool {
    let d = decimal_digits(s);
    d.len() > 0 && (forall|i: int| 0 <= i < d.len() ==> is_digit(d[i])) && digits_value(d)
        <= usize::MAX
}

pub open spec fn is_hex_digit(c: char) -> bool {
    ('0' <= c && c <= '9') || ('a' <= c && c <= 'f') || ('A' <= c && c <= 'F')
}

pub open spec fn hex_digit_value(c: char) -> int {
    if '0' <= c && c <= '9' {
        c as int - '0' as int
    } else if 'a' <= c && c <= 'f' {
        c as int - 'a' as int + 10
    } else {
        c as int - 'A' as int + 10
    }
}

/// Whether `s` is hex text for exactly `n` bytes.
pub open spec fn hex_fits(s: Seq<char>, n: nat) -> bool {
    s.len() == 2 * n && forall|i: int| 0 <= i < s.len() ==> is_hex_digit(s[i])
}

/// The bytes that hex text stands for, two digits each, high digit first.
pub open spec fn hex_bytes(s: Seq<char>) -> Seq<u8> {
    Seq::new(
        s.len() / 2,
        |i: int| (hex_digit_value(s[2 * i]) * 16 + hex_digit_value(s[2 * i + 1])) as u8,
    )
}

/// The 32-bit pattern of four big-endian bytes, read as a signed integer.
pub open spec fn be_i32(b: Seq<u8>) -> i32 {
    let v = b[0] as int * 16777216 + b[1] as int * 65536 + b[2] as int * 256 + b[3] as int;
    if v < 2147483648 {
        v as i32
    } else {
        (v - 4294967296) as i32
    }
}

/// Relies on `hex::decode_to_slice`: it fills the `N` bytes exactly when the
/// text is `2 * N` hex digits of either case, two digits to a byte.
#[verifier::external_body]
pub(crate) fn hex_array<const N: usize>(s: &str) -> (r: Option<[u8; N]>)
    ensures
        r is Some <==> hex_fits(s@, N as nat),
        r matches Some(a) ==> a@ == hex_bytes(s@),
{
    let mut out = [0u8; N];
    hex::decode_to_slice(s, &mut out).ok().map(|_| out)
}

/// The first thing wrong with a `<rom>` element, checked in the order name,
/// size, crc, md5, sha1, sha256.
pub open spec fn rom_fault(e: XmlElement) -> Option<Fault> {
    let t = e.tag@;
    if attr_of(e, "name"@) is None {
        Some(Fault::MissingAttribute(t, "name"@))
    } else if attr_of(e, "size"@) is None {
        Some(Fault::MissingAttribute(t, "size"@))
    } else if !decimal_ok(attr_of(e, "size"@)->0) {
        Some(Fault::InvalidAttribute(t, "size"@, attr_of(e, "size"@)->0))
    } else if attr_of(e, "crc"@) is None {
        Some(Fault::MissingAttribute(t, "crc"@))
    } else if !hex_fits(attr_of(e, "crc"@)->0, 4) {
        Some(Fault::InvalidAttribute(t, "crc"@, attr_of(e, "crc"@)->0))
    } else if attr_of(e, "md5"@) is None {
        Some(Fault::MissingAttribute(t, "md5"@))
    } else if !hex_fits(attr_of(e, "md5"@)->0, 16) {
        Some(Fault::InvalidAttribute(t, "md5"@, attr_of(e, "md5"@)->0))
    } else if attr_of(e, "sha1"@) is None {
        Some(Fault::MissingAttribute(t, "sha1"@))
    } else if !hex_fits(attr_of(e, "sha1"@)->0, 20) {
        Some(Fault::InvalidAttribute(t, "sha1"@, attr_of(e, "sha1"@)->0))
    } else if attr_of(e, "sha256"@) is Some && !hex_fits(attr_of(e, "sha256"@)->0, 32) {
        Some(Fault::InvalidAttribute(t, "sha256"@, attr_of(e, "sha256"@)->0))
    } else {
        None
    }
}

/// Whether `r` is the ROM that the element `e` describes.
pub open spec fn rom_read(e: XmlElement, r: ROM) -> bool {
    &&& r.name@ == attr_of(e, "name"@)->0
    &&& r.status == match attr_of(e, "status"@) {
        Some(v) => Some(status_named(v)),
        None => None,
    }
    &&& r.size as nat == digits_value(decimal_digits(attr_of(e, "size"@)->0))
    &&& r.crc32 == be_i32(hex_bytes(attr_of(e, "crc"@)->0))
    &&& r.md5@ == hex_bytes(attr_of(e, "md5"@)->0)
    &&& r.sha1@ == hex_bytes(attr_of(e, "sha1"@)->0)
    &&& match attr_of(e, "sha256"@) {
        Some(v) => r.sha256 matches Some(h) && h@ == hex_bytes(v),
        None => r.sha256 is None,
    }
}

/// The first thing wrong with a `<game>` element: its name, then its ROMs in
/// order.
pub open spec fn game_fault(e: XmlElement) -> Option<Fault> {
    if attr_of(e, "name"@) is None {
        Some(Fault::MissingAttribute(e.tag@, "name"@))
    } else {
        roms_fault(tagged(e.children@, "rom"@))
    }
}

/// The fault of the first of these elements that has one.
pub open spec fn roms_fault(roms: Seq<XmlElement>) -> Option<Fault>
    decreases roms.len(),
{
    if roms.len() == 0 {
        None
    } else if roms_fault(roms.drop_last()) is Some {
        roms_fault(roms.drop_last())
    } else {
        rom_fault(roms.last())
    }
}

/// The categories that the `<category>` children of a game name.
pub open spec fn categories_named(e: XmlElement) -> Set<Category> {
    let cs = tagged(e.children@, "category"@);
    Set::new(|c: Category| exists|i: int| 0 <= i < cs.len() && category_named(text_of(cs[i])) == c)
}

/// Whether `rs` are the ROMs that these elements describe, one each.
pub open spec fn roms_read(elems: Seq<XmlElement>, rs: Seq<ROM>) -> bool {
    rs.len() == elems.len() && forall|j: int| 0 <= j < elems.len() ==> rom_read(elems[j], #[trigger] rs[j])
}

/// Whether `g` is the game that the element `e` describes: its ROMs are
/// those of its `<rom>` children in order, the first of each identity kept.
pub open spec fn game_read(e: XmlElement, g: Game) -> bool {
    &&& g.name@ == attr_of(e, "name"@)->0
    &&& category_set(g.categories@) == categories_named(e)
    &&& g.categories@.no_duplicates()
    &&& exists|rs: Seq<ROM>| roms_read(tagged(e.children@, "rom"@), rs) && g.roms@ == deduped(rs)
}

/// The fault of the first game element that has one.
pub open spec fn games_fault(games: Seq<XmlElement>) -> Option<Fault>
    decreases games.len(),
{
    if games.len() == 0 {
        None
    } else if games_fault(games.drop_last()) is Some {
        games_fault(games.drop_last())
    } else {
        game_fault(games.last())
    }
}

/// What is wrong with the document element as a datafile, if anything.
pub open spec fn datafile_fault(root: XmlElement) -> Option<Fault> {
    if root.tag@ != "datafile"@ {
        Some(Fault::MissingElement(Seq::empty(), "datafile"@))
    } else {
        None
    }
}

/// What is missing from the header, checked in the order `<header>`,
/// `<name>`, `<description>`, `<version>`, `<homepage>`.
pub open spec fn header_fault(root: XmlElement) -> Option<Fault> {
    let h = child_of(root, "header"@);
    if datafile_fault(root) is Some {
        datafile_fault(root)
    } else if !has_child(root, "header"@) {
        Some(Fault::MissingElement("datafile"@, "header"@))
    } else if !has_child(h, "name"@) {
        Some(Fault::MissingElement("header"@, "name"@))
    } else if !has_child(h, "description"@) {
        Some(Fault::MissingElement("header"@, "description"@))
    } else if !has_child(h, "version"@) {
        Some(Fault::MissingElement("header"@, "version"@))
    } else if !has_child(h, "homepage"@) {
        Some(Fault::MissingElement("header"@, "homepage"@))
    } else {
        None
    }
}

fn attribute<'a>(e: &'a XmlElement, name: &str) -> (r: Option<&'a String>)
    ensures
        r is None <==> attr_of(*e, name@) is None,
        r matches Some(v) ==> attr_of(*e, name@) == Some(v@),
{
    let mut i: usize = 0;
    while i < e.attributes.len()
        invariant
            i <= e.attributes@.len(),
            attr_index(e.attributes@, name@, i as int) == attr_index(e.attributes@, name@, 0),
        decreases e.attributes@.len() - i,
    {
        if text_is(e.attributes[i].0.as_str(), name) {
            return Some(&e.attributes[i].1);
        }
        i += 1;
    }
    None
}

fn child<'a>(e: &'a XmlElement, tag: &str) -> (r: Option<&'a XmlElement>)
    ensures
        r is None <==> !has_child(*e, tag@),
        r matches Some(c) ==> has_child(*e, tag@) && *c == child_of(*e, tag@),
{
    let mut i: usize = 0;
    while i < e.children.len()
        invariant
            i <= e.children@.len(),
            child_index(e.children@, tag@, i as int) == child_index(e.children@, tag@, 0),
        decreases e.children@.len() - i,
    {
        if text_is(e.children[i].tag.as_str(), tag) {
            return Some(&e.children[i]);
        }
        i += 1;
    }
    None
}

fn text_or_empty(e: &XmlElement) -> (r: String)
    ensures
        r@ == text_of(*e),
{
    match &e.text {
        Some(t) => t.clone(),
        None => String::new(),
    }
}

fn missing_element(parent: &str, tag: &str) -> (r: ParseError)
    ensures
        fault_of(r) == Fault::MissingElement(parent@, tag@),
{
    ParseError::MissingElement { parent: parent.to_string(), tag: tag.to_string() }
}

fn missing_attribute(e: &XmlElement, attribute: &str) -> (r: ParseError)
    ensures
        fault_of(r) == Fault::MissingAttribute(e.tag@, attribute@),
{
    ParseError::MissingAttribute { element: e.tag.clone(), attribute: attribute.to_string() }
}

fn invalid_attribute(e: &XmlElement, attribute: &str, value: &String) -> (r: ParseError)
    ensures
        fault_of(r) == Fault::InvalidAttribute(e.tag@, attribute@, value@),
{
    ParseError::InvalidAttribute {
        element: e.tag.clone(),
        attribute: attribute.to_string(),
        value: value.clone(),
    }
}

/// Reads the header of a datafile from its document element.
pub fn parse_header(root: &XmlElement) -> (r: Result<Header, ParseError>)
    ensures
        r is Ok <==> header_fault(*root) is None,
        r matches Err(e) ==> Some(fault_of(e)) == header_fault(*root),
        r matches Ok(h) ==> {
            let hd = child_of(*root, "header"@);
            &&& h.name@ == text_of(child_of(hd, "name"@))
            &&& h.description@ == text_of(child_of(hd, "description"@))
            &&& h.version@ == text_of(child_of(hd, "version"@))
            &&& h.homepage@ == text_of(child_of(hd, "homepage"@))
        },
{
    proof {
        reveal_strlit("");
        assert(""@ =~= Seq::<char>::empty());
    }
    if !text_is(root.tag.as_str(), "datafile") {
        return Err(missing_element("", "datafile"));
    }
    let header = match child(root, "header") {
        Some(h) => h,
        None => return Err(missing_element("datafile", "header")),
    };
    let name = match child(header, "name") {
        Some(e) => text_or_empty(e),
        None => return Err(missing_element("header", "name")),
    };
    let description = match child(header, "description") {
        Some(e) => text_or_empty(e),
        None => return Err(missing_element("header", "description")),
    };
    let version = match child(header, "version") {
        Some(e) => text_or_empty(e),
        None => return Err(missing_element("header", "version")),
    };
    let homepage = match child(header, "homepage") {
        Some(e) => text_or_empty(e),
        None => return Err(missing_element("header", "homepage")),
    };
    Ok(Header { name, description, version, homepage })
}

/// Reads a decimal number that fits a `usize`.
pub(crate) fn parse_decimal(s: &String) -> (r: Option<usize>)
    ensures
        r is Some <==> decimal_ok(s@),
        r matches Some(v) ==> v as nat == digits_value(decimal_digits(s@)),
{
    let c = chars_of(s.as_str());
    let start: usize = if c.len() > 0 && c[0] == '+' {
        1
    } else {
        0
    };
    let ghost d = decimal_digits(s@);
    assert(d =~= c@.subrange(start as int, c@.len() as int));
    if start == c.len() {
        assert(d.len() == 0);
        return None;
    }
    let mut acc: usize = 0;
    let mut i: usize = start;
    while i < c.len()
        invariant
            start <= i <= c@.len(),
            d == decimal_digits(s@),
            d == c@.subrange(start as int, c@.len() as int),
            forall|k: int| start <= k < i ==> is_digit(c@[k]),
            acc as nat == digits_value(c@.subrange(start as int, i as int)),
        decreases c@.len() - i,
    {
        let ch = c[i];
        if !('0' <= ch && ch <= '9') {
            proof {
                let k = (i - start) as int;
                assert(d[k] == c@[i as int]);
                assert(!is_digit(d[k]));
            }
            return None;
        }
        let ghost pre = c@.subrange(start as int, i as int);
        let ghost post = c@.subrange(start as int, i + 1);
        assert(post.drop_last() =~= pre);
        let dg: usize = (ch as u32 - '0' as u32) as usize;
        assert(digits_value(post) == digits_value(pre) * 10 + dg);
        if acc > (usize::MAX - dg) / 10 {
            proof {
                assert(acc * 10 + dg > usize::MAX) by (nonlinear_arith)
                    requires
                        acc > (usize::MAX - dg) / 10,
                        dg <= 9,
                ;
                let k = (i + 1 - start) as int;
                assert(d.subrange(0, k) =~= post);
                assert forall|j: int| 0 <= j < k implies is_digit(d[j]) by {
                    assert(d[j] == c@[start + j]);
                }
                lemma_digits_grow(d, k);
                assert(digits_value(post) > usize::MAX);
            }
            return None;
        }
        assert(acc * 10 + dg <= usize::MAX) by (nonlinear_arith)
            requires
                acc <= (usize::MAX - dg) / 10,
                dg <= 9,
        ;
        acc = acc * 10 + dg;
        i += 1;
    }
    Some(acc)
}

/// A prefix of digits never has a larger value than the whole.
proof fn lemma_digits_grow(d: Seq<char>, k: int)
    requires
        0 <= k <= d.len(),
        forall|i: int| 0 <= i < k ==> is_digit(d[i]),
    ensures
        (forall|i: int| 0 <= i < d.len() ==> is_digit(d[i])) ==> digits_value(d) >= digits_value(
            d.subrange(0, k),
        ),
    decreases d.len() - k,
{
    if k < d.len() && (forall|i: int| 0 <= i < d.len() ==> is_digit(d[i])) {
        lemma_digits_grow(d, k + 1);
        let pre = d.subrange(0, k);
        let post = d.subrange(0, k + 1);
        assert(post.drop_last() =~= pre);
        assert(digits_value(post) >= digits_value(pre)) by (nonlinear_arith)
            requires
                digits_value(post) == digits_value(pre) * 10 + (post.last() as nat - '0' as nat) as nat,
        ;
    }
    if k == d.len() {
        assert(d.subrange(0, k) =~= d);
    }
}

/// The signed integer of four big-endian bytes.
fn i32_from_be(b: &[u8; 4]) -> (r: i32)
    ensures
        r == be_i32(b@),
{
    let v: u32 = b[0] as u32 * 16777216 + b[1] as u32 * 65536 + b[2] as u32 * 256 + b[3] as u32;
    if v < 2147483648 {
        v as i32
    } else {
        (v - 2147483648) as i32 - 2147483647 - 1
    }
}

/// Reads one `<rom>` element.
pub fn parse_rom(e: &XmlElement) -> (r: Result<ROM, ParseError>)
    ensures
        r is Ok <==> rom_fault(*e) is None,
        r matches Err(err) ==> Some(fault_of(err)) == rom_fault(*e),
        r matches Ok(rom) ==> rom_read(*e, rom),
{
    let name = match attribute(e, "name") {
        Some(v) => v.clone(),
        None => return Err(missing_attribute(e, "name")),
    };
    let status = match attribute(e, "status") {
        Some(v) => Some(Status::from_name(v.as_str())),
        None => None,
    };
    let size = match attribute(e, "size") {
        Some(v) => match parse_decimal(v) {
            Some(n) => n,
            None => return Err(invalid_attribute(e, "size", v)),
        },
        None => return Err(missing_attribute(e, "size")),
    };
    let crc32 = match attribute(e, "crc") {
        Some(v) => match hex_array::<4>(v.as_str()) {
            Some(b) => i32_from_be(&b),
            None => return Err(invalid_attribute(e, "crc", v)),
        },
        None => return Err(missing_attribute(e, "crc")),
    };
    let md5 = match attribute(e, "md5") {
        Some(v) => match hex_array::<16>(v.as_str()) {
            Some(b) => b,
            None => return Err(invalid_attribute(e, "md5", v)),
        },
        None => return Err(missing_attribute(e, "md5")),
    };
    let sha1 = match attribute(e, "sha1") {
        Some(v) => match hex_array::<20>(v.as_str()) {
            Some(b) => b,
            None => return Err(invalid_attribute(e, "sha1", v)),
        },
        None => return Err(missing_attribute(e, "sha1")),
    };
    let sha256 = match attribute(e, "sha256") {
        Some(v) => match hex_array::<32>(v.as_str()) {
            Some(b) => Some(b),
            None => return Err(invalid_attribute(e, "sha256", v)),
        },
        None => None,
    };
    Ok(ROM { name, status, size, crc32, md5, sha1, sha256 })
}

/// Reads one `<game>` element with its categories and ROMs.
pub fn parse_game(e: &XmlElement) -> (r: Result<Game, ParseError>)
    ensures
        r is Ok <==> game_fault(*e) is None,
        r matches Err(err) ==> Some(fault_of(err)) == game_fault(*e),
        r matches Ok(g) ==> game_read(*e, g),
{
    let name = match attribute(e, "name") {
        Some(v) => v.clone(),
        None => return Err(missing_attribute(e, "name")),
    };
    let mut game = Game::new(name);
    let ghost kids = e.children@;
    let ghost mut rs: Seq<ROM> = Seq::empty();
    assert(game.roms@ =~= deduped(rs));
    let mut i: usize = 0;
    while i < e.children.len()
        invariant
            i <= kids.len(),
            kids == e.children@,
            attr_of(*e, "name"@) is Some,
            game.name@ == attr_of(*e, "name"@)->0,
            game.categories@.no_duplicates(),
            category_set(game.categories@) == Set::new(
                |c: Category|
                    exists|k: int|
                        0 <= k < tagged(kids.subrange(0, i as int), "category"@).len()
                            && category_named(
                            text_of(tagged(kids.subrange(0, i as int), "category"@)[k]),
                        ) == c,
            ),
            roms_fault(tagged(kids.subrange(0, i as int), "rom"@)) is None,
            roms_read(tagged(kids.subrange(0, i as int), "rom"@), rs),
            game.roms@ == deduped(rs),
        decreases kids.len() - i,
    {
        let ghost pre = kids.subrange(0, i as int);
        let ghost post = kids.subrange(0, i + 1);
        assert(post.drop_last() =~= pre);
        assert(post.last() == kids[i as int]);
        let c = &e.children[i];
        let ghost cats_pre = tagged(pre, "category"@);
        let ghost roms_pre = tagged(pre, "rom"@);
        if text_is(c.tag.as_str(), "category") {
            let t = text_or_empty(c);
            let cat = Category::from_name(t.as_str());
            let ghost before = category_set(game.categories@);
            game.add_category(cat);
            proof {
                reveal_strlit("category");
                reveal_strlit("rom");
                assert("category"@.len() != "rom"@.len());
                let cats_post = tagged(post, "category"@);
                assert(cats_post == cats_pre.push(*c));
                assert(tagged(post, "rom"@) == roms_pre);
                assert(category_set(game.categories@) =~= Set::new(
                    |x: Category|
                        exists|k: int|
                            0 <= k < cats_post.len() && category_named(text_of(cats_post[k]))
                                == x,
                )) by {
                    assert forall|x: Category| #[trigger] category_set(game.categories@).contains(x) implies exists|k: int|
                        0 <= k < cats_post.len() && category_named(text_of(cats_post[k])) == x by {
                        if x == cat {
                            assert(cats_post[cats_pre.len() as int] == *c);
                        } else {
                            assert(before.contains(x));
                            let k = choose|k: int|
                                0 <= k < cats_pre.len() && category_named(text_of(cats_pre[k])) == x;
                            assert(cats_post[k] == cats_pre[k]);
                        }
                    }
                    assert forall|x: Category| (exists|k: int|
                        0 <= k < cats_post.len() && category_named(text_of(cats_post[k])) == x) implies #[trigger] category_set(game.categories@).contains(x) by {
                        let k = choose|k: int|
                            0 <= k < cats_post.len() && category_named(text_of(cats_post[k])) == x;
                        if k < cats_pre.len() {
                            assert(cats_post[k] == cats_pre[k]);
                            assert(before.contains(x));
                        }
                    }
                }
            }
        } else if text_is(c.tag.as_str(), "rom") {
            let ghost roms_post = tagged(post, "rom"@);
            proof {
                reveal_strlit("category");
                reveal_strlit("rom");
                assert(roms_post == roms_pre.push(*c));
                assert(tagged(post, "category"@) == cats_pre);
                assert(roms_post.drop_last() =~= roms_pre);
            }
            match parse_rom(c) {
                Ok(rom) => {
                    let ghost rs_pre = rs;
                    proof {
                        rs = rs.push(rom);
                        assert(rs.drop_last() =~= rs_pre);
                    }
                    game.add_rom(rom);
                    assert(roms_fault(roms_post) is None);
                    assert forall|j: int| 0 <= j < roms_post.len() implies rom_read(
                        roms_post[j],
                        #[trigger] rs[j],
                    ) by {
                        if j < roms_pre.len() {
                            assert(roms_post[j] == roms_pre[j]);
                            assert(rs[j] == rs_pre[j]);
                        }
                    }
                },
                Err(err) => {
                    proof {
                        assert(roms_fault(roms_post) == rom_fault(*c));
                        lemma_roms_fault_prefix(tagged(kids, "rom"@), kids, i as int + 1);
                    }
                    return Err(err);
                },
            }
        } else {
            proof {
                assert(tagged(post, "rom"@) == roms_pre);
                assert(tagged(post, "category"@) == cats_pre);
            }
        }
        i += 1;
    }
    assert(kids.subrange(0, kids.len() as int) =~= kids);
    assert(roms_read(tagged(e.children@, "rom"@), rs));
    Ok(game)
}

/// The tagged children of a prefix are a prefix of the tagged children.
proof fn lemma_tagged_prefix(kids: Seq<XmlElement>, tag: Seq<char>, i: int)
    requires
        0 <= i <= kids.len(),
    ensures
        tagged(kids.subrange(0, i), tag).len() <= tagged(kids, tag).len(),
        tagged(kids, tag).subrange(0, tagged(kids.subrange(0, i), tag).len() as int) == tagged(
            kids.subrange(0, i),
            tag,
        ),
    decreases kids.len() - i,
{
    if i == kids.len() {
        assert(kids.subrange(0, i) =~= kids);
        assert(tagged(kids, tag).subrange(0, tagged(kids, tag).len() as int) =~= tagged(kids, tag));
    } else {
        lemma_tagged_prefix(kids, tag, i + 1);
        let pre = kids.subrange(0, i);
        let post = kids.subrange(0, i + 1);
        assert(post.drop_last() =~= pre);
        let whole = tagged(kids, tag);
        let tp = tagged(post, tag);
        let tq = tagged(pre, tag);
        if post.last().tag@ == tag {
            assert(tp == tq.push(post.last()));
            assert(whole.subrange(0, tq.len() as int) =~= tp.subrange(0, tq.len() as int));
            assert(tp.subrange(0, tq.len() as int) =~= tq);
        } else {
            assert(tp == tq);
        }
    }
}

/// A fault among the first ROM elements is the fault of all of them.
proof fn lemma_roms_fault_prefix(all: Seq<XmlElement>, kids: Seq<XmlElement>, i: int)
    requires
        0 <= i <= kids.len(),
        all == tagged(kids, "rom"@),
        roms_fault(tagged(kids.subrange(0, i), "rom"@)) is Some,
    ensures
        roms_fault(all) == roms_fault(tagged(kids.subrange(0, i), "rom"@)),
{
    lemma_tagged_prefix(kids, "rom"@, i);
    let p = tagged(kids.subrange(0, i), "rom"@);
    lemma_roms_fault_extend(all, p.len() as int);
}

/// Once a prefix of elements has a fault, every longer prefix has the same.
proof fn lemma_roms_fault_extend(all: Seq<XmlElement>, k: int)
    requires
        0 <= k <= all.len(),
        roms_fault(all.subrange(0, k)) is Some,
    ensures
        roms_fault(all) == roms_fault(all.subrange(0, k)),
    decreases all.len() - k,
{
    if k < all.len() {
        let pre = all.subrange(0, k);
        let post = all.subrange(0, k + 1);
        assert(post.drop_last() =~= pre);
        assert(roms_fault(post) == roms_fault(pre));
        lemma_roms_fault_extend(all, k + 1);
    } else {
        assert(all.subrange(0, k) =~= all);
    }
}

/// Reads every `<game>` element of a datafile, in document order. Fails
/// with the first fault: the document element is not `<datafile>`, or the
/// first game element with a fault.
pub fn parse_games(root: &XmlElement) -> (r: Result<Vec<Game>, ParseError>)
    ensures
        r is Ok <==> datafile_fault(*root) is None && games_fault(
            tagged(root.children@, "game"@),
        ) is None,
        r matches Err(err) ==> Some(fault_of(err)) == if datafile_fault(*root) is Some {
            datafile_fault(*root)
        } else {
            games_fault(tagged(root.children@, "game"@))
        },
        r matches Ok(gs) ==> {
            let games = tagged(root.children@, "game"@);
            &&& gs@.len() == games.len()
            &&& forall|i: int| 0 <= i < games.len() ==> game_read(games[i], #[trigger] gs@[i])
        },
{
    if !text_is(root.tag.as_str(), "datafile") {
        proof {
            reveal_strlit("");
            assert(""@ =~= Seq::<char>::empty());
        }
        return Err(missing_element("", "datafile"));
    }
    let ghost kids = root.children@;
    let mut games: Vec<Game> = Vec::new();
    let mut i: usize = 0;
    while i < root.children.len()
        invariant
            i <= kids.len(),
            kids == root.children@,
            root.tag@ == "datafile"@,
            games_fault(tagged(kids.subrange(0, i as int), "game"@)) is None,
            games@.len() == tagged(kids.subrange(0, i as int), "game"@).len(),
            forall|j: int|
                0 <= j < games@.len() ==> game_read(
                    tagged(kids.subrange(0, i as int), "game"@)[j],
                    #[trigger] games@[j],
                ),
        decreases kids.len() - i,
    {
        let ghost pre = kids.subrange(0, i as int);
        let ghost post = kids.subrange(0, i + 1);
        assert(post.drop_last() =~= pre);
        assert(post.last() == kids[i as int]);
        let c = &root.children[i];
        if text_is(c.tag.as_str(), "game") {
            let ghost gs_pre = tagged(pre, "game"@);
            let ghost gs_post = tagged(post, "game"@);
            assert(gs_post == gs_pre.push(*c));
            assert(gs_post.drop_last() =~= gs_pre);
            match parse_game(c) {
                Ok(g) => {
                    games.push(g);
                    assert forall|j: int| 0 <= j < games@.len() implies game_read(
                        gs_post[j],
                        #[trigger] games@[j],
                    ) by {
                        if j < gs_pre.len() {
                            assert(gs_post[j] == gs_pre[j]);
                        }
                    }
                },
                Err(err) => {
                    proof {
                        assert(games_fault(gs_post) == game_fault(*c));
                        lemma_games_fault_prefix(tagged(kids, "game"@), kids, i as int + 1);
                    }
                    return Err(err);
                },
            }
        } else {
            assert(tagged(post, "game"@) == tagged(pre, "game"@));
        }
        i += 1;
    }
    assert(kids.subrange(0, kids.len() as int) =~= kids);
    Ok(games)
}

proof fn lemma_games_fault_prefix(all: Seq<XmlElement>, kids: Seq<XmlElement>, i: int)
    requires
        0 <= i <= kids.len(),
        all == tagged(kids, "game"@),
        games_fault(tagged(kids.subrange(0, i), "game"@)) is Some,
    ensures
        games_fault(all) == games_fault(tagged(kids.subrange(0, i), "game"@)),
{
    lemma_tagged_prefix(kids, "game"@, i);
    let p = tagged(kids.subrange(0, i), "game"@);
    lemma_games_fault_extend(all, p.len() as int);
}

proof fn lemma_games_fault_extend(all: Seq<XmlElement>, k: int)
    requires
        0 <= k <= all.len(),
        games_fault(all.subrange(0, k)) is Some,
    ensures
        games_fault(all) == games_fault(all.subrange(0, k)),
    decreases all.len() - k,
{
    if k < all.len() {
        let pre = all.subrange(0, k);
        let post = all.subrange(0, k + 1);
        assert(post.drop_last() =~= pre);
        assert(games_fault(post) == games_fault(pre));
        lemma_games_fault_extend(all, k + 1);
    } else {
        assert(all.subrange(0, k) =~= all);
    }
}

} // verus!
