//! Compression of ROM file names against the name of the game that owns them.
//!
//! The game name inside a ROM name is redundant: it is stored as `#`, and the
//! common shapes `<game>.cue`, `<game>.iso`, `<game>.bin` and
//! `<game> (Track N).bin` shrink to two-character codes.
use vstd::prelude::*;

use crate::text::{
    append_chars, chars_eq, chars_of, ends_with, matches_at, replace_all, replace_chars,
    slice_chars, starts_with, string_of,
};

verus! {

pub open spec fn mark() -> Seq<char> {
    seq!['#']
}

pub open spec fn track_head() -> Seq<char> {
    seq!['#', ' ', '(', 'T', 'r', 'a', 'c', 'k', ' ']
}

pub open spec fn track_tail() -> Seq<char> {
    seq![')', '.', 'b', 'i', 'n']
}

pub open spec fn ext_cue() -> Seq<char> {
    seq!['.', 'c', 'u', 'e']
}

pub open spec fn ext_iso() -> Seq<char> {
    seq!['.', 'i', 's', 'o']
}

pub open spec fn ext_bin() -> Seq<char> {
    seq!['.', 'b', 'i', 'n']
}

pub open spec fn code_cue() -> Seq<char> {
    seq!['$', 'c']
}

pub open spec fn code_iso() -> Seq<char> {
    seq!['$', 'i']
}

pub open spec fn code_bin() -> Seq<char> {
    seq!['$', 'b']
}

pub open spec fn code_track() -> Seq<char> {
    seq!['$', 'T']
}

/// Whether a ROM name with the game name already marked has the shape
/// `# (Track <label>).bin`.
pub open spec fn is_track_shape(s: Seq<char>) -> bool {
    s.len() >= 14 && starts_with(s, track_head()) && ends_with(s, track_tail())
}

/// The `<label>` of a name of the shape `# (Track <label>).bin`.
pub open spec fn track_label(s: Seq<char>) -> Seq<char> {
    s.subrange(9, s.len() - 5)
}

/// The stored form of `rom_name` within the game `game_name`.
pub open spec fn compressed(rom_name: Seq<char>, game_name: Seq<char>) -> Seq<char> {
    let s = replace_all(rom_name, game_name, mark());
    if is_track_shape(s) {
        code_track() + track_label(s)
    } else if s == mark() + ext_cue() {
        code_cue()
    } else if s == mark() + ext_iso() {
        code_iso()
    } else if s == mark() + ext_bin() {
        code_bin()
    } else {
        s
    }
}

/// The ROM name that the stored form `stored` stands for within `game_name`.
pub open spec fn decompressed(stored: Seq<char>, game_name: Seq<char>) -> Seq<char> {
    if stored == code_cue() {
        game_name + ext_cue()
    } else if stored == code_iso() {
        game_name + ext_iso()
    } else if stored == code_bin() {
        game_name + ext_bin()
    } else if starts_with(stored, code_track()) {
        game_name + track_head().subrange(1, 9) + stored.subrange(2, stored.len() as int)
            + track_tail()
    } else {
        replace_all(stored, mark(), game_name)
    }
}

/// Expands a stored ROM name back into the full name within its game.
pub fn decompress_rom_name(rom_name: &str, game_name: &str) -> (r: String)
    ensures
        r@ == decompressed(rom_name@, game_name@),
{
    let c = chars_of(rom_name);
    let g = chars_of(game_name);
    let cue = vec!['$', 'c'];
    let iso = vec!['$', 'i'];
    let bin = vec!['$', 'b'];
    let track = vec!['$', 'T'];
    assert(cue@ =~= code_cue() && iso@ =~= code_iso() && bin@ =~= code_bin());
    assert(track@ =~= code_track());
    let mut out: Vec<char> = Vec::new();
    if chars_eq(&c, &cue) {
        append_chars(&mut out, &g);
        let e = vec!['.', 'c', 'u', 'e'];
        assert(e@ =~= ext_cue());
        append_chars(&mut out, &e);
    } else if chars_eq(&c, &iso) {
        append_chars(&mut out, &g);
        let e = vec!['.', 'i', 's', 'o'];
        assert(e@ =~= ext_iso());
        append_chars(&mut out, &e);
    } else if chars_eq(&c, &bin) {
        append_chars(&mut out, &g);
        let e = vec!['.', 'b', 'i', 'n'];
        assert(e@ =~= ext_bin());
        append_chars(&mut out, &e);
    } else if matches_at(&c, 0, &track) {
        append_chars(&mut out, &g);
        let head = vec![' ', '(', 'T', 'r', 'a', 'c', 'k', ' '];
        assert(head@ =~= track_head().subrange(1, 9));
        append_chars(&mut out, &head);
        let label = slice_chars(&c, 2, c.len());
        append_chars(&mut out, &label);
        let tail = vec![')', '.', 'b', 'i', 'n'];
        assert(tail@ =~= track_tail());
        append_chars(&mut out, &tail);
    } else {
        let m = vec!['#'];
        assert(m@ =~= mark());
        out = replace_chars(&c, &m, &g);
    }
    string_of(&out)
}

/// Shrinks a ROM name for storage within the game `game_name`.
pub fn compress_rom_name(rom_name: &str, game_name: &str) -> (r: String)
    ensures
        r@ == compressed(rom_name@, game_name@),
{
    let rv = chars_of(rom_name);
    let g = chars_of(game_name);
    let m = vec!['#'];
    assert(m@ =~= mark());
    let s = replace_chars(&rv, &g, &m);
    let n = s.len();
    let head = vec!['#', ' ', '(', 'T', 'r', 'a', 'c', 'k', ' '];
    let tail = vec![')', '.', 'b', 'i', 'n'];
    let cue = vec!['#', '.', 'c', 'u', 'e'];
    let iso = vec!['#', '.', 'i', 's', 'o'];
    let bin = vec!['#', '.', 'b', 'i', 'n'];
    assert(head@ =~= track_head() && tail@ =~= track_tail());
    assert(cue@ =~= mark() + ext_cue() && iso@ =~= mark() + ext_iso());
    assert(bin@ =~= mark() + ext_bin());
    let out: Vec<char>;
    if n >= 14 && matches_at(&s, 0, &head) && matches_at(&s, n - 5, &tail) {
        let mut o: Vec<char> = vec!['$', 'T'];
        assert(o@ =~= code_track());
        let label = slice_chars(&s, 9, n - 5);
        append_chars(&mut o, &label);
        out = o;
    } else if chars_eq(&s, &cue) {
        out = vec!['$', 'c'];
        assert(out@ =~= code_cue());
    } else if chars_eq(&s, &iso) {
        out = vec!['$', 'i'];
        assert(out@ =~= code_iso());
    } else if chars_eq(&s, &bin) {
        out = vec!['$', 'b'];
        assert(out@ =~= code_bin());
    } else {
        out = s;
    }
    string_of(&out)
}

/// A lone `#` expands to the game name.
proof fn lemma_expand_mark(g: Seq<char>)
    ensures
        replace_all(mark(), mark(), g) == g,
{
    let e = Seq::<char>::empty();
    assert(replace_all(e, mark(), g) == e);
    assert(mark().subrange(0, 1) =~= mark());
    assert(mark().subrange(1, 1) =~= e);
    assert(replace_all(mark(), mark(), g) == g + replace_all(e, mark(), g));
    assert(g + e =~= g);
}

/// Without a `#` in the text, replacing `#` changes nothing.
proof fn lemma_no_mark_unchanged(x: Seq<char>, g: Seq<char>)
    requires
        !x.contains('#'),
    ensures
        replace_all(x, mark(), g) == x,
    decreases x.len(),
{
    if x.len() >= 1 {
        assert(x.subrange(0, 1) != mark()) by {
            if x.subrange(0, 1) == mark() {
                assert(x[0] == x.subrange(0, 1)[0]);
            }
        }
        let tail = x.subrange(1, x.len() as int);
        assert forall|c: char| tail.contains(c) implies x.contains(c) by {
            let k = choose|k: int| 0 <= k < tail.len() && tail[k] == c;
            assert(x[k + 1] == c);
        }
        lemma_no_mark_unchanged(tail, g);
        assert(seq![x[0]] + tail =~= x);
    }
}

/// Replacing the one-character `#` distributes over concatenation.
proof fn lemma_mark_concat(a: Seq<char>, b: Seq<char>, g: Seq<char>)
    ensures
        replace_all(a + b, mark(), g) == replace_all(a, mark(), g) + replace_all(b, mark(), g),
    decreases a.len(),
{
    if a.len() == 0 {
        assert(a + b =~= b);
        assert(replace_all(a, mark(), g) =~= Seq::<char>::empty());
        assert(Seq::<char>::empty() + replace_all(b, mark(), g) =~= replace_all(b, mark(), g));
    } else {
        let ab = a + b;
        let at = a.subrange(1, a.len() as int);
        assert(ab.subrange(1, ab.len() as int) =~= at + b);
        assert(ab.subrange(0, 1) =~= a.subrange(0, 1));
        lemma_mark_concat(at, b, g);
        if a.subrange(0, 1) == mark() {
            assert(replace_all(ab, mark(), g) == g + replace_all(at + b, mark(), g));
            assert(replace_all(a, mark(), g) == g + replace_all(at, mark(), g));
            assert(replace_all(ab, mark(), g) =~= replace_all(a, mark(), g) + replace_all(
                b,
                mark(),
                g,
            ));
        } else {
            assert(ab[0] == a[0]);
            assert(replace_all(ab, mark(), g) == seq![a[0]] + replace_all(at + b, mark(), g));
            assert(replace_all(a, mark(), g) == seq![a[0]] + replace_all(at, mark(), g));
            assert(replace_all(ab, mark(), g) =~= replace_all(a, mark(), g) + replace_all(
                b,
                mark(),
                g,
            ));
        }
    }
}

/// Marking the game name and expanding the marks again gives back a name
/// that held no `#`.
proof fn lemma_mark_inverse(r: Seq<char>, g: Seq<char>)
    requires
        !r.contains('#'),
    ensures
        replace_all(replace_all(r, g, mark()), mark(), g) == r,
    decreases r.len(),
{
    if g.len() == 0 {
        if r.len() == 0 {
            lemma_expand_mark(g);
        } else {
            let rest = r.subrange(1, r.len() as int);
            assert forall|c: char| rest.contains(c) implies r.contains(c) by {
                let k = choose|k: int| 0 <= k < rest.len() && rest[k] == c;
                assert(r[k + 1] == c);
            }
            lemma_mark_inverse(rest, g);
            let inner = replace_all(rest, g, mark());
            assert(replace_all(r, g, mark()) == mark() + seq![r[0]] + inner);
            lemma_mark_concat(mark() + seq![r[0]], inner, g);
            lemma_mark_concat(mark(), seq![r[0]], g);
            lemma_expand_mark(g);
            assert(r.contains(r[0]));
            lemma_no_mark_unchanged(seq![r[0]], g);
            assert(g + seq![r[0]] + rest =~= r);
        }
    } else if r.len() < g.len() {
        lemma_no_mark_unchanged(r, g);
    } else {
        let m = g.len() as int;
        if r.subrange(0, m) == g {
            let rest = r.subrange(m, r.len() as int);
            assert forall|c: char| rest.contains(c) implies r.contains(c) by {
                let k = choose|k: int| 0 <= k < rest.len() && rest[k] == c;
                assert(r[k + m] == c);
            }
            lemma_mark_inverse(rest, g);
            lemma_mark_concat(mark(), replace_all(rest, g, mark()), g);
            lemma_expand_mark(g);
            assert(g + rest =~= r);
        } else {
            let rest = r.subrange(1, r.len() as int);
            assert forall|c: char| rest.contains(c) implies r.contains(c) by {
                let k = choose|k: int| 0 <= k < rest.len() && rest[k] == c;
                assert(r[k + 1] == c);
            }
            lemma_mark_inverse(rest, g);
            lemma_mark_concat(seq![r[0]], replace_all(rest, g, mark()), g);
            assert(r.contains(r[0]));
            lemma_no_mark_unchanged(seq![r[0]], g);
            assert(seq![r[0]] + rest =~= r);
        }
    }
}

/// Whether the `(Track <label>)` part of a track-shaped ROM name mentions
/// the game name, which the stored form cannot tell from a literal `#`.
pub open spec fn track_label_names_game(rom_name: Seq<char>, game_name: Seq<char>) -> bool {
    let s = replace_all(rom_name, game_name, mark());
    is_track_shape(s) && track_label(s).contains('#')
}

/// The round trip for a name whose marked form has the track shape.
proof fn lemma_round_trip_track(rom_name: Seq<char>, game_name: Seq<char>)
    requires
        !rom_name.contains('#'),
        is_track_shape(replace_all(rom_name, game_name, mark())),
        !track_label_names_game(rom_name, game_name),
    ensures
        decompressed(compressed(rom_name, game_name), game_name) == rom_name,
{
    let s = replace_all(rom_name, game_name, mark());
    lemma_mark_inverse(rom_name, game_name);
    let label = track_label(s);
    let head = track_head();
    let tail = track_tail();
    let mid = head.subrange(1, 9);
    assert(s =~= head + label + tail);
    lemma_mark_concat(head + label, tail, game_name);
    lemma_mark_concat(head, label, game_name);
    lemma_no_mark_unchanged(label, game_name);
    assert(!tail.contains('#')) by {
        if tail.contains('#') {
            let k = choose|k: int| 0 <= k < tail.len() && tail[k] == '#';
        }
    }
    lemma_no_mark_unchanged(tail, game_name);
    assert(head =~= mark() + mid);
    lemma_mark_concat(mark(), mid, game_name);
    assert(!mid.contains('#')) by {
        if mid.contains('#') {
            let k = choose|k: int| 0 <= k < mid.len() && mid[k] == '#';
        }
    }
    lemma_no_mark_unchanged(mid, game_name);
    lemma_expand_mark(game_name);
    let c = code_track() + label;
    assert(compressed(rom_name, game_name) == c);
    assert(c.subrange(0, 2) =~= code_track());
    assert(c.subrange(2, c.len() as int) =~= label);
    assert(c != code_cue() && c != code_iso() && c != code_bin()) by {
        if c.len() == 2 {
            assert(c[1] == 'T');
            assert(code_cue()[1] == 'c');
        }
    }
    assert(rom_name =~= game_name + mid + label + tail);
}

/// The round trip for a name whose marked form is `#.cue`, `#.iso` or
/// `#.bin`.
proof fn lemma_round_trip_ext(rom_name: Seq<char>, game_name: Seq<char>, e: Seq<char>)
    requires
        !rom_name.contains('#'),
        e == ext_cue() || e == ext_iso() || e == ext_bin(),
        replace_all(rom_name, game_name, mark()) == mark() + e,
    ensures
        decompressed(compressed(rom_name, game_name), game_name) == rom_name,
{
    let s = replace_all(rom_name, game_name, mark());
    lemma_mark_inverse(rom_name, game_name);
    assert(!is_track_shape(s));
    lemma_mark_concat(mark(), e, game_name);
    assert(!e.contains('#')) by {
        if e.contains('#') {
            let k = choose|k: int| 0 <= k < e.len() && e[k] == '#';
        }
    }
    lemma_no_mark_unchanged(e, game_name);
    lemma_expand_mark(game_name);
    assert(ext_cue() != ext_iso() && ext_cue() != ext_bin() && ext_iso() != ext_bin()) by {
        assert(ext_cue()[1] != ext_iso()[1]);
        assert(ext_cue()[1] != ext_bin()[1]);
        assert(ext_iso()[1] != ext_bin()[1]);
    }
    assert(code_cue() != code_iso() && code_cue() != code_bin() && code_iso() != code_bin())
        by {
        assert(code_cue()[1] != code_iso()[1]);
        assert(code_cue()[1] != code_bin()[1]);
        assert(code_iso()[1] != code_bin()[1]);
    }
    assert((mark() + ext_cue())[2] == 'c');
    assert((mark() + ext_iso())[2] == 'i');
    assert((mark() + ext_bin())[2] == 'b');
    assert(replace_all(s, mark(), game_name) == game_name + e);
    if e == ext_cue() {
        assert(compressed(rom_name, game_name) == code_cue());
    } else if e == ext_iso() {
        assert(compressed(rom_name, game_name) == code_iso());
    } else {
        assert(compressed(rom_name, game_name) == code_bin());
    }
}

/// Whether a marked name reads like one of the two-character codes or a
/// `$T` track code, which expansion would take for a code.
pub open spec fn looks_like_code(s: Seq<char>) -> bool {
    s == code_cue() || s == code_iso() || s == code_bin() || starts_with(s, code_track())
}

/// The round trip for a name whose marked form is stored as it is.
proof fn lemma_round_trip_plain(rom_name: Seq<char>, game_name: Seq<char>)
    requires
        !rom_name.contains('#'),
        !looks_like_code(replace_all(rom_name, game_name, mark())),
        compressed(rom_name, game_name) == replace_all(rom_name, game_name, mark()),
    ensures
        decompressed(compressed(rom_name, game_name), game_name) == rom_name,
{
    lemma_mark_inverse(rom_name, game_name);
}

/// Storing a ROM name and expanding it again gives back the name, for every
/// name that holds no `#`, that does not, once the game name is marked, read
/// like a stored code (`$c`, `$i`, `$b`, `$T...`), and whose track label (if it
/// has the track shape) does not mention the game name.
pub proof fn lemma_rom_name_round_trip(rom_name: Seq<char>, game_name: Seq<char>)
    requires
        !rom_name.contains('#'),
        !looks_like_code(replace_all(rom_name, game_name, mark())),
        !track_label_names_game(rom_name, game_name),
    ensures
        decompressed(compressed(rom_name, game_name), game_name) == rom_name,
{
    let s = replace_all(rom_name, game_name, mark());
    if is_track_shape(s) {
        lemma_round_trip_track(rom_name, game_name);
    } else if s == mark() + ext_cue() {
        lemma_round_trip_ext(rom_name, game_name, ext_cue());
    } else if s == mark() + ext_iso() {
        lemma_round_trip_ext(rom_name, game_name, ext_iso());
    } else if s == mark() + ext_bin() {
        lemma_round_trip_ext(rom_name, game_name, ext_bin());
    } else {
        lemma_round_trip_plain(rom_name, game_name);
    }
}

} // verus!
