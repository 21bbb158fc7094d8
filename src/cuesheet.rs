//! Cuesheet fingerprints: a title-independent canonical form of a `.cue`
//! file, and the track files that a cuesheet names.
use vstd::prelude::*;

use crate::text::{
    append_chars, chars_eq, chars_of, matches_at, replace_all, replace_chars, slice_chars, string_of,
};

verus! {

/// Unicode's `White_Space` characters, which trimming removes.
pub open spec fn is_white(c: char) -> bool {
    ('\u{9}' <= c && c <= '\u{d}') || c == ' ' || c == '\u{85}' || c == '\u{a0}' || c
        == '\u{1680}' || ('\u{2000}' <= c && c <= '\u{200a}') || c == '\u{2028}' || c
        == '\u{2029}' || c == '\u{202f}' || c == '\u{205f}' || c == '\u{3000}'
}

fn white(c: char) -> (r: bool)
    ensures
        r == is_white(c),
{
    ('\u{9}' <= c && c <= '\u{d}') || c == ' ' || c == '\u{85}' || c == '\u{a0}' || c
        == '\u{1680}' || ('\u{2000}' <= c && c <= '\u{200a}') || c == '\u{2028}' || c
        == '\u{2029}' || c == '\u{202f}' || c == '\u{205f}' || c == '\u{3000}'
}

/// The first position at or after `i` that holds no white space.
pub open spec fn lead_end(s: Seq<char>, i: int) -> int
    decreases s.len() - i,
{
    if i >= s.len() || !is_white(s[i]) {
        i
    } else {
        lead_end(s, i + 1)
    }
}

/// The end of `s` up to `j` once trailing white space is cut, not going
/// below `floor`.
pub open spec fn trail_start(s: Seq<char>, floor: int, j: int) -> int
    decreases j - floor,
{
    if j <= floor || !is_white(s[j - 1]) {
        j
    } else {
        trail_start(s, floor, j - 1)
    }
}

/// `s` without leading and trailing white space.
pub open spec fn trimmed(s: Seq<char>) -> Seq<char> {
    let a = lead_end(s, 0);
    s.subrange(a, trail_start(s, a, s.len() as int))
}

proof fn lemma_lead_end(s: Seq<char>, i: int)
    requires
        0 <= i <= s.len(),
    ensures
        i <= lead_end(s, i) <= s.len(),
    decreases s.len() - i,
{
    if i < s.len() && is_white(s[i]) {
        lemma_lead_end(s, i + 1);
    }
}

proof fn lemma_trail_start(s: Seq<char>, floor: int, j: int)
    requires
        0 <= floor <= j <= s.len(),
    ensures
        floor <= trail_start(s, floor, j) <= j,
    decreases j - floor,
{
    if j > floor && is_white(s[j - 1]) {
        lemma_trail_start(s, floor, j - 1);
    }
}

pub(crate) fn trim_chars(s: &Vec<char>) -> (r: Vec<char>)
    ensures
        r@ == trimmed(s@),
{
    let n = s.len();
    let mut a: usize = 0;
    proof {
        lemma_lead_end(s@, 0);
    }
    while a < n && white(s[a])
        invariant
            a <= n,
            n == s@.len(),
            lead_end(s@, a as int) == lead_end(s@, 0),
        decreases n - a,
    {
        a += 1;
    }
    let mut b: usize = n;
    proof {
        lemma_trail_start(s@, a as int, n as int);
    }
    while b > a && white(s[b - 1])
        invariant
            a <= b <= n,
            n == s@.len(),
            lead_end(s@, 0) == a,
            trail_start(s@, a as int, b as int) == trail_start(s@, a as int, n as int),
        decreases b - a,
    {
        b -= 1;
    }
    slice_chars(s, a, b)
}

/// The first position at or after `p` that holds `c`, or the length.
pub open spec fn index_from(s: Seq<char>, p: int, c: char) -> int
    decreases s.len() - p,
{
    if p >= s.len() || s[p] == c {
        p
    } else {
        index_from(s, p + 1, c)
    }
}

/// The position just after the last `c` before `j`, or 0.
pub open spec fn after_last(s: Seq<char>, j: int, c: char) -> int
    decreases j,
{
    if j <= 0 {
        0
    } else if s[j - 1] == c {
        j
    } else {
        after_last(s, j - 1, c)
    }
}

/// The pieces of `s` between the characters `c`; text without a `c` is one
/// piece, and a final `c` ends in an empty piece.
pub open spec fn split_on(s: Seq<char>, c: char) -> Seq<Seq<char>>
    decreases s.len(),
{
    if s.len() == 0 {
        seq![Seq::empty()]
    } else {
        let r = split_on(s.drop_last(), c);
        if s.last() == c {
            r.push(Seq::empty())
        } else {
            r.update(r.len() - 1, r.last().push(s.last()))
        }
    }
}

/// The lines of `s`, split at every `\n`.
pub open spec fn split_lines(s: Seq<char>) -> Seq<Seq<char>> {
    split_on(s, '\n')
}

proof fn lemma_split_nonempty(s: Seq<char>, c: char)
    ensures
        split_on(s, c).len() >= 1,
    decreases s.len(),
{
    if s.len() > 0 {
        lemma_split_nonempty(s.drop_last(), c);
    }
}

/// The pieces of `s` between the characters `c`, as `split_on` states.
pub(crate) fn split_chars(s: &Vec<char>, c: char) -> (r: Vec<Vec<char>>)
    ensures
        r@.map_values(|v: Vec<char>| v@) == split_on(s@, c),
{
    let n = s.len();
    let mut pieces: Vec<Vec<char>> = Vec::new();
    let mut cur: Vec<char> = Vec::new();
    let mut i: usize = 0;
    while i < n
        invariant
            i <= n,
            n == s@.len(),
            pieces@.map_values(|v: Vec<char>| v@).push(cur@) == split_on(
                s@.subrange(0, i as int),
                c,
            ),
        decreases n - i,
    {
        let ghost pre = s@.subrange(0, i as int);
        let ghost post = s@.subrange(0, i + 1);
        assert(post.drop_last() =~= pre);
        proof {
            lemma_split_nonempty(pre, c);
        }
        if s[i] == c {
            pieces.push(cur);
            cur = Vec::new();
            assert(pieces@.map_values(|v: Vec<char>| v@).push(cur@) =~= split_on(pre, c).push(
                Seq::empty(),
            ));
        } else {
            let ghost old_cur = cur@;
            cur.push(s[i]);
            assert(pieces@.map_values(|v: Vec<char>| v@).push(cur@) =~= split_on(pre, c).update(
                split_on(pre, c).len() - 1,
                old_cur.push(s@[i as int]),
            ));
        }
        i += 1;
    }
    pieces.push(cur);
    assert(s@.subrange(0, n as int) =~= s@);
    pieces
}

/// The first space-delimited word of a line.
pub open spec fn first_word(line: Seq<char>) -> Seq<char> {
    line.subrange(0, index_from(line, 0, ' '))
}

/// Whether a trimmed cuesheet line is a command that the canonical form keeps.
pub open spec fn kept_command(line: Seq<char>) -> bool {
    let w = first_word(line);
    w == seq!['F', 'I', 'L', 'E'] || w == seq!['T', 'R', 'A', 'C', 'K'] || w == seq![
        'P',
        'R',
        'E',
        'G',
        'A',
        'P',
    ] || w == seq!['I', 'N', 'D', 'E', 'X'] || w == seq!['P', 'O', 'S', 'T', 'G', 'A', 'P']
}

/// The trimmed lines that the canonical form keeps, in order.
pub open spec fn kept_lines(lines: Seq<Seq<char>>) -> Seq<Seq<char>>
    decreases lines.len(),
{
    if lines.len() == 0 {
        Seq::empty()
    } else {
        let rest = kept_lines(lines.drop_last());
        let t = trimmed(lines.last());
        if kept_command(t) {
            rest.push(t)
        } else {
            rest
        }
    }
}

/// The lines joined with `\n` between them.
pub open spec fn join_lines(lines: Seq<Seq<char>>) -> Seq<char>
    decreases lines.len(),
{
    if lines.len() == 0 {
        Seq::empty()
    } else if lines.len() == 1 {
        lines[0]
    } else {
        join_lines(lines.drop_last()) + seq!['\n'] + lines.last()
    }
}

/// The canonical form of a cuesheet: its trimmed `FILE`, `TRACK`, `PREGAP`,
/// `INDEX` and `POSTGAP` lines joined with `\n`, with every occurrence of
/// the file's stem replaced by `$`.
pub open spec fn neutralized(content: Seq<char>, stem: Seq<char>) -> Seq<char> {
    replace_all(join_lines(kept_lines(split_lines(content))), stem, seq!['$'])
}

/// The end of `path` up to `j` once trailing `/` are dropped.
pub open spec fn name_end(path: Seq<char>, j: int) -> int
    decreases j,
{
    if j > 0 && path[j - 1] == '/' {
        name_end(path, j - 1)
    } else {
        j
    }
}

/// The last component of a path: the part after its last `/`, trailing
/// `/` left aside.
pub open spec fn base_name(path: Seq<char>) -> Seq<char> {
    let e = name_end(path, path.len() as int);
    path.subrange(after_last(path, e, '/'), e)
}

proof fn lemma_name_end(path: Seq<char>, j: int)
    requires
        0 <= j <= path.len(),
    ensures
        0 <= name_end(path, j) <= j,
    decreases j,
{
    if j > 0 && path[j - 1] == '/' {
        lemma_name_end(path, j - 1);
    }
}

/// The last component of a path, as `base_name` states.
pub(crate) fn base_name_chars(p: &Vec<char>) -> (r: Vec<char>)
    ensures
        r@ == base_name(p@),
{
    let mut e: usize = p.len();
    proof {
        lemma_name_end(p@, e as int);
    }
    while e > 0 && p[e - 1] == '/'
        invariant
            e <= p@.len(),
            name_end(p@, e as int) == name_end(p@, p@.len() as int),
        decreases e,
    {
        e -= 1;
    }
    slice_chars(p, last_after(p, e, '/'), e)
}

/// A file name without its extension: the part before its last `.`, unless
/// that `.` opens the name.
pub open spec fn stem_of_name(name: Seq<char>) -> Seq<char> {
    let d = after_last(name, name.len() as int, '.');
    if d > 1 {
        name.subrange(0, d - 1)
    } else {
        name
    }
}

/// The stem of the file a path names.
pub open spec fn file_stem(path: Seq<char>) -> Seq<char> {
    stem_of_name(base_name(path))
}

pub(crate) proof fn lemma_index_from(s: Seq<char>, p: int, c: char)
    requires
        0 <= p <= s.len(),
    ensures
        p <= index_from(s, p, c) <= s.len(),
    decreases s.len() - p,
{
    if p < s.len() && s[p] != c {
        lemma_index_from(s, p + 1, c);
    }
}

proof fn lemma_after_last(s: Seq<char>, j: int, c: char)
    requires
        0 <= j <= s.len(),
    ensures
        0 <= after_last(s, j, c) <= j,
    decreases j,
{
    if j > 0 && s[j - 1] != c {
        lemma_after_last(s, j - 1, c);
    }
}

/// The position of the first `c` at or after `from`, or the length.
pub(crate) fn find_from(s: &Vec<char>, from: usize, c: char) -> (r: usize)
    requires
        from <= s@.len(),
    ensures
        r == index_from(s@, from as int, c),
        from <= r <= s@.len(),
{
    proof {
        lemma_index_from(s@, from as int, c);
    }
    let mut i = from;
    while i < s.len() && s[i] != c
        invariant
            from <= i <= s@.len(),
            index_from(s@, i as int, c) == index_from(s@, from as int, c),
        decreases s@.len() - i,
    {
        i += 1;
    }
    i
}

fn first_word_chars(line: &Vec<char>) -> (r: Vec<char>)
    ensures
        r@ == first_word(line@),
{
    let e = find_from(line, 0, ' ');
    slice_chars(line, 0, e)
}

fn is_kept_command(line: &Vec<char>) -> (r: bool)
    ensures
        r == kept_command(line@),
{
    let w = first_word_chars(line);
    let file = vec!['F', 'I', 'L', 'E'];
    let track = vec!['T', 'R', 'A', 'C', 'K'];
    let pregap = vec!['P', 'R', 'E', 'G', 'A', 'P'];
    let index = vec!['I', 'N', 'D', 'E', 'X'];
    let postgap = vec!['P', 'O', 'S', 'T', 'G', 'A', 'P'];
    assert(file@ =~= seq!['F', 'I', 'L', 'E']);
    assert(track@ =~= seq!['T', 'R', 'A', 'C', 'K']);
    assert(pregap@ =~= seq!['P', 'R', 'E', 'G', 'A', 'P']);
    assert(index@ =~= seq!['I', 'N', 'D', 'E', 'X']);
    assert(postgap@ =~= seq!['P', 'O', 'S', 'T', 'G', 'A', 'P']);
    chars_eq(&w, &file) || chars_eq(&w, &track) || chars_eq(&w, &pregap) || chars_eq(&w, &index)
        || chars_eq(&w, &postgap)
}

/// The canonical form that cuesheets of one disc share whatever their title:
/// see `neutralized`, with the stem taken from `path` as `file_stem` states.
pub fn neutralize(content: &str, path: &str) -> (r: String)
    ensures
        r@ == neutralized(content@, file_stem(path@)),
{
    let s = chars_of(content);
    let lines = split_chars(&s, '\n');
    let ghost all = lines@.map_values(|v: Vec<char>| v@);
    assert(all == split_lines(s@));
    let mut kept: Vec<Vec<char>> = Vec::new();
    let mut k: usize = 0;
    while k < lines.len()
        invariant
            k <= lines@.len(),
            all == lines@.map_values(|v: Vec<char>| v@),
            kept@.map_values(|v: Vec<char>| v@) == kept_lines(all.subrange(0, k as int)),
        decreases lines@.len() - k,
    {
        let ghost pre = all.subrange(0, k as int);
        let ghost post = all.subrange(0, k + 1);
        assert(post.drop_last() =~= pre);
        let ghost before = kept@.map_values(|v: Vec<char>| v@);
        let t = trim_chars(&lines[k]);
        if is_kept_command(&t) {
            kept.push(t);
            assert(kept@.map_values(|v: Vec<char>| v@) =~= before.push(trimmed(all[k as int])));
        }
        k += 1;
    }
    assert(all.subrange(0, lines@.len() as int) =~= all);
    let ghost ls = kept@.map_values(|v: Vec<char>| v@);
    let mut out: Vec<char> = Vec::new();
    let mut k: usize = 0;
    while k < kept.len()
        invariant
            k <= kept@.len(),
            ls == kept@.map_values(|v: Vec<char>| v@),
            out@ == join_lines(ls.subrange(0, k as int)),
        decreases kept@.len() - k,
    {
        let ghost pre = ls.subrange(0, k as int);
        let ghost post = ls.subrange(0, k + 1);
        assert(post.drop_last() =~= pre);
        if k > 0 {
            out.push('\n');
        }
        append_chars(&mut out, &kept[k]);
        proof {
            if k == 0 {
                assert(out@ =~= post[0]);
            } else {
                assert(out@ =~= join_lines(pre) + seq!['\n'] + post.last());
            }
        }
        k += 1;
    }
    assert(ls.subrange(0, kept@.len() as int) =~= ls);
    let stem = stem_chars(&chars_of(path));
    let dollar = vec!['$'];
    assert(dollar@ =~= seq!['$']);
    let r = replace_chars(&out, &stem, &dollar);
    string_of(&r)
}

/// The stem of the file that a path names, as `file_stem` states.
fn stem_chars(p: &Vec<char>) -> (r: Vec<char>)
    ensures
        r@ == file_stem(p@),
{
    let name = base_name_chars(p);
    let d = last_after(&name, name.len(), '.');
    if d > 1 {
        slice_chars(&name, 0, d - 1)
    } else {
        name
    }
}

/// The position just after the last `c` before `j`, or 0.
pub(crate) fn last_after(s: &Vec<char>, j: usize, c: char) -> (r: usize)
    requires
        j <= s@.len(),
    ensures
        r == after_last(s@, j as int, c),
        r <= j,
{
    proof {
        lemma_after_last(s@, j as int, c);
    }
    let mut i = j;
    while i > 0 && s[i - 1] != c
        invariant
            i <= j <= s@.len(),
            after_last(s@, i as int, c) == after_last(s@, j as int, c),
        decreases i,
    {
        i -= 1;
    }
    i
}

/// A pattern without a newline never matches across one: replacing it in
/// two lines joined by a newline replaces it in each line.
proof fn lemma_replace_across_newline(a: Seq<char>, b: Seq<char>, p: Seq<char>, t: Seq<char>)
    requires
        p.len() > 0,
        !p.contains('\n'),
    ensures
        replace_all(a + seq!['\n'] + b, p, t) == replace_all(a, p, t) + seq!['\n'] + replace_all(
            b,
            p,
            t,
        ),
    decreases a.len(),
{
    let x = a + seq!['\n'] + b;
    let m = p.len() as int;
    assert(x[a.len() as int] == '\n');
    if x.len() < m {
        assert(replace_all(a, p, t) == a);
        assert(replace_all(b, p, t) == b);
    } else if a.len() == 0 {
        assert(x.subrange(0, m) != p) by {
            if x.subrange(0, m) == p {
                assert(p[0] == x[0]);
            }
        }
        assert(x.subrange(1, x.len() as int) =~= b);
        assert(a + seq!['\n'] + replace_all(b, p, t) =~= seq![x[0]] + replace_all(b, p, t));
    } else if x.subrange(0, m) == p {
        assert(m <= a.len()) by {
            if m > a.len() {
                assert(p[a.len() as int] == x[a.len() as int]);
            }
        }
        assert(a.subrange(0, m) =~= x.subrange(0, m));
        let rest = a.subrange(m, a.len() as int);
        assert(x.subrange(m, x.len() as int) =~= rest + seq!['\n'] + b);
        lemma_replace_across_newline(rest, b, p, t);
        assert(replace_all(x, p, t) =~= replace_all(a, p, t) + seq!['\n'] + replace_all(b, p, t));
    } else {
        let rest = a.subrange(1, a.len() as int);
        assert(x.subrange(1, x.len() as int) =~= rest + seq!['\n'] + b);
        lemma_replace_across_newline(rest, b, p, t);
        if a.len() < m {
            assert(replace_all(a, p, t) == a);
            assert(replace_all(rest, p, t) == rest);
            assert(replace_all(x, p, t) =~= a + seq!['\n'] + replace_all(b, p, t));
        } else {
            assert(a.subrange(0, m) =~= x.subrange(0, m));
            assert(replace_all(a, p, t) == seq![a[0]] + replace_all(rest, p, t));
            assert(replace_all(x, p, t) =~= replace_all(a, p, t) + seq!['\n'] + replace_all(
                b,
                p,
                t,
            ));
        }
    }
}

/// Each line with `p` replaced by `t`.
pub open spec fn replace_in_lines(ls: Seq<Seq<char>>, p: Seq<char>, t: Seq<char>) -> Seq<
    Seq<char>,
> {
    ls.map_values(|l: Seq<char>| replace_all(l, p, t))
}

/// Replacing a newline-free pattern in joined lines replaces it line by line.
proof fn lemma_replace_join(ls: Seq<Seq<char>>, p: Seq<char>, t: Seq<char>)
    requires
        p.len() > 0,
        !p.contains('\n'),
    ensures
        replace_all(join_lines(ls), p, t) == join_lines(replace_in_lines(ls, p, t)),
    decreases ls.len(),
{
    let r = replace_in_lines(ls, p, t);
    if ls.len() == 0 {
        assert(replace_all(Seq::<char>::empty(), p, t) == Seq::<char>::empty());
    } else if ls.len() == 1 {
        assert(r[0] == replace_all(ls[0], p, t));
    } else {
        let front = ls.drop_last();
        lemma_replace_join(front, p, t);
        lemma_replace_across_newline(join_lines(front), ls.last(), p, t);
        assert(r.drop_last() =~= replace_in_lines(front, p, t));
        assert(r.last() == replace_all(ls.last(), p, t));
    }
}

/// Lines that agree once trimmed and with each title replaced keep the same
/// lines, which agree the same way.
proof fn lemma_kept_agree(l1: Seq<Seq<char>>, l2: Seq<Seq<char>>, s1: Seq<char>, s2: Seq<char>)
    requires
        l1.len() == l2.len(),
        forall|i: int|
            0 <= i < l1.len() ==> kept_command(trimmed(#[trigger] l1[i])) == kept_command(
                trimmed(l2[i]),
            ),
        forall|i: int|
            0 <= i < l1.len() ==> replace_all(trimmed(#[trigger] l1[i]), s1, seq!['$'])
                == replace_all(trimmed(l2[i]), s2, seq!['$']),
    ensures
        replace_in_lines(kept_lines(l1), s1, seq!['$']) == replace_in_lines(
            kept_lines(l2),
            s2,
            seq!['$'],
        ),
    decreases l1.len(),
{
    if l1.len() > 0 {
        let f1 = l1.drop_last();
        let f2 = l2.drop_last();
        assert forall|i: int| 0 <= i < f1.len() implies kept_command(trimmed(#[trigger] f1[i]))
            == kept_command(trimmed(f2[i])) && replace_all(trimmed(f1[i]), s1, seq!['$'])
            == replace_all(trimmed(f2[i]), s2, seq!['$']) by {
            assert(f1[i] == l1[i] && f2[i] == l2[i]);
        }
        lemma_kept_agree(f1, f2, s1, s2);
        let k = l1.len() - 1;
        assert(kept_command(trimmed(l1[k])) == kept_command(trimmed(l2[k])));
        assert(replace_all(trimmed(l1[k]), s1, seq!['$']) == replace_all(
            trimmed(l2[k]),
            s2,
            seq!['$'],
        ));
        let t1 = trimmed(l1.last());
        let t2 = trimmed(l2.last());
        let d = seq!['$'];
        if kept_command(t1) {
            assert(kept_lines(l1) == kept_lines(f1).push(t1));
            assert(kept_lines(l2) == kept_lines(f2).push(t2));
            assert(replace_in_lines(kept_lines(f1).push(t1), s1, d) =~= replace_in_lines(
                kept_lines(f1),
                s1,
                d,
            ).push(replace_all(t1, s1, d)));
            assert(replace_in_lines(kept_lines(f2).push(t2), s2, d) =~= replace_in_lines(
                kept_lines(f2),
                s2,
                d,
            ).push(replace_all(t2, s2, d)));
        } else {
            assert(kept_lines(l1) == kept_lines(f1));
            assert(kept_lines(l2) == kept_lines(f2));
        }
    }
}

/// Cuesheets of one disc that differ only in their titles share a canonical
/// form, and so a lookup key: it suffices that their lines, trimmed and with
/// each one's title replaced by `$`, agree line by line, that the same lines
/// are commands the form keeps, and that neither title is empty or holds a
/// newline.
pub proof fn lemma_title_only_difference_shares_key(
    c1: Seq<char>,
    c2: Seq<char>,
    title1: Seq<char>,
    title2: Seq<char>,
)
    requires
        title1.len() > 0,
        title2.len() > 0,
        !title1.contains('\n'),
        !title2.contains('\n'),
        split_lines(c1).len() == split_lines(c2).len(),
        forall|i: int|
            0 <= i < split_lines(c1).len() ==> kept_command(trimmed(#[trigger] split_lines(c1)[i]))
                == kept_command(trimmed(split_lines(c2)[i])),
        forall|i: int|
            0 <= i < split_lines(c1).len() ==> replace_all(
                trimmed(#[trigger] split_lines(c1)[i]),
                title1,
                seq!['$'],
            ) == replace_all(trimmed(split_lines(c2)[i]), title2, seq!['$']),
    ensures
        neutralized(c1, title1) == neutralized(c2, title2),
{
    let k1 = kept_lines(split_lines(c1));
    let k2 = kept_lines(split_lines(c2));
    lemma_kept_agree(split_lines(c1), split_lines(c2), title1, title2);
    lemma_replace_join(k1, title1, seq!['$']);
    lemma_replace_join(k2, title2, seq!['$']);
}

/// Whether a track name starts at `p`: `FILE "` stands right before it and
/// `p` holds a character other than `"`.
pub open spec fn track_name_starts(s: Seq<char>, p: int) -> bool {
    6 <= p < s.len() && s.subrange(p - 6, p) == seq!['F', 'I', 'L', 'E', ' ', '"'] && s[p] != '"'
}

/// The first `"` at or after `p`, or the end of the text.
pub open spec fn quote_from(s: Seq<char>, p: int) -> int {
    index_from(s, p, '"')
}

/// The track file names that start before position `k`, in order.
pub open spec fn track_names_before(s: Seq<char>, k: int) -> Seq<Seq<char>>
    decreases k,
{
    if k <= 0 {
        Seq::empty()
    } else {
        let rest = track_names_before(s, k - 1);
        if track_name_starts(s, k - 1) {
            rest.push(s.subrange(k - 1, quote_from(s, k - 1)))
        } else {
            rest
        }
    }
}

/// Every file name that a cuesheet names in `FILE "<name>"`: each run of
/// characters other than `"` that follows `FILE "`, in order.
pub open spec fn track_names(s: Seq<char>) -> Seq<Seq<char>> {
    track_names_before(s, s.len() as int)
}

/// The names of the track files that a cuesheet refers to.
pub fn get_track_filenames(content: &str) -> (r: Vec<String>)
    ensures
        r@.map_values(|x: String| x@) == track_names(content@),
{
    let s = chars_of(content);
    let n = s.len();
    let head = vec!['F', 'I', 'L', 'E', ' ', '"'];
    assert(head@ =~= seq!['F', 'I', 'L', 'E', ' ', '"']);
    let mut out: Vec<String> = Vec::new();
    let mut p: usize = 0;
    while p < n
        invariant
            p <= n,
            n == s@.len(),
            head@ == seq!['F', 'I', 'L', 'E', ' ', '"'],
            out@.map_values(|x: String| x@) == track_names_before(s@, p as int),
        decreases n - p,
    {
        let ghost before = out@.map_values(|x: String| x@);
        if p >= 6 && s[p] != '"' && matches_at(&s, p - 6, &head) {
            let q = find_from(&s, p, '"');
            let name = slice_chars(&s, p, q);
            out.push(string_of(&name));
            assert(out@.map_values(|x: String| x@) =~= before.push(name@));
        }
        p += 1;
    }
    out
}

} // verus!
