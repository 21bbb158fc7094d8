//! The differential import: reconciling the games of a freshly parsed
//! datafile with the games stored for it.
//!
//! `plan_import` decides, for every parsed game, what the store has to do
//! (nothing, replace its categories, replace its ROMs and bump its revision,
//! or insert it) and which stored games vanished. The caller carries the plan
//! out inside one transaction. Over the abstract state of a datafile (game
//! name to revision, categories and ROM identities) the plan realizes
//! `imported`, about which the laws in `laws.rs` speak.
use vstd::prelude::*;

use crate::catalog::{category_set, rom_key, rom_keys, Category, Game, RomKey, ROM};

verus! {

/// A game as the store holds it for one datafile.
pub struct StoredGame {
    pub gid: i64,
    pub name: String,
    pub revision: i64,
    pub categories: Vec<Category>,
    pub roms: Vec<ROM>,
}

/// What the store knows of one game, up to ROM names.
pub struct GameRecord {
    pub revision: int,
    pub categories: Set<Category>,
    pub roms: Set<RomKey>,
}

/// A parsed game, up to ROM names and the order of its lists.
pub struct GameView {
    pub name: Seq<char>,
    pub categories: Set<Category>,
    pub roms: Set<RomKey>,
}

pub open spec fn game_view(g: Game) -> GameView {
    GameView { name: g.name@, categories: category_set(g.categories@), roms: rom_keys(g.roms@) }
}

pub open spec fn views(parsed: Seq<Game>) -> Seq<GameView> {
    parsed.map_values(|g: Game| game_view(g))
}

pub open spec fn stored_record(s: StoredGame) -> GameRecord {
    GameRecord {
        revision: s.revision as int,
        categories: category_set(s.categories@),
        roms: rom_keys(s.roms@),
    }
}

/// The state of a datafile that the stored games describe.
pub open spec fn stored_state(s: Seq<StoredGame>) -> Map<Seq<char>, GameRecord>
    decreases s.len(),
{
    if s.len() == 0 {
        Map::empty()
    } else {
        stored_state(s.drop_last()).insert(s.last().name@, stored_record(s.last()))
    }
}

pub open spec fn stored_names_distinct(s: Seq<StoredGame>) -> bool {
    forall|i: int, j: int| 0 <= i < j < s.len() ==> s[i].name@ != s[j].name@
}

pub open spec fn names_distinct(p: Seq<GameView>) -> bool {
    forall|i: int, j: int| 0 <= i < j < p.len() ==> p[i].name != p[j].name
}

pub open spec fn parsed_names(p: Seq<GameView>) -> Set<Seq<char>> {
    Set::new(|n: Seq<char>| exists|i: int| 0 <= i < p.len() && p[i].name == n)
}

/// How importing `g` changes the game of the same name.
#[derive(Clone, Copy, PartialEq, Eq, Structural, Debug)]
pub enum Change {
    Unchanged,
    CategoriesOnly,
    Roms,
    Added,
}

pub open spec fn change_of(state: Map<Seq<char>, GameRecord>, g: GameView) -> Change {
    if !state.contains_key(g.name) {
        Change::Added
    } else if state[g.name].roms != g.roms {
        Change::Roms
    } else if state[g.name].categories != g.categories {
        Change::CategoriesOnly
    } else {
        Change::Unchanged
    }
}

/// The record of `g` after the import: its revision goes up by one exactly
/// when its ROM identities changed; a new game starts at revision 0.
pub open spec fn next_record(state: Map<Seq<char>, GameRecord>, g: GameView) -> GameRecord {
    if state.contains_key(g.name) {
        GameRecord {
            revision: state[g.name].revision + if state[g.name].roms != g.roms {
                1int
            } else {
                0int
            },
            categories: g.categories,
            roms: g.roms,
        }
    } else {
        GameRecord { revision: 0, categories: g.categories, roms: g.roms }
    }
}

/// The state of the datafile after importing `parsed` into `state`: exactly
/// the parsed games, each with its next record.
pub open spec fn imported(state: Map<Seq<char>, GameRecord>, parsed: Seq<GameView>) -> Map<
    Seq<char>,
    GameRecord,
>
    decreases parsed.len(),
{
    if parsed.len() == 0 {
        Map::empty()
    } else {
        imported(state, parsed.drop_last()).insert(
            parsed.last().name,
            next_record(state, parsed.last()),
        )
    }
}

/// How many parsed games undergo the change `c`.
pub open spec fn count_changes(
    state: Map<Seq<char>, GameRecord>,
    parsed: Seq<GameView>,
    c: Change,
) -> nat
    decreases parsed.len(),
{
    if parsed.len() == 0 {
        0
    } else {
        count_changes(state, parsed.drop_last(), c) + if change_of(state, parsed.last()) == c {
            1nat
        } else {
            0nat
        }
    }
}

/// The stored games that the parsed datafile no longer lists.
pub open spec fn removed_gids(stored: Seq<StoredGame>, names: Set<Seq<char>>) -> Seq<i64>
    decreases stored.len(),
{
    if stored.len() == 0 {
        Seq::empty()
    } else {
        let rest = removed_gids(stored.drop_last(), names);
        if names.contains(stored.last().name@) {
            rest
        } else {
            rest.push(stored.last().gid)
        }
    }
}

/// What the store does for one parsed game. The `i64` is the stored game's
/// id; the flag of `RomsChanged` says whether its categories change too.
#[derive(Clone, Copy, PartialEq, Eq, Structural, Debug)]
pub enum GameAction {
    /// Nothing to write.
    Unchanged(i64),
    /// Replace the game's category rows.
    CategoriesChanged(i64),
    /// Replace the game's ROM rows and raise its revision by one.
    RomsChanged(i64, bool),
    /// Insert the game at revision 0 with its categories and ROMs.
    Added,
}

pub open spec fn action_change(a: GameAction) -> Change {
    match a {
        GameAction::Unchanged(_) => Change::Unchanged,
        GameAction::CategoriesChanged(_) => Change::CategoriesOnly,
        GameAction::RomsChanged(_, _) => Change::Roms,
        GameAction::Added => Change::Added,
    }
}

pub open spec fn action_gid(a: GameAction) -> i64 {
    match a {
        GameAction::Unchanged(gid) => gid,
        GameAction::CategoriesChanged(gid) => gid,
        GameAction::RomsChanged(gid, _) => gid,
        GameAction::Added => -1i64,
    }
}

/// The record that carrying out `a` for `g` leaves in the store.
pub open spec fn applied(state: Map<Seq<char>, GameRecord>, a: GameAction, g: GameView) -> GameRecord {
    match a {
        GameAction::Unchanged(_) => state[g.name],
        GameAction::CategoriesChanged(_) => GameRecord {
            revision: state[g.name].revision,
            categories: g.categories,
            roms: state[g.name].roms,
        },
        GameAction::RomsChanged(_, cats) => GameRecord {
            revision: state[g.name].revision + 1,
            categories: if cats {
                g.categories
            } else {
                state[g.name].categories
            },
            roms: g.roms,
        },
        GameAction::Added => GameRecord { revision: 0, categories: g.categories, roms: g.roms },
    }
}

/// Whether `a` is the action the store owes the parsed game `g`.
pub open spec fn action_fits(stored: Seq<StoredGame>, a: GameAction, g: Game) -> bool {
    let state = stored_state(stored);
    let v = game_view(g);
    &&& action_change(a) == change_of(state, v)
    &&& applied(state, a, v) == next_record(state, v)
    &&& (a != GameAction::Added ==> exists|j: int|
        0 <= j < stored.len() && stored[j].name@ == g.name@ && stored[j].gid == action_gid(a))
}

/// The counters that an import reports.
#[derive(Clone, Copy, PartialEq, Eq, Structural, Debug)]
pub struct ImportCounts {
    pub unchanged: usize,
    pub changed: usize,
    pub added: usize,
    pub removed: usize,
}

/// What the store must do to take in a datafile.
pub struct ImportPlan {
    /// One action per parsed game, in parse order.
    pub actions: Vec<GameAction>,
    /// The ids of the stored games to delete, with their categories and ROMs.
    pub removed: Vec<i64>,
    pub counts: ImportCounts,
}

pub enum ImportError {
    /// The datafile lists two games of this name.
    DuplicateGame { name: String },
}

/// Whether `j` is the first position whose game name occurred before it.
pub open spec fn first_duplicate_at(p: Seq<Game>, j: int) -> bool {
    &&& 0 <= j < p.len()
    &&& exists|i: int| 0 <= i < j && p[i].name@ == p[j].name@
    &&& forall|i: int, k: int| 0 <= i < k < j ==> p[i].name@ != p[k].name@
}

pub open spec fn game_names_distinct(p: Seq<Game>) -> bool {
    forall|i: int, k: int| 0 <= i < k < p.len() ==> p[i].name@ != p[k].name@
}

/// With distinct names, the stored state maps each stored name to its record.
proof fn lemma_stored_state(s: Seq<StoredGame>)
    requires
        stored_names_distinct(s),
    ensures
        forall|n: Seq<char>|
            stored_state(s).contains_key(n) <==> exists|j: int| 0 <= j < s.len() && s[j].name@ == n,
        forall|j: int| 0 <= j < s.len() ==> stored_state(s)[s[j].name@] == stored_record(s[j]),
    decreases s.len(),
{
    if s.len() > 0 {
        let t = s.drop_last();
        let last = s.last();
        lemma_stored_state(t);
        assert(stored_state(s) == stored_state(t).insert(last.name@, stored_record(last)));
        assert forall|n: Seq<char>|
            stored_state(s).contains_key(n) <==> exists|j: int| 0 <= j < s.len() && s[j].name@ == n by {
            if stored_state(s).contains_key(n) {
                if n == last.name@ {
                    assert(s[s.len() - 1].name@ == n);
                } else {
                    assert(stored_state(t).contains_key(n));
                    let j = choose|j: int| 0 <= j < t.len() && t[j].name@ == n;
                    assert(t[j] == s[j]);
                }
            }
            if exists|j: int| 0 <= j < s.len() && s[j].name@ == n {
                let j = choose|j: int| 0 <= j < s.len() && s[j].name@ == n;
                if j < t.len() {
                    assert(t[j] == s[j]);
                    assert(stored_state(t).contains_key(n));
                }
            }
        }
        assert forall|j: int| 0 <= j < s.len() implies stored_state(s)[s[j].name@]
            == stored_record(s[j]) by {
            if j < s.len() - 1 {
                assert(t[j] == s[j]);
                assert(s[j].name@ != last.name@);
            }
        }
    }
}

/// Whether two lists of categories hold the same categories.
fn same_categories(a: &Vec<Category>, b: &Vec<Category>) -> (r: bool)
    ensures
        r == (category_set(a@) == category_set(b@)),
{
    let mut i: usize = 0;
    while i < a.len()
        invariant
            i <= a@.len(),
            forall|k: int| 0 <= k < i ==> b@.contains(a@[k]),
        decreases a@.len() - i,
    {
        let mut found = false;
        let mut j: usize = 0;
        while j < b.len()
            invariant
                j <= b@.len(),
                i < a@.len(),
                found ==> b@.contains(a@[i as int]),
                !found ==> forall|k: int| 0 <= k < j ==> b@[k] != a@[i as int],
            decreases b@.len() - j,
        {
            if b[j] == a[i] {
                found = true;
            }
            j += 1;
        }
        if !found {
            assert(category_set(a@).contains(a@[i as int]));
            assert(!category_set(b@).contains(a@[i as int]));
            return false;
        }
        i += 1;
    }
    let mut i: usize = 0;
    while i < b.len()
        invariant
            i <= b@.len(),
            forall|k: int| 0 <= k < i ==> a@.contains(b@[k]),
        decreases b@.len() - i,
    {
        let mut found = false;
        let mut j: usize = 0;
        while j < a.len()
            invariant
                j <= a@.len(),
                i < b@.len(),
                found ==> a@.contains(b@[i as int]),
                !found ==> forall|k: int| 0 <= k < j ==> a@[k] != b@[i as int],
            decreases a@.len() - j,
        {
            if a[j] == b[i] {
                found = true;
            }
            j += 1;
        }
        if !found {
            assert(category_set(b@).contains(b@[i as int]));
            assert(!category_set(a@).contains(b@[i as int]));
            return false;
        }
        i += 1;
    }
    assert(category_set(a@) =~= category_set(b@)) by {
        assert forall|c: Category| #[trigger] a@.contains(c) implies b@.contains(c) by {
            let k = choose|k: int| 0 <= k < a@.len() && a@[k] == c;
        }
        assert forall|c: Category| #[trigger] b@.contains(c) implies a@.contains(c) by {
            let k = choose|k: int| 0 <= k < b@.len() && b@[k] == c;
        }
    }
    true
}

/// Whether some ROM of `b` is the same dump as `x`.
fn has_same_rom(b: &Vec<ROM>, x: &ROM) -> (r: bool)
    ensures
        r == rom_keys(b@).contains(rom_key(*x)),
{
    let mut j: usize = 0;
    while j < b.len()
        invariant
            j <= b@.len(),
            forall|k: int| 0 <= k < j ==> rom_key(b@[k]) != rom_key(*x),
        decreases b@.len() - j,
    {
        if b[j].same_content(x) {
            return true;
        }
        j += 1;
    }
    false
}

/// Whether two lists of ROMs hold the same dumps, names aside.
fn same_roms(a: &Vec<ROM>, b: &Vec<ROM>) -> (r: bool)
    ensures
        r == (rom_keys(a@) == rom_keys(b@)),
{
    let mut i: usize = 0;
    while i < a.len()
        invariant
            i <= a@.len(),
            forall|k: int| 0 <= k < i ==> rom_keys(b@).contains(rom_key(#[trigger] a@[k])),
        decreases a@.len() - i,
    {
        if !has_same_rom(b, &a[i]) {
            assert(rom_keys(a@).contains(rom_key(a@[i as int])));
            return false;
        }
        i += 1;
    }
    let mut i: usize = 0;
    while i < b.len()
        invariant
            i <= b@.len(),
            forall|k: int| 0 <= k < a@.len() ==> rom_keys(b@).contains(rom_key(#[trigger] a@[k])),
            forall|k: int| 0 <= k < i ==> rom_keys(a@).contains(rom_key(#[trigger] b@[k])),
        decreases b@.len() - i,
    {
        if !has_same_rom(a, &b[i]) {
            assert(rom_keys(b@).contains(rom_key(b@[i as int])));
            return false;
        }
        i += 1;
    }
    assert(rom_keys(a@) =~= rom_keys(b@)) by {
        assert forall|x: RomKey| rom_keys(a@).contains(x) implies rom_keys(b@).contains(x) by {
            let k = choose|k: int| 0 <= k < a@.len() && rom_key(a@[k]) == x;
        }
        assert forall|x: RomKey| rom_keys(b@).contains(x) implies rom_keys(a@).contains(x) by {
            let k = choose|k: int| 0 <= k < b@.len() && rom_key(b@[k]) == x;
        }
    }
    true
}

/// The position of the stored game called `name`, if there is one.
fn find_stored(stored: &Vec<StoredGame>, name: &String) -> (r: Option<usize>)
    ensures
        r matches Some(j) ==> j < stored@.len() && stored@[j as int].name@ == name@,
        r is None ==> forall|j: int| 0 <= j < stored@.len() ==> stored@[j].name@ != name@,
{
    let mut j: usize = 0;
    while j < stored.len()
        invariant
            j <= stored@.len(),
            forall|k: int| 0 <= k < j ==> stored@[k].name@ != name@,
        decreases stored@.len() - j,
    {
        if stored[j].name == *name {
            return Some(j);
        }
        j += 1;
    }
    None
}

/// Whether some parsed game is called `name`.
fn lists_name(parsed: &Vec<Game>, name: &String) -> (r: bool)
    ensures
        r == parsed_names(views(parsed@)).contains(name@),
{
    let mut j: usize = 0;
    while j < parsed.len()
        invariant
            j <= parsed@.len(),
            forall|k: int| 0 <= k < j ==> parsed@[k].name@ != name@,
        decreases parsed@.len() - j,
    {
        if parsed[j].name == *name {
            assert(views(parsed@)[j as int].name == name@);
            return true;
        }
        j += 1;
    }
    assert forall|k: int| 0 <= k < views(parsed@).len() implies views(parsed@)[k].name
        != name@ by {
        assert(views(parsed@)[k] == game_view(parsed@[k]));
    }
    false
}

/// Finds the first game whose name an earlier game already had.
fn find_duplicate(parsed: &Vec<Game>) -> (r: Option<usize>)
    ensures
        r is None <==> game_names_distinct(parsed@),
        r matches Some(j) ==> first_duplicate_at(parsed@, j as int),
{
    let mut j: usize = 0;
    while j < parsed.len()
        invariant
            j <= parsed@.len(),
            forall|i: int, k: int| 0 <= i < k < j ==> parsed@[i].name@ != parsed@[k].name@,
        decreases parsed@.len() - j,
    {
        let mut i: usize = 0;
        while i < j
            invariant
                i <= j < parsed@.len(),
                forall|a: int, b: int| 0 <= a < b < j ==> parsed@[a].name@ != parsed@[b].name@,
                forall|k: int| 0 <= k < i ==> parsed@[k].name@ != parsed@[j as int].name@,
            decreases j - i,
        {
            if parsed[i].name == parsed[j].name {
                assert(parsed@[i as int].name@ == parsed@[j as int].name@);
                return Some(j);
            }
            i += 1;
        }
        j += 1;
    }
    None
}

/// The action owed to the parsed game `g`, given where it stands in the
/// store.
fn action_for(stored: &Vec<StoredGame>, g: &Game) -> (a: GameAction)
    requires
        stored_names_distinct(stored@),
    ensures
        action_fits(stored@, a, *g),
{
    proof {
        lemma_stored_state(stored@);
    }
    let ghost state = stored_state(stored@);
    let ghost v = game_view(*g);
    match find_stored(stored, &g.name) {
        None => {
            assert(!state.contains_key(v.name));
            GameAction::Added
        },
        Some(j) => {
            let s = &stored[j];
            assert(state[v.name] == stored_record(stored@[j as int]));
            let roms_same = same_roms(&s.roms, &g.roms);
            let cats_same = same_categories(&s.categories, &g.categories);
            if !roms_same {
                GameAction::RomsChanged(s.gid, !cats_same)
            } else if !cats_same {
                GameAction::CategoriesChanged(s.gid)
            } else {
                GameAction::Unchanged(s.gid)
            }
        },
    }
}

/// Decides how to take the parsed games of a datafile into the store, given
/// the games stored for that datafile.
///
/// Fails with `DuplicateGame` exactly when two parsed games share a name,
/// naming the first game whose name came before. Otherwise every parsed game
/// gets the action `action_fits` describes, every stored game that the
/// datafile no longer lists is removed, and the counters count them: a game
/// whose ROM identities changed is `changed`, one that only changed
/// categories or nothing at all is `unchanged`.
pub fn plan_import(stored: &Vec<StoredGame>, parsed: &Vec<Game>) -> (r: Result<
    ImportPlan,
    ImportError,
>)
    requires
        stored_names_distinct(stored@),
    ensures
        r is Err <==> !game_names_distinct(parsed@),
        r matches Err(ImportError::DuplicateGame { name }) ==> exists|j: int|
            first_duplicate_at(parsed@, j) && name@ == parsed@[j].name@,
        r matches Ok(plan) ==> {
            let state = stored_state(stored@);
            let vs = views(parsed@);
            &&& plan.actions@.len() == parsed@.len()
            &&& forall|i: int|
                0 <= i < parsed@.len() ==> action_fits(stored@, #[trigger] plan.actions@[i], parsed@[i])
            &&& plan.removed@ == removed_gids(stored@, parsed_names(vs))
            &&& plan.counts.changed == count_changes(state, vs, Change::Roms)
            &&& plan.counts.added == count_changes(state, vs, Change::Added)
            &&& plan.counts.unchanged == count_changes(state, vs, Change::Unchanged)
                + count_changes(state, vs, Change::CategoriesOnly)
            &&& plan.counts.removed == plan.removed@.len()
        },
{
    if let Some(j) = find_duplicate(parsed) {
        return Err(ImportError::DuplicateGame { name: parsed[j].name.clone() });
    }
    let ghost state = stored_state(stored@);
    let ghost vs = views(parsed@);
    let mut actions: Vec<GameAction> = Vec::new();
    let mut unchanged: usize = 0;
    let mut changed: usize = 0;
    let mut added: usize = 0;
    let mut k: usize = 0;
    while k < parsed.len()
        invariant
            k <= parsed@.len(),
            stored_names_distinct(stored@),
            state == stored_state(stored@),
            vs == views(parsed@),
            actions@.len() == k,
            forall|i: int| 0 <= i < k ==> action_fits(stored@, #[trigger] actions@[i], parsed@[i]),
            changed == count_changes(state, vs.subrange(0, k as int), Change::Roms),
            added == count_changes(state, vs.subrange(0, k as int), Change::Added),
            unchanged == count_changes(state, vs.subrange(0, k as int), Change::Unchanged)
                + count_changes(state, vs.subrange(0, k as int), Change::CategoriesOnly),
            changed + added + unchanged == k,
        decreases parsed@.len() - k,
    {
        let a = action_for(stored, &parsed[k]);
        let ghost pre = vs.subrange(0, k as int);
        let ghost post = vs.subrange(0, k + 1);
        assert(post.drop_last() =~= pre);
        assert(post.last() == game_view(parsed@[k as int]));
        match a {
            GameAction::RomsChanged(_, _) => {
                changed += 1;
            },
            GameAction::Added => {
                added += 1;
            },
            _ => {
                unchanged += 1;
            },
        }
        actions.push(a);
        k += 1;
    }
    assert(vs.subrange(0, parsed@.len() as int) =~= vs);
    let ghost names = parsed_names(vs);
    let mut removed: Vec<i64> = Vec::new();
    let mut s: usize = 0;
    while s < stored.len()
        invariant
            s <= stored@.len(),
            names == parsed_names(views(parsed@)),
            removed@ == removed_gids(stored@.subrange(0, s as int), names),
        decreases stored@.len() - s,
    {
        let ghost pre = stored@.subrange(0, s as int);
        let ghost post = stored@.subrange(0, s + 1);
        assert(post.drop_last() =~= pre);
        if !lists_name(parsed, &stored[s].name) {
            removed.push(stored[s].gid);
        }
        s += 1;
    }
    assert(stored@.subrange(0, stored@.len() as int) =~= stored@);
    let counts = ImportCounts { unchanged, changed, added, removed: removed.len() };
    Ok(ImportPlan { actions, removed, counts })
}

} // verus!
