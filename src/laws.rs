//! Properties of the differential import, stated over the state model that
//! `plan_import`'s contract realizes.
use vstd::prelude::*;

use crate::catalog::{category_set, rom_keys, Game};
use crate::import::{
    action_fits, applied, change_of, count_changes, game_view, imported, names_distinct,
    next_record, parsed_names, removed_gids, stored_state, views, Change, GameAction, GameRecord,
    GameView, StoredGame,
};

verus! {

/// After an import the datafile holds exactly the parsed games, each with
/// its next record.
pub proof fn lemma_imported_holds(state: Map<Seq<char>, GameRecord>, p: Seq<GameView>)
    requires
        names_distinct(p),
    ensures
        imported(state, p).dom() == parsed_names(p),
        forall|i: int|
            0 <= i < p.len() ==> #[trigger] imported(state, p)[p[i].name] == next_record(
                state,
                p[i],
            ),
    decreases p.len(),
{
    if p.len() > 0 {
        let t = p.drop_last();
        let last = p.last();
        assert(names_distinct(t)) by {
            assert forall|i: int, j: int| 0 <= i < j < t.len() implies t[i].name != t[j].name by {
                assert(t[i] == p[i] && t[j] == p[j]);
            }
        }
        lemma_imported_holds(state, t);
        assert(imported(state, p) == imported(state, t).insert(last.name, next_record(state, last)));
        assert(imported(state, p).dom() =~= parsed_names(p)) by {
            assert forall|n: Seq<char>| parsed_names(p).contains(n) implies imported(
                state,
                p,
            ).dom().contains(n) by {
                let i = choose|i: int| 0 <= i < p.len() && p[i].name == n;
                if i < t.len() {
                    assert(t[i] == p[i]);
                    assert(parsed_names(t).contains(n));
                }
            }
            assert forall|n: Seq<char>| imported(state, p).dom().contains(n) implies parsed_names(
                p,
            ).contains(n) by {
                if n != last.name {
                    assert(parsed_names(t).contains(n));
                    let i = choose|i: int| 0 <= i < t.len() && t[i].name == n;
                    assert(p[i] == t[i]);
                } else {
                    assert(p[p.len() - 1].name == n);
                }
            }
        }
        assert forall|i: int| 0 <= i < p.len() implies #[trigger] imported(state, p)[p[i].name]
            == next_record(state, p[i]) by {
            if i < p.len() - 1 {
                assert(t[i] == p[i]);
                assert(p[i].name != last.name);
                assert(imported(state, t)[t[i].name] == next_record(state, t[i]));
            }
        }
    }
}

/// A change that no parsed game undergoes is counted zero times.
proof fn lemma_count_zero(state: Map<Seq<char>, GameRecord>, p: Seq<GameView>, c: Change)
    requires
        forall|i: int| 0 <= i < p.len() ==> change_of(state, #[trigger] p[i]) != c,
    ensures
        count_changes(state, p, c) == 0,
    decreases p.len(),
{
    if p.len() > 0 {
        let t = p.drop_last();
        assert forall|i: int| 0 <= i < t.len() implies change_of(state, #[trigger] t[i]) != c by {
            assert(t[i] == p[i]);
        }
        lemma_count_zero(state, t, c);
        assert(change_of(state, p[p.len() - 1]) != c);
    }
}

/// Importing the same datafile twice in a row: the second import changes no
/// ROMs, touches no categories, adds and removes nothing, and leaves every
/// record, revisions included, as the first import left it.
pub proof fn lemma_import_idempotent(state: Map<Seq<char>, GameRecord>, p: Seq<GameView>)
    requires
        names_distinct(p),
    ensures
        count_changes(imported(state, p), p, Change::Roms) == 0,
        count_changes(imported(state, p), p, Change::CategoriesOnly) == 0,
        count_changes(imported(state, p), p, Change::Added) == 0,
        imported(state, p).dom().difference(parsed_names(p)) == Set::<Seq<char>>::empty(),
        imported(imported(state, p), p) == imported(state, p),
{
    let once = imported(state, p);
    lemma_imported_holds(state, p);
    lemma_imported_holds(once, p);
    assert forall|i: int| 0 <= i < p.len() implies change_of(once, #[trigger] p[i])
        == Change::Unchanged by {
        assert(once[p[i].name] == next_record(state, p[i]));
        assert(parsed_names(p).contains(p[i].name));
    }
    lemma_count_zero(once, p, Change::Roms);
    lemma_count_zero(once, p, Change::CategoriesOnly);
    lemma_count_zero(once, p, Change::Added);
    assert(once.dom().difference(parsed_names(p)) =~= Set::<Seq<char>>::empty());
    assert(imported(once, p) =~= once) by {
        assert forall|n: Seq<char>| #[trigger] once.contains_key(n) implies imported(once, p)[n]
            == once[n] by {
            let i = choose|i: int| 0 <= i < p.len() && p[i].name == n;
            assert(imported(once, p)[p[i].name] == next_record(once, p[i]));
            assert(once[p[i].name] == next_record(state, p[i]));
        }
    }
}

/// Where every stored game is listed by name, the import removes none.
pub proof fn lemma_nothing_removed(stored: Seq<StoredGame>, names: Set<Seq<char>>)
    requires
        stored_state(stored).dom().subset_of(names),
    ensures
        removed_gids(stored, names).len() == 0,
    decreases stored.len(),
{
    if stored.len() > 0 {
        let t = stored.drop_last();
        assert(stored_state(stored) == stored_state(t).insert(
            stored.last().name@,
            crate::import::stored_record(stored.last()),
        ));
        assert(stored_state(t).dom().subset_of(names));
        lemma_nothing_removed(t, names);
        assert(stored_state(stored).contains_key(stored.last().name@));
    }
}

/// The removals of an import concern the datafile's own stored games only:
/// every removed id is that of a stored game whose name the datafile no
/// longer lists, and every such stored game is removed.
pub proof fn lemma_removed_exactly_unlisted(stored: Seq<StoredGame>, names: Set<Seq<char>>)
    ensures
        forall|k: int|
            0 <= k < removed_gids(stored, names).len() ==> exists|j: int|
                0 <= j < stored.len() && stored[j].gid == #[trigger] removed_gids(stored, names)[k]
                    && !names.contains(stored[j].name@),
        forall|j: int|
            0 <= j < stored.len() && !names.contains(#[trigger] stored[j].name@) ==> removed_gids(
                stored,
                names,
            ).contains(stored[j].gid),
    decreases stored.len(),
{
    if stored.len() > 0 {
        let t = stored.drop_last();
        let last = stored.last();
        lemma_removed_exactly_unlisted(t, names);
        let rest = removed_gids(t, names);
        let all = removed_gids(stored, names);
        assert forall|k: int| 0 <= k < all.len() implies exists|j: int|
            0 <= j < stored.len() && stored[j].gid == #[trigger] all[k] && !names.contains(
                stored[j].name@,
            ) by {
            if k < rest.len() {
                assert(all[k] == rest[k]);
                let j = choose|j: int|
                    0 <= j < t.len() && t[j].gid == rest[k] && !names.contains(t[j].name@);
                assert(stored[j] == t[j]);
            } else {
                assert(stored[stored.len() - 1] == last);
            }
        }
        assert forall|j: int|
            0 <= j < stored.len() && !names.contains(#[trigger] stored[j].name@) implies all.contains(
                stored[j].gid,
            ) by {
            if j < t.len() {
                assert(t[j] == stored[j]);
                let k = choose|k: int| 0 <= k < rest.len() && rest[k] == t[j].gid;
                assert(all[k] == rest[k]);
            } else {
                assert(all[all.len() - 1] == last.gid);
            }
        }
    }
}

/// Revisions start at zero and never go down: after an import every
/// revision is at least zero and at least what it was before.
pub proof fn lemma_revision_never_decreases(state: Map<Seq<char>, GameRecord>, p: Seq<GameView>)
    requires
        names_distinct(p),
        forall|n: Seq<char>| #[trigger] state.contains_key(n) ==> state[n].revision >= 0,
    ensures
        forall|n: Seq<char>| #[trigger]
            imported(state, p).contains_key(n) ==> imported(state, p)[n].revision >= 0,
        forall|n: Seq<char>|
            #[trigger] imported(state, p).contains_key(n) && state.contains_key(n)
                ==> imported(state, p)[n].revision >= state[n].revision,
{
    lemma_imported_holds(state, p);
    assert forall|n: Seq<char>| #[trigger] imported(state, p).contains_key(n) implies imported(
        state,
        p,
    )[n].revision >= 0 && (state.contains_key(n) ==> imported(state, p)[n].revision
        >= state[n].revision) by {
        assert(parsed_names(p).contains(n));
        let i = choose|i: int| 0 <= i < p.len() && p[i].name == n;
        assert(imported(state, p)[p[i].name] == next_record(state, p[i]));
    }
}

/// Importing a datafile that changed a game's ROMs and then the previous
/// again raises that game's revision by two: both imports are real changes.
pub proof fn lemma_change_then_revert(
    state: Map<Seq<char>, GameRecord>,
    previous: Seq<GameView>,
    modified: Seq<GameView>,
    i: int,
    k: int,
)
    requires
        names_distinct(previous),
        names_distinct(modified),
        0 <= i < previous.len(),
        0 <= k < modified.len(),
        modified[k].name == previous[i].name,
        state.contains_key(previous[i].name),
        state[previous[i].name].roms == previous[i].roms,
        modified[k].roms != previous[i].roms,
    ensures
        imported(imported(state, modified), previous)[previous[i].name].revision
            == state[previous[i].name].revision + 2,
{
    let once = imported(state, modified);
    lemma_imported_holds(state, modified);
    lemma_imported_holds(once, previous);
    assert(once[modified[k].name] == next_record(state, modified[k]));
    assert(parsed_names(modified).contains(modified[k].name));
    assert(imported(once, previous)[previous[i].name] == next_record(once, previous[i]));
}

/// A datafile that edits only categories changes no ROMs and adds no game:
/// every revision stays, and each game's categories become the edited ones.
pub proof fn lemma_category_only_edit(
    state: Map<Seq<char>, GameRecord>,
    previous: Seq<GameView>,
    edited: Seq<GameView>,
)
    requires
        names_distinct(previous),
        edited.len() == previous.len(),
        forall|i: int|
            0 <= i < previous.len() ==> #[trigger] edited[i].name == previous[i].name
                && edited[i].roms == previous[i].roms,
        forall|i: int|
            0 <= i < previous.len() ==> #[trigger] state.contains_key(previous[i].name)
                && state[previous[i].name].roms == previous[i].roms,
    ensures
        count_changes(state, edited, Change::Roms) == 0,
        count_changes(state, edited, Change::Added) == 0,
        forall|i: int|
            0 <= i < edited.len() ==> (#[trigger] imported(state, edited)[edited[i].name]).revision
                == state[edited[i].name].revision && imported(state, edited)[edited[i].name].categories
                == edited[i].categories,
{
    assert(names_distinct(edited)) by {
        assert forall|a: int, b: int| 0 <= a < b < edited.len() implies edited[a].name
            != edited[b].name by {
            assert(edited[a].name == previous[a].name);
            assert(edited[b].name == previous[b].name);
        }
    }
    lemma_imported_holds(state, edited);
    assert forall|i: int| 0 <= i < edited.len() implies change_of(state, #[trigger] edited[i])
        != Change::Roms && change_of(state, edited[i]) != Change::Added by {
        assert(edited[i].name == previous[i].name && edited[i].roms == previous[i].roms);
        assert(state.contains_key(previous[i].name));
    }
    lemma_count_zero(state, edited, Change::Roms);
    lemma_count_zero(state, edited, Change::Added);
    assert forall|i: int| 0 <= i < edited.len() implies (#[trigger] imported(
        state,
        edited,
    )[edited[i].name]).revision == state[edited[i].name].revision && imported(
        state,
        edited,
    )[edited[i].name].categories == edited[i].categories by {
        assert(edited[i].name == previous[i].name && edited[i].roms == previous[i].roms);
        assert(state.contains_key(previous[i].name));
        assert(imported(state, edited)[edited[i].name] == next_record(state, edited[i]));
    }
}

/// A plan for a datafile that edits only categories: where every parsed
/// game is stored with the same ROM identities, each action leaves the
/// game's ROMs alone (`Unchanged` or `CategoriesChanged`), keeps its
/// revision and gives it the parsed categories.
pub proof fn lemma_category_only_plan(
    stored: Seq<StoredGame>,
    edited: Seq<Game>,
    actions: Seq<GameAction>,
)
    requires
        actions.len() == edited.len(),
        forall|i: int| 0 <= i < edited.len() ==> action_fits(stored, #[trigger] actions[i], edited[i]),
        forall|i: int|
            0 <= i < edited.len() ==> stored_state(stored).contains_key(#[trigger] edited[i].name@)
                && stored_state(stored)[edited[i].name@].roms == rom_keys(edited[i].roms@),
    ensures
        forall|i: int|
            0 <= i < edited.len() ==> (#[trigger] actions[i] is Unchanged
                || actions[i] is CategoriesChanged),
        forall|i: int|
            0 <= i < edited.len() ==> (#[trigger] applied(
                stored_state(stored),
                actions[i],
                game_view(edited[i]),
            )).revision == stored_state(stored)[edited[i].name@].revision && applied(
                stored_state(stored),
                actions[i],
                game_view(edited[i]),
            ).categories == category_set(edited[i].categories@),
{
    assert forall|i: int| 0 <= i < edited.len() implies (#[trigger] actions[i] is Unchanged
        || actions[i] is CategoriesChanged) by {
        assert(action_fits(stored, actions[i], edited[i]));
        assert(stored_state(stored).contains_key(edited[i].name@));
    }
    assert forall|i: int| 0 <= i < edited.len() implies (#[trigger] applied(
        stored_state(stored),
        actions[i],
        game_view(edited[i]),
    )).revision == stored_state(stored)[edited[i].name@].revision && applied(
        stored_state(stored),
        actions[i],
        game_view(edited[i]),
    ).categories == category_set(edited[i].categories@) by {
        assert(action_fits(stored, actions[i], edited[i]));
        assert(stored_state(stored).contains_key(edited[i].name@));
    }
}

/// Re-importing the datafile that the store already reflects (the stored
/// state is what importing it produced) plans no write for any game.
pub proof fn lemma_reimport_plan_unchanged(
    prior: Map<Seq<char>, GameRecord>,
    stored: Seq<StoredGame>,
    parsed: Seq<Game>,
    actions: Seq<GameAction>,
)
    requires
        names_distinct(views(parsed)),
        stored_state(stored) == imported(prior, views(parsed)),
        actions.len() == parsed.len(),
        forall|i: int| 0 <= i < parsed.len() ==> action_fits(stored, #[trigger] actions[i], parsed[i]),
    ensures
        forall|i: int| 0 <= i < parsed.len() ==> #[trigger] actions[i] is Unchanged,
{
    let vs = views(parsed);
    lemma_imported_holds(prior, vs);
    assert forall|i: int| 0 <= i < parsed.len() implies #[trigger] actions[i] is Unchanged by {
        assert(action_fits(stored, actions[i], parsed[i]));
        assert(vs[i] == game_view(parsed[i]));
        assert(imported(prior, vs)[vs[i].name] == next_record(prior, vs[i]));
        assert(parsed_names(vs).contains(vs[i].name));
    }
}

} // verus!
