//! What the user chooses: the playlists for the device, and what becomes of
//! those that are gone from the library.
use vstd::hash_set::StringHashSet;
use vstd::prelude::*;

use crate::library::{Library, LibraryModel};
use crate::matching::push_keeps_others;
use crate::playlist::{playlist_models, Playlist, PlaylistModel};
use crate::settings::{
    is_checked, remembered_views, PlaylistAction, RememberedPlaylist, RememberedView, Settings,
    SettingsView,
};
use crate::sync::checked_of;
use crate::text::{clone_texts, has_text, opt_text, same_text, texts};
use crate::views::{ids_of_playlists, playlist_ids};

verus! {

// ---------------------------------------------------------------------------
// Choosing playlists
// ---------------------------------------------------------------------------

/// The playlists with the choice of those with an ID turned round.
pub open spec fn toggled(playlists: Seq<PlaylistModel>, id: Seq<char>) -> Seq<PlaylistModel> {
    playlists.map_values(
        |p: PlaylistModel|
            if p.playlist_id == id {
                PlaylistModel { checked: !p.checked, ..p }
            } else {
                p
            },
    )
}

/// The name of the last playlist with an ID.
pub open spec fn name_of(playlists: Seq<PlaylistModel>, id: Seq<char>) -> Option<Seq<char>>
    decreases playlists.len(),
{
    if playlists.len() == 0 {
        None
    } else if playlists.last().playlist_id == id {
        Some(playlists.last().name)
    } else {
        name_of(playlists.drop_last(), id)
    }
}

/// Whether the first playlist with an ID is chosen.
pub open spec fn is_chosen(playlists: Seq<PlaylistModel>, id: Seq<char>) -> bool
    decreases playlists.len(),
{
    if playlists.len() == 0 {
        false
    } else if playlists[0].playlist_id == id {
        playlists[0].checked
    } else {
        is_chosen(playlists.drop_first(), id)
    }
}

/// Whether a playlist is remembered.
pub open spec fn is_remembered(remembered: Seq<RememberedView>, id: Seq<char>) -> bool {
    exists|i: int| 0 <= i < remembered.len() && (#[trigger] remembered[i]).id == id
}

/// The names of playlists.
pub open spec fn playlist_names(playlists: Seq<PlaylistModel>) -> Seq<Seq<char>> {
    playlists.map_values(|p: PlaylistModel| p.name)
}

/// Whether a choice is about a playlist, by its ID or by its name.
pub open spec fn is_about(choice: Seq<char>, playlists: Seq<PlaylistModel>) -> bool {
    playlist_ids(playlists).contains(choice) || playlist_names(playlists).contains(choice)
}

/// The choices that are saved: those that are about no playlist of the library
/// stay, so that a playlist that is back is chosen again; then come the chosen
/// playlists of the library, by their IDs.
pub open spec fn saved_choices(
    before: Seq<Seq<char>>,
    playlists: Seq<PlaylistModel>,
) -> Seq<Seq<char>> {
    before.filter(|choice: Seq<char>| !is_about(choice, playlists)) + playlist_ids(
        checked_of(playlists),
    )
}

/// The settings after the choice of a playlist was turned round. `playlists`
/// are those of the library, with the choice turned round. A playlist that is
/// chosen for the first time is remembered.
pub open spec fn settings_after_toggle(
    s: SettingsView,
    playlists: Seq<PlaylistModel>,
    id: Seq<char>,
) -> SettingsView {
    SettingsView {
        checked_playlist_ids: saved_choices(s.checked_playlist_ids, playlists),
        remembered_playlists: match name_of(playlists, id) {
            Some(name) => if is_chosen(playlists, id) && !is_remembered(
                s.remembered_playlists,
                id,
            ) {
                s.remembered_playlists.push(
                    RememberedView { id, name, action: PlaylistAction::Ignore },
                )
            } else {
                s.remembered_playlists
            },
            None => s.remembered_playlists,
        },
        ..s
    }
}

/// Turns round the choice of the playlists with an ID, and tells the name of
/// the last of them.
fn toggle_in(playlists: &mut Vec<Playlist>, id: &str) -> (name: Option<String>)
    ensures
        playlist_models(final(playlists)@) == toggled(playlist_models(old(playlists)@), id@),
        opt_text(name) == name_of(playlist_models(final(playlists)@), id@),
{
    let n: usize = playlists.len();
    let mut i: usize = 0;
    let mut name: Option<String> = None;
    let ghost before = playlist_models(playlists@);
    let ghost goal = toggled(before, id@);
    while i < n
        invariant
            n == playlists@.len(),
            n == before.len(),
            goal == toggled(before, id@),
            i <= n,
            forall|j: int| 0 <= j < i ==> (#[trigger] playlists@[j])@ == goal[j],
            forall|j: int| i <= j < n ==> (#[trigger] playlists@[j])@ == before[j],
            opt_text(name) == name_of(goal.take(i as int), id@),
        decreases n - i,
    {
        proof {
            assert(goal.take(i + 1).drop_last() =~= goal.take(i as int));
            assert(playlists@[i as int]@ == before[i as int]);
        }
        if same_text(playlists[i].playlist_id.as_str(), id) {
            let mut p: Playlist = playlists[i].clone();
            p.checked = !p.checked;
            name = Some(p.name.clone());
            assert(p@ == goal[i as int]);
            playlists.set(i, p);
        }
        i = i + 1;
    }
    proof {
        assert(playlist_models(playlists@) =~= goal);
        assert(goal.take(n as int) =~= goal);
    }
    name
}

/// Whether the first playlist with an ID is chosen.
fn first_is_chosen(playlists: &Vec<Playlist>, id: &str) -> (r: bool)
    ensures
        r == is_chosen(playlist_models(playlists@), id@),
{
    let n: usize = playlists.len();
    let mut i: usize = 0;
    let ghost all = playlist_models(playlists@);
    assert(all.skip(0) =~= all);
    while i < n
        invariant
            n == playlists@.len(),
            all == playlist_models(playlists@),
            i <= n,
            is_chosen(all.skip(i as int), id@) == is_chosen(all, id@),
        decreases n - i,
    {
        proof {
            assert(all.skip(i as int)[0] == playlists@[i as int]@);
            assert(all.skip(i as int).drop_first() =~= all.skip(i + 1));
        }
        if same_text(playlists[i].playlist_id.as_str(), id) {
            return playlists[i].checked;
        }
        i = i + 1;
    }
    false
}

/// The names of the playlists of a library.
fn names_of_playlists(playlists: &Vec<Playlist>) -> (r: StringHashSet)
    ensures
        forall|name: Seq<char>| #[trigger]
            r@.contains(name) <==> playlist_names(playlist_models(playlists@)).contains(name),
{
    let mut r = StringHashSet::new();
    let n: usize = playlists.len();
    let mut i: usize = 0;
    let ghost all = playlist_names(playlist_models(playlists@));
    while i < n
        invariant
            n == playlists@.len(),
            all == playlist_names(playlist_models(playlists@)),
            i <= n,
            forall|name: Seq<char>| #[trigger]
                r@.contains(name) <==> all.take(i as int).contains(name),
        decreases n - i,
    {
        let ghost had = r@;
        r.insert(playlists[i].name.clone());
        proof {
            let a = all.take(i as int);
            let x = all[i as int];
            assert(x == playlists@[i as int]@.name);
            assert(all.take(i + 1) =~= a.push(x));
            assert forall|name: Seq<char>| #[trigger] r@.contains(name) <==> all.take(
                i + 1,
            ).contains(name) by {
                assert(had.contains(name) <==> a.contains(name));
                if name == x {
                    assert(a.push(x)[a.len() as int] == name);
                } else {
                    push_keeps_others(a, x, name);
                }
            }
        }
        i = i + 1;
    }
    assert(all.take(n as int) =~= all);
    r
}

/// The choices that are saved.
fn choices_to_save(before: &Vec<String>, playlists: &Vec<Playlist>) -> (r: Vec<String>)
    ensures
        texts(r@) == saved_choices(texts(before@), playlist_models(playlists@)),
{
    let ids: StringHashSet = ids_of_playlists(playlists);
    let names: StringHashSet = names_of_playlists(playlists);
    let mut r: Vec<String> = Vec::new();
    let n: usize = before.len();
    let mut i: usize = 0;
    let ghost all = texts(before@);
    let ghost pls = playlist_models(playlists@);
    let ghost keep = |choice: Seq<char>| !is_about(choice, pls);
    proof {
        reveal(Seq::filter);
        assert(texts(r@) =~= all.take(0).filter(keep));
    }
    while i < n
        invariant
            n == before@.len(),
            all == texts(before@),
            keep == (|choice: Seq<char>| !is_about(choice, pls)),
            i <= n,
            forall|id: Seq<char>| #[trigger]
                ids@.contains(id) <==> playlist_ids(pls).contains(id),
            forall|name: Seq<char>| #[trigger]
                names@.contains(name) <==> playlist_names(pls).contains(name),
            texts(r@) == all.take(i as int).filter(keep),
        decreases n - i,
    {
        let ghost had = texts(r@);
        let ghost id = before@[i as int]@;
        proof {
            reveal(Seq::filter);
            assert(all.take(i + 1).drop_last() =~= all.take(i as int));
            assert(all.take(i + 1).last() == id);
            assert(ids@.contains(id) <==> playlist_ids(pls).contains(id));
            assert(names@.contains(id) <==> playlist_names(pls).contains(id));
        }
        if !ids.contains(before[i].as_str()) && !names.contains(before[i].as_str()) {
            r.push(before[i].clone());
            assert(texts(r@) =~= had.push(id));
        }
        i = i + 1;
    }
    let ghost front = texts(r@);
    let m: usize = playlists.len();
    let mut j: usize = 0;
    let ghost chosen = |p: PlaylistModel| p.checked;
    proof {
        reveal(Seq::filter);
        assert(all.take(n as int) =~= all);
        assert(front + playlist_ids(pls.take(0).filter(chosen)) =~= front);
    }
    while j < m
        invariant
            m == playlists@.len(),
            pls == playlist_models(playlists@),
            chosen == (|p: PlaylistModel| p.checked),
            j <= m,
            texts(r@) == front + playlist_ids(pls.take(j as int).filter(chosen)),
        decreases m - j,
    {
        let ghost had = texts(r@);
        let ghost kept = pls.take(j as int).filter(chosen);
        let ghost p = playlists@[j as int]@;
        proof {
            reveal(Seq::filter);
            assert(pls.take(j + 1).drop_last() =~= pls.take(j as int));
            assert(pls.take(j + 1).last() == p);
        }
        if playlists[j].checked {
            r.push(playlists[j].playlist_id.clone());
            proof {
                assert(texts(r@) =~= had.push(p.playlist_id));
                assert(front + playlist_ids(kept.push(p)) =~= had.push(p.playlist_id));
            }
        }
        j = j + 1;
    }
    assert(pls.take(m as int) =~= pls);
    r
}

/// Whether a playlist is remembered.
fn remembers(v: &Vec<RememberedPlaylist>, id: &str) -> (r: bool)
    ensures
        r == is_remembered(remembered_views(v@), id@),
{
    let n: usize = v.len();
    let mut i: usize = 0;
    let ghost all = remembered_views(v@);
    while i < n
        invariant
            n == v@.len(),
            all == remembered_views(v@),
            i <= n,
            forall|j: int| 0 <= j < i ==> (#[trigger] all[j]).id != id@,
        decreases n - i,
    {
        assert(all[i as int] == v@[i as int]@);
        if same_text(v[i].id.as_str(), id) {
            return true;
        }
        i = i + 1;
    }
    false
}

/// Turns round the choice of a playlist.
pub fn toggle_playlist(lib: &mut Library, settings: &mut Settings, playlist_id: &str)
    ensures
        final(lib)@ == (LibraryModel {
            playlists: toggled(old(lib)@.playlists, playlist_id@),
            ..old(lib)@
        }),
        final(settings)@ == settings_after_toggle(
            old(settings)@,
            final(lib)@.playlists,
            playlist_id@,
        ),
{
    let name: Option<String> = toggle_in(&mut lib.playlists, playlist_id);
    let chosen: bool = first_is_chosen(&lib.playlists, playlist_id);
    let choices: Vec<String> = choices_to_save(&settings.checked_playlist_ids, &lib.playlists);
    settings.checked_playlist_ids = choices;
    if chosen {
        if let Some(name) = name {
            if !remembers(&settings.remembered_playlists, playlist_id) {
                let ghost had = remembered_views(settings.remembered_playlists@);
                let r = RememberedPlaylist {
                    id: playlist_id.to_owned(),
                    name,
                    action: PlaylistAction::Ignore,
                };
                let ghost rv = r@;
                settings.remembered_playlists.push(r);
                assert(remembered_views(settings.remembered_playlists@) =~= had.push(rv));
            }
        }
    }
    proof {
        assert(settings@ =~= settings_after_toggle(
            old(settings)@,
            lib@.playlists,
            playlist_id@,
        ));
    }
}

/// Turning the choice of a playlist round twice leaves the playlists as they
/// were.
pub proof fn toggling_twice_restores(playlists: Seq<PlaylistModel>, id: Seq<char>)
    ensures
        toggled(toggled(playlists, id), id) == playlists,
{
    assert(toggled(toggled(playlists, id), id) =~= playlists);
}

/// A playlist that is chosen is chosen again when the library is read again
/// with the settings that were saved.
pub proof fn saved_choice_is_read_again(
    before: Seq<Seq<char>>,
    playlists: Seq<PlaylistModel>,
    i: int,
)
    requires
        0 <= i < playlists.len(),
        playlists[i].checked,
    ensures
        is_checked(
            saved_choices(before, playlists),
            playlists[i].playlist_id,
            playlists[i].name,
        ),
{
    let chosen = |p: PlaylistModel| p.checked;
    let p = playlists[i];
    playlists.lemma_filter_contains(chosen, i);
    let checked = checked_of(playlists);
    assert(checked.contains(p));
    let k = choose|k: int| 0 <= k < checked.len() && checked[k] == p;
    let ids = playlist_ids(checked);
    assert(ids[k] == p.playlist_id);
    let front = before.filter(|choice: Seq<char>| !is_about(choice, playlists));
    assert(saved_choices(before, playlists)[front.len() + k] == p.playlist_id);
}

/// A choice that is about no playlist of the library is not lost.
pub proof fn absent_choice_is_kept(
    before: Seq<Seq<char>>,
    playlists: Seq<PlaylistModel>,
    i: int,
)
    requires
        0 <= i < before.len(),
        !is_about(before[i], playlists),
    ensures
        saved_choices(before, playlists).contains(before[i]),
{
    let keep = |choice: Seq<char>| !is_about(choice, playlists);
    before.lemma_filter_contains(keep, i);
    let front = before.filter(keep);
    let k = choose|k: int| 0 <= k < front.len() && front[k] == before[i];
    assert(saved_choices(before, playlists)[k] == before[i]);
}

/// A playlist of the library that is not chosen is not chosen in what is saved
/// either, unless its ID or its name is also the ID of a chosen one.
pub proof fn unchosen_playlist_stays_unchosen(
    before: Seq<Seq<char>>,
    playlists: Seq<PlaylistModel>,
    i: int,
)
    requires
        0 <= i < playlists.len(),
        forall|j: int|
            0 <= j < playlists.len() && (#[trigger] playlists[j]).checked
                ==> playlists[j].playlist_id != playlists[i].playlist_id
                && playlists[j].playlist_id != playlists[i].name,
    ensures
        !is_checked(
            saved_choices(before, playlists),
            playlists[i].playlist_id,
            playlists[i].name,
        ),
{
    let keep = |choice: Seq<char>| !is_about(choice, playlists);
    let chosen = |p: PlaylistModel| p.checked;
    let p = playlists[i];
    let front = before.filter(keep);
    let checked = checked_of(playlists);
    let saved = saved_choices(before, playlists);
    assert(playlist_ids(playlists)[i] == p.playlist_id);
    assert(playlist_names(playlists)[i] == p.name);
    assert forall|k: int| 0 <= k < saved.len() implies #[trigger] saved[k] != p.playlist_id
        && saved[k] != p.name by {
        if k < front.len() {
            before.lemma_filter_pred(keep, k);
            assert(saved[k] == front[k]);
        } else {
            let q = checked[k - front.len()];
            assert(saved[k] == q.playlist_id);
            playlists.lemma_filter_pred(chosen, k - front.len());
            playlists.lemma_filter_contains_rev(chosen, q);
            let j = choose|j: int| 0 <= j < playlists.len() && playlists[j] == q;
            assert(playlists[j].checked);
        }
    }
}

// ---------------------------------------------------------------------------
// Playlists that are gone
// ---------------------------------------------------------------------------

/// Whether a playlist is remembered with a name.
pub open spec fn is_remembered_as(
    remembered: Seq<RememberedView>,
    id: Seq<char>,
    name: Seq<char>,
) -> bool {
    exists|i: int|
        0 <= i < remembered.len() && (#[trigger] remembered[i]).id == id && remembered[i].name
            == name
}

/// Whether a choice is one of a remembered playlist, by its ID or by its name.
pub open spec fn is_choice_of(
    choice: Seq<char>,
    remembered: Seq<RememberedView>,
    id: Seq<char>,
) -> bool {
    choice == id || is_remembered_as(remembered, id, choice)
}

/// The settings after a playlist was forgotten: it is no longer remembered, and
/// neither its ID nor the name that it was remembered with is a choice.
pub open spec fn settings_after_forget(s: SettingsView, id: Seq<char>) -> SettingsView {
    SettingsView {
        checked_playlist_ids: s.checked_playlist_ids.filter(
            |x: Seq<char>| !is_choice_of(x, s.remembered_playlists, id),
        ),
        remembered_playlists: s.remembered_playlists.filter(|r: RememberedView| r.id != id),
        ..s
    }
}

/// What an action is called in a request.
pub open spec fn action_of(text: Seq<char>) -> PlaylistAction {
    if text == "delete"@ {
        PlaylistAction::Delete
    } else {
        PlaylistAction::Ignore
    }
}

/// The settings after the action for a playlist was chosen.
pub open spec fn settings_after_action(
    s: SettingsView,
    id: Seq<char>,
    action: PlaylistAction,
) -> SettingsView {
    SettingsView {
        remembered_playlists: s.remembered_playlists.map_values(
            |r: RememberedView|
                if r.id == id {
                    RememberedView { action, ..r }
                } else {
                    r
                },
        ),
        ..s
    }
}

/// Whether a playlist is remembered with a name.
fn remembers_as(v: &Vec<RememberedPlaylist>, id: &str, name: &str) -> (r: bool)
    ensures
        r == is_remembered_as(remembered_views(v@), id@, name@),
{
    let n: usize = v.len();
    let mut i: usize = 0;
    let ghost all = remembered_views(v@);
    while i < n
        invariant
            n == v@.len(),
            all == remembered_views(v@),
            i <= n,
            forall|j: int|
                0 <= j < i ==> (#[trigger] all[j]).id != id@ || all[j].name != name@,
        decreases n - i,
    {
        assert(all[i as int] == v@[i as int]@);
        if same_text(v[i].id.as_str(), id) && same_text(v[i].name.as_str(), name) {
            return true;
        }
        i = i + 1;
    }
    false
}

/// The choices without those of a remembered playlist.
fn choices_without(
    v: &Vec<String>,
    remembered: &Vec<RememberedPlaylist>,
    id: &str,
) -> (r: Vec<String>)
    ensures
        texts(r@) == texts(v@).filter(
            |x: Seq<char>| !is_choice_of(x, remembered_views(remembered@), id@),
        ),
{
    let mut r: Vec<String> = Vec::new();
    let n: usize = v.len();
    let mut i: usize = 0;
    let ghost all = texts(v@);
    let ghost rv = remembered_views(remembered@);
    let ghost keep = |x: Seq<char>| !is_choice_of(x, rv, id@);
    proof {
        reveal(Seq::filter);
        assert(texts(r@) =~= all.take(0).filter(keep));
    }
    while i < n
        invariant
            n == v@.len(),
            all == texts(v@),
            rv == remembered_views(remembered@),
            keep == (|x: Seq<char>| !is_choice_of(x, rv, id@)),
            i <= n,
            texts(r@) == all.take(i as int).filter(keep),
        decreases n - i,
    {
        let ghost had = texts(r@);
        proof {
            reveal(Seq::filter);
            assert(all.take(i + 1).drop_last() =~= all.take(i as int));
            assert(all.take(i + 1).last() == v@[i as int]@);
        }
        let choice: &str = v[i].as_str();
        if !same_text(choice, id) && !remembers_as(remembered, id, choice) {
            r.push(v[i].clone());
            assert(texts(r@) =~= had.push(v@[i as int]@));
        }
        i = i + 1;
    }
    assert(all.take(n as int) =~= all);
    r
}

impl Settings {
    /// Forgets a playlist: it is neither chosen, by its ID or by its name, nor
    /// remembered any more.
    pub fn forget_playlist(&mut self, playlist_id: &str)
        ensures
            final(self)@ == settings_after_forget(old(self)@, playlist_id@),
    {
        let ids: Vec<String> = choices_without(
            &self.checked_playlist_ids,
            &self.remembered_playlists,
            playlist_id,
        );
        self.checked_playlist_ids = ids;
        let mut kept: Vec<RememberedPlaylist> = Vec::new();
        let n: usize = self.remembered_playlists.len();
        let mut i: usize = 0;
        let ghost all = remembered_views(self.remembered_playlists@);
        let ghost keep = |r: RememberedView| r.id != playlist_id@;
        proof {
            reveal(Seq::filter);
            assert(remembered_views(kept@) =~= all.take(0).filter(keep));
        }
        while i < n
            invariant
                n == self.remembered_playlists@.len(),
                all == remembered_views(self.remembered_playlists@),
                keep == (|r: RememberedView| r.id != playlist_id@),
                i <= n,
                remembered_views(kept@) == all.take(i as int).filter(keep),
            decreases n - i,
        {
            let ghost had = remembered_views(kept@);
            let c: RememberedPlaylist = self.remembered_playlists[i].clone();
            let ghost cv = c@;
            proof {
                reveal(Seq::filter);
                assert(all.take(i + 1).drop_last() =~= all.take(i as int));
                assert(all.take(i + 1).last() == cv);
            }
            if !same_text(c.id.as_str(), playlist_id) {
                kept.push(c);
                assert(remembered_views(kept@) =~= had.push(cv));
            }
            i = i + 1;
        }
        assert(all.take(n as int) =~= all);
        self.remembered_playlists = kept;
        assert(self@ =~= settings_after_forget(old(self)@, playlist_id@));
    }

    /// Chooses what a sync does about a playlist that is gone: `delete` deletes
    /// its file, anything else leaves it.
    pub fn set_playlist_action(&mut self, playlist_id: &str, action: &str)
        ensures
            final(self)@ == settings_after_action(
                old(self)@,
                playlist_id@,
                action_of(action@),
            ),
    {
        let a: PlaylistAction = if same_text(action, "delete") {
            PlaylistAction::Delete
        } else {
            PlaylistAction::Ignore
        };
        let n: usize = self.remembered_playlists.len();
        let mut i: usize = 0;
        let mut changed: Vec<RememberedPlaylist> = Vec::new();
        let ghost goal = settings_after_action(old(self)@, playlist_id@, a).remembered_playlists;
        assert(remembered_views(changed@) =~= goal.take(0));
        while i < n
            invariant
                n == self.remembered_playlists@.len(),
                *self == *old(self),
                goal == settings_after_action(old(self)@, playlist_id@, a).remembered_playlists,
                i <= n,
                remembered_views(changed@) == goal.take(i as int),
            decreases n - i,
        {
            let ghost had = remembered_views(changed@);
            let mut c: RememberedPlaylist = self.remembered_playlists[i].clone();
            if same_text(c.id.as_str(), playlist_id) {
                c.action = a;
            }
            let ghost cv = c@;
            changed.push(c);
            proof {
                assert(goal[i as int] == cv);
                assert(remembered_views(changed@) =~= had.push(cv));
                assert(goal.take(i + 1) =~= had.push(cv));
            }
            i = i + 1;
        }
        assert(goal.take(n as int) =~= goal);
        self.remembered_playlists = changed;
        assert(self@ =~= settings_after_action(old(self)@, playlist_id@, a));
    }
}

/// A playlist that was forgotten is not remembered, and is not chosen, neither
/// by its ID nor by a name that it was remembered with.
pub proof fn forgotten_playlist_is_gone(s: SettingsView, id: Seq<char>, name: Seq<char>)
    requires
        is_remembered_as(s.remembered_playlists, id, name),
    ensures
        !is_checked(settings_after_forget(s, id).checked_playlist_ids, id, name),
        !is_remembered(settings_after_forget(s, id).remembered_playlists, id),
{
    let keep = |x: Seq<char>| !is_choice_of(x, s.remembered_playlists, id);
    let ids = s.checked_playlist_ids.filter(keep);
    assert forall|k: int| 0 <= k < ids.len() implies #[trigger] ids[k] != id && ids[k]
        != name by {
        s.checked_playlist_ids.lemma_filter_pred(keep, k);
    }
    forgotten_id_is_gone(s, id);
}

/// An ID that was forgotten is neither a choice nor remembered, whether or not
/// it was remembered before.
pub proof fn forgotten_id_is_gone(s: SettingsView, id: Seq<char>)
    ensures
        !settings_after_forget(s, id).checked_playlist_ids.contains(id),
        !is_remembered(settings_after_forget(s, id).remembered_playlists, id),
{
    let keep = |x: Seq<char>| !is_choice_of(x, s.remembered_playlists, id);
    let ids = s.checked_playlist_ids.filter(keep);
    if ids.contains(id) {
        let k = choose|k: int| 0 <= k < ids.len() && ids[k] == id;
        s.checked_playlist_ids.lemma_filter_pred(keep, k);
    }
    let keep_r = |r: RememberedView| r.id != id;
    let rs = s.remembered_playlists.filter(keep_r);
    if is_remembered(rs, id) {
        let k = choose|k: int| 0 <= k < rs.len() && (#[trigger] rs[k]).id == id;
        s.remembered_playlists.lemma_filter_pred(keep_r, k);
    }
}

// ---------------------------------------------------------------------------
// Cleaning up, and settings of another installation
// ---------------------------------------------------------------------------

/// A list without the first place of a text that it has, or with a text that
/// it has not.
pub open spec fn flipped(v: Seq<Seq<char>>, t: Seq<char>) -> Seq<Seq<char>> {
    if v.contains(t) {
        v.remove(v.index_of_first(t)->0)
    } else {
        v.push(t)
    }
}

/// The choices with those of another installation that are new.
pub open spec fn imported(ids: Seq<Seq<char>>, legacy: Seq<Seq<char>>) -> Seq<Seq<char>> {
    ids + legacy.filter(|x: Seq<char>| !ids.contains(x))
}

impl Settings {
    /// Turns round whether the tracks of a playlist are deleted from the
    /// device.
    pub fn toggle_cleanup_playlist(&mut self, playlist_id: String)
        ensures
            final(self)@ == (SettingsView {
                cleanup_playlist_ids: flipped(
                    old(self)@.cleanup_playlist_ids,
                    playlist_id@,
                ),
                ..old(self)@
            }),
    {
        let n: usize = self.cleanup_playlist_ids.len();
        let mut i: usize = 0;
        let ghost all = texts(self.cleanup_playlist_ids@);
        while i < n && !same_text(self.cleanup_playlist_ids[i].as_str(), playlist_id.as_str())
            invariant
                n == self.cleanup_playlist_ids@.len(),
                *self == *old(self),
                all == texts(self.cleanup_playlist_ids@),
                i <= n,
                forall|j: int| 0 <= j < i ==> all[j] != playlist_id@,
            decreases n - i,
        {
            assert(all[i as int] == self.cleanup_playlist_ids@[i as int]@);
            i = i + 1;
        }
        proof {
            all.index_of_first_ensures(playlist_id@);
        }
        if i < n {
            assert(all[i as int] == playlist_id@);
            self.cleanup_playlist_ids.remove(i);
            assert(texts(self.cleanup_playlist_ids@) =~= all.remove(i as int));
        } else {
            let ghost idv = playlist_id@;
            self.cleanup_playlist_ids.push(playlist_id);
            assert(texts(self.cleanup_playlist_ids@) =~= all.push(idv));
        }
    }

    /// Takes over the choices of another installation, and tells how many are
    /// new.
    pub fn import_checked_ids(&mut self, legacy: &Vec<String>) -> (n: usize)
        ensures
            final(self)@ == (SettingsView {
                checked_playlist_ids: imported(
                    old(self)@.checked_playlist_ids,
                    texts(legacy@),
                ),
                ..old(self)@
            }),
            n == final(self)@.checked_playlist_ids.len() - old(self)@.checked_playlist_ids.len(),
    {
        let existing: Vec<String> = clone_texts(&self.checked_playlist_ids);
        let mut count: usize = 0;
        let m: usize = legacy.len();
        let mut i: usize = 0;
        let ghost ids = texts(existing@);
        let ghost all = texts(legacy@);
        let ghost keep = |x: Seq<char>| !ids.contains(x);
        proof {
            reveal(Seq::filter);
            assert(texts(self.checked_playlist_ids@) =~= ids + all.take(0).filter(keep));
        }
        while i < m
            invariant
                m == legacy@.len(),
                ids == texts(existing@),
                ids == old(self)@.checked_playlist_ids,
                all == texts(legacy@),
                keep == (|x: Seq<char>| !ids.contains(x)),
                count <= i <= m,
                count == all.take(i as int).filter(keep).len(),
                texts(self.checked_playlist_ids@) == ids + all.take(i as int).filter(keep),
                self@ == (SettingsView {
                    checked_playlist_ids: self@.checked_playlist_ids,
                    ..old(self)@
                }),
            decreases m - i,
        {
            let ghost had = texts(self.checked_playlist_ids@);
            let ghost x = legacy@[i as int]@;
            let ghost kept = all.take(i as int).filter(keep);
            proof {
                reveal(Seq::filter);
                assert(all.take(i + 1).drop_last() =~= all.take(i as int));
                assert(all.take(i + 1).last() == x);
            }
            if !has_text(&existing, legacy[i].as_str()) {
                self.checked_playlist_ids.push(legacy[i].clone());
                count = count + 1;
                proof {
                    assert(texts(self.checked_playlist_ids@) =~= had.push(x));
                    assert(ids + kept.push(x) =~= had.push(x));
                }
            }
            i = i + 1;
        }
        proof {
            assert(all.take(m as int) =~= all);
            assert(self@ =~= (SettingsView {
                checked_playlist_ids: imported(ids, all),
                ..old(self)@
            }));
        }
        count
    }
}

/// Turning round whether a playlist is cleaned up turns round whether the list
/// has it, and leaves the others alone.
pub proof fn flipping_turns_round(v: Seq<Seq<char>>, t: Seq<char>, x: Seq<char>)
    requires
        v.no_duplicates(),
    ensures
        flipped(v, t).no_duplicates(),
        flipped(v, t).contains(t) == !v.contains(t),
        x != t ==> flipped(v, t).contains(x) == v.contains(x),
{
    v.index_of_first_ensures(t);
    let w = flipped(v, t);
    if v.contains(t) {
        let i = v.index_of_first(t)->0;
        assert forall|j: int| 0 <= j < w.len() implies #[trigger] w[j] == (if j < i {
            v[j]
        } else {
            v[j + 1]
        }) by {}
        if w.contains(t) {
            let j = choose|j: int| 0 <= j < w.len() && w[j] == t;
            assert(false);
        }
        if w.contains(x) {
            let j = choose|j: int| 0 <= j < w.len() && w[j] == x;
            assert(v.contains(w[j]));
        }
        if x != t && v.contains(x) {
            let j = choose|j: int| 0 <= j < v.len() && v[j] == x;
            if j < i {
                assert(w[j] == x);
            } else {
                assert(w[j - 1] == x);
            }
        }
    } else {
        assert(w[v.len() as int] == t);
        if w.contains(x) && x != t {
            let j = choose|j: int| 0 <= j < w.len() && w[j] == x;
            assert(v[j] == x);
        }
        if v.contains(x) {
            let j = choose|j: int| 0 <= j < v.len() && v[j] == x;
            assert(w[j] == x);
        }
    }
}

} // verus!
