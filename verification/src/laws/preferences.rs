//! Laws on the user's choices and on the devices that are remembered.
use vstd::prelude::*;

use crate::choices::{
    action_of, flipped, imported, is_about, is_choice_of, is_chosen, name_of, playlist_names,
    saved_choices, settings_after_action, settings_after_forget, settings_after_toggle, toggled,
};
use crate::devices::{settings_after_pairing, settings_after_rename, with_recent, with_text};
use crate::laws::marks::chosen_playlists_are_the_marked_ones;
use crate::laws::scans::filter_of_both;
use crate::laws::shown::filter_members;
use crate::playlist::PlaylistModel;
use crate::settings::{
    first_true, initial_settings, is_checked, settings_source, PlaylistAction, RecentView,
    RememberedView, SettingsSource, SettingsView,
};
use crate::sync::checked_of;
use crate::views::playlist_ids;

verus! {

/// A choice that is turned round is that of the playlists with the ID; of the
/// others, and of anything else, nothing changes.
pub proof fn toggling_changes_one_choice(playlists: Seq<PlaylistModel>, id: Seq<char>, i: int)
    requires
        0 <= i < playlists.len(),
    ensures
        toggled(playlists, id).len() == playlists.len(),
        toggled(playlists, id)[i].checked == (playlists[i].checked != (playlists[i].playlist_id
            == id)),
        toggled(playlists, id)[i].playlist_id == playlists[i].playlist_id,
        toggled(playlists, id)[i].name == playlists[i].name,
        toggled(playlists, id)[i].track_ids == playlists[i].track_ids,
{
}

/// A playlist is chosen where the choices hold its ID or its name.
pub proof fn choices_name_playlists(ids: Seq<Seq<char>>, id: Seq<char>, name: Seq<char>)
    ensures
        is_checked(ids, id, name) == (ids.contains(id) || ids.contains(name)),
{
}

/// Whether a text is the ID or the name of a playlist.
pub open spec fn names_one(x: Seq<char>, playlists: Seq<PlaylistModel>) -> bool {
    exists|i: int|
        0 <= i < playlists.len() && ((#[trigger] playlists[i]).playlist_id == x
            || playlists[i].name == x)
}

/// The choices that are saved are the IDs of the chosen playlists of the
/// library and those of before that name no playlist of it.
pub proof fn saved_choices_are_exact(
    before: Seq<Seq<char>>,
    playlists: Seq<PlaylistModel>,
    x: Seq<char>,
)
    ensures
        saved_choices(before, playlists).contains(x) <==> (before.contains(x) && !names_one(
            x,
            playlists,
        )) || exists|i: int|
            0 <= i < playlists.len() && (#[trigger] playlists[i]).checked
                && playlists[i].playlist_id == x,
{
    let f = |choice: Seq<char>| !is_about(choice, playlists);
    let front = before.filter(f);
    let c = checked_of(playlists);
    let back = playlist_ids(c);
    let all = front + back;
    filter_members(before, f, x);
    about_is_naming(x, playlists);
    if all.contains(x) {
        let k = choose|k: int| 0 <= k < all.len() && all[k] == x;
        if k < front.len() {
            assert(front[k] == x);
            assert(front.contains(x));
        } else {
            let p = c[k - front.len()];
            assert(c.contains(p));
            chosen_playlists_are_the_marked_ones(playlists, p);
            let i = choose|i: int| 0 <= i < playlists.len() && playlists[i] == p;
            assert(playlists[i].checked && playlists[i].playlist_id == x);
        }
    }
    if front.contains(x) {
        let k = choose|k: int| 0 <= k < front.len() && front[k] == x;
        assert(all[k] == x);
    }
    if exists|i: int|
        0 <= i < playlists.len() && (#[trigger] playlists[i]).checked && playlists[i].playlist_id
            == x {
        let i = choose|i: int|
            0 <= i < playlists.len() && (#[trigger] playlists[i]).checked
                && playlists[i].playlist_id == x;
        assert(playlists.contains(playlists[i]));
        chosen_playlists_are_the_marked_ones(playlists, playlists[i]);
        let k = choose|k: int| 0 <= k < c.len() && c[k] == playlists[i];
        assert(back[k] == x);
        assert(all[front.len() + k] == x);
    }
}

/// The choices that stay come first, in their order, and then the IDs of the
/// chosen playlists in theirs.
pub proof fn saved_choices_keep_their_order(
    before: Seq<Seq<char>>,
    playlists: Seq<PlaylistModel>,
    p: PlaylistModel,
)
    ensures
        saved_choices(before, playlists) == before.filter(
            |x: Seq<char>| !names_one(x, playlists),
        ) + saved_choices(Seq::empty(), playlists),
        saved_choices(Seq::empty(), Seq::empty()).len() == 0,
        saved_choices(Seq::empty(), playlists.push(p)) == (if p.checked {
            saved_choices(Seq::empty(), playlists).push(p.playlist_id)
        } else {
            saved_choices(Seq::empty(), playlists)
        }),
{
    let none = Seq::<Seq<char>>::empty();
    let f = |choice: Seq<char>| !is_about(choice, playlists);
    let g = |choice: Seq<char>| !is_about(choice, playlists.push(p));
    let h = |choice: Seq<char>| !is_about(choice, Seq::<PlaylistModel>::empty());
    assert(none.filter(f) =~= none && none.filter(g) =~= none && none.filter(h) =~= none) by {
        reveal(Seq::filter);
    }
    assert forall|x: Seq<char>| #[trigger] f(x) == !names_one(x, playlists) by {
        about_is_naming(x, playlists);
    }
    assert(f =~= (|x: Seq<char>| !names_one(x, playlists)));
    chosen_playlists_are_the_marked_ones(playlists, p);
    let ids = playlist_ids(checked_of(playlists));
    assert(none + ids =~= ids);
    let more = playlist_ids(checked_of(playlists.push(p)));
    assert(none + more =~= more);
    if p.checked {
        assert(more =~= ids.push(p.playlist_id));
    }
}

proof fn about_is_naming(x: Seq<char>, playlists: Seq<PlaylistModel>)
    ensures
        is_about(x, playlists) == names_one(x, playlists),
{
    let ids = playlist_ids(playlists);
    let names = playlist_names(playlists);
    if ids.contains(x) {
        let k = choose|k: int| 0 <= k < ids.len() && ids[k] == x;
        assert(playlists[k].playlist_id == x);
    }
    if names.contains(x) {
        let k = choose|k: int| 0 <= k < names.len() && names[k] == x;
        assert(playlists[k].name == x);
    }
    if names_one(x, playlists) {
        let i = choose|i: int|
            0 <= i < playlists.len() && ((#[trigger] playlists[i]).playlist_id == x
                || playlists[i].name == x);
        assert(ids[i] == playlists[i].playlist_id);
        assert(names[i] == playlists[i].name);
    }
}

/// A playlist that is chosen is remembered with its name, and is to be kept on
/// the device when it is gone; one that is remembered already, or that is not
/// chosen, changes nothing of what is remembered. Beside the choices and what
/// is remembered no setting changes.
pub proof fn chosen_playlist_is_remembered(
    s: SettingsView,
    playlists: Seq<PlaylistModel>,
    i: int,
)
    requires
        0 <= i < playlists.len(),
        forall|j: int|
            0 <= j < playlists.len() && j != i ==> (#[trigger] playlists[j]).playlist_id
                != playlists[i].playlist_id,
    ensures
        ({
            let id = playlists[i].playlist_id;
            let after = settings_after_toggle(s, playlists, id);
            let known = exists|k: int|
                0 <= k < s.remembered_playlists.len() && (#[trigger] s.remembered_playlists[k]).id
                    == id;
            &&& playlists[i].checked && !known ==> after.remembered_playlists
                == s.remembered_playlists.push(
                RememberedView { id, name: playlists[i].name, action: PlaylistAction::Ignore },
            )
            &&& !playlists[i].checked || known ==> after.remembered_playlists
                == s.remembered_playlists
            &&& after.checked_playlist_ids == saved_choices(s.checked_playlist_ids, playlists)
            &&& after == (SettingsView {
                checked_playlist_ids: after.checked_playlist_ids,
                remembered_playlists: after.remembered_playlists,
                ..s
            })
        }),
{
    one_of_an_id(playlists, i);
}

/// Where a playlist's ID stands several times, the first of them tells whether
/// it is chosen and the last of them its name; an ID of no playlist changes
/// nothing of what is remembered.
pub proof fn first_choice_and_last_name_count(
    s: SettingsView,
    playlists: Seq<PlaylistModel>,
    p: PlaylistModel,
    id: Seq<char>,
)
    ensures
        name_of(playlists.push(p), id) == (if p.playlist_id == id {
            Some(p.name)
        } else {
            name_of(playlists, id)
        }),
        is_chosen(seq![p] + playlists, id) == (if p.playlist_id == id {
            p.checked
        } else {
            is_chosen(playlists, id)
        }),
        name_of(Seq::empty(), id) is None,
        !is_chosen(Seq::empty(), id),
        name_of(playlists, id) is None || !is_chosen(playlists, id) ==> settings_after_toggle(
            s,
            playlists,
            id,
        ).remembered_playlists == s.remembered_playlists,
{
    assert(playlists.push(p).drop_last() =~= playlists);
    assert((seq![p] + playlists).drop_first() =~= playlists);
}

proof fn one_of_an_id(playlists: Seq<PlaylistModel>, i: int)
    requires
        0 <= i < playlists.len(),
        forall|j: int|
            0 <= j < playlists.len() && j != i ==> (#[trigger] playlists[j]).playlist_id
                != playlists[i].playlist_id,
    ensures
        name_of(playlists, playlists[i].playlist_id) == Some(playlists[i].name),
        is_chosen(playlists, playlists[i].playlist_id) == playlists[i].checked,
    decreases playlists.len(),
{
    let n = playlists.len();
    if i < n - 1 {
        let front = playlists.drop_last();
        assert(playlists[n - 1].playlist_id != playlists[i].playlist_id);
        assert forall|j: int| 0 <= j < front.len() && j != i implies (#[trigger] front[j]).playlist_id
            != front[i].playlist_id by {
            assert(front[j] == playlists[j]);
        }
        one_of_an_id(front, i);
    }
    if i > 0 {
        let rest = playlists.drop_first();
        assert(playlists[0].playlist_id != playlists[i].playlist_id);
        assert forall|j: int| 0 <= j < rest.len() && j != i - 1 implies (
        #[trigger] rest[j]).playlist_id != rest[i - 1].playlist_id by {
            assert(rest[j] == playlists[j + 1]);
        }
        one_of_an_id(rest, i - 1);
        assert(rest[i - 1] == playlists[i]);
    }
}

/// Forgetting a playlist takes it from what is remembered, and its ID and its
/// remembered name from the choices, and nothing else from either.
pub proof fn forgetting_takes_one_playlist(
    s: SettingsView,
    id: Seq<char>,
    r: RememberedView,
    x: Seq<char>,
)
    ensures
        settings_after_forget(s, id).remembered_playlists.contains(r)
            <==> s.remembered_playlists.contains(r) && r.id != id,
        settings_after_forget(s, id).checked_playlist_ids.contains(x)
            <==> s.checked_playlist_ids.contains(x) && x != id && forall|k: int|
            0 <= k < s.remembered_playlists.len() && (#[trigger] s.remembered_playlists[k]).id == id
                ==> s.remembered_playlists[k].name != x,
        settings_after_forget(s, id) == (SettingsView {
            checked_playlist_ids: settings_after_forget(s, id).checked_playlist_ids,
            remembered_playlists: settings_after_forget(s, id).remembered_playlists,
            ..s
        }),
{
    filter_members(s.remembered_playlists, |r: RememberedView| r.id != id, r);
    filter_members(
        s.checked_playlist_ids,
        |x: Seq<char>| !is_choice_of(x, s.remembered_playlists, id),
        x,
    );
}

/// The action that is chosen for a playlist is that of the remembered
/// playlists with its ID; nothing else changes.
pub proof fn action_is_set_for_one_playlist(
    s: SettingsView,
    id: Seq<char>,
    action: PlaylistAction,
    i: int,
)
    ensures
        ({
            let after = settings_after_action(s, id, action);
            &&& after.remembered_playlists.len() == s.remembered_playlists.len()
            &&& 0 <= i < s.remembered_playlists.len() ==> ({
                let r = after.remembered_playlists[i];
                &&& r.id == s.remembered_playlists[i].id
                &&& r.name == s.remembered_playlists[i].name
                &&& r.action == (if r.id == id {
                    action
                } else {
                    s.remembered_playlists[i].action
                })
            })
            &&& after == (SettingsView { remembered_playlists: after.remembered_playlists, ..s })
        }),
{
}

/// The one request that has a playlist deleted is `delete`.
pub proof fn only_delete_deletes(text: Seq<char>)
    ensures
        (action_of(text) == PlaylistAction::Delete) == (text == "delete"@),
        (action_of(text) == PlaylistAction::Ignore) == (text != "delete"@),
{
}

/// Turning round whether a text is in a list adds it at the end, or takes its
/// first place out of the list, and leaves the rest in order.
pub proof fn flipping_is_exact(a: Seq<Seq<char>>, t: Seq<char>, b: Seq<Seq<char>>)
    requires
        !a.contains(t),
    ensures
        flipped(a, t) == a.push(t),
        flipped(a + seq![t] + b, t) == a + b,
{
    let v = a + seq![t] + b;
    assert(v[a.len() as int] == t);
    assert(v.contains(t));
    v.index_of_first_ensures(t);
    let i = v.index_of_first(t)->0;
    if i < a.len() {
        assert(a[i] == t);
    }
    assert(i == a.len());
    assert(v.remove(i) =~= a + b);
}

/// Imported choices follow those of before, in order, but for those that are
/// there already.
pub proof fn imported_choices_follow(ids: Seq<Seq<char>>, legacy: Seq<Seq<char>>, x: Seq<char>)
    ensures
        imported(ids, Seq::empty()) == ids,
        imported(ids, legacy.push(x)) == (if ids.contains(x) {
            imported(ids, legacy)
        } else {
            imported(ids, legacy).push(x)
        }),
{
    reveal(Seq::filter);
    let f = |y: Seq<char>| !ids.contains(y);
    assert(Seq::<Seq<char>>::empty().filter(f) =~= Seq::empty());
    assert(ids + Seq::<Seq<char>>::empty() =~= ids);
    assert(legacy.push(x).drop_last() =~= legacy);
    if !ids.contains(x) {
        assert(ids + legacy.filter(f).push(x) =~= imported(ids, legacy).push(x));
    }
}

/// A device that was seen comes first; the others follow in their order,
/// without an older entry of the same device, and ten are kept in all.
pub proof fn seen_device_comes_first(
    a: Seq<RecentView>,
    e: RecentView,
    b: Seq<RecentView>,
    d: RecentView,
)
    requires
        e.device_id == d.device_id,
    ensures
        (forall|i: int| 0 <= i < a.len() ==> (#[trigger] a[i]).device_id != d.device_id) && a.len()
            <= 9 ==> with_recent(a, d) == seq![d] + a,
        (forall|i: int| 0 <= i < a.len() ==> (#[trigger] a[i]).device_id != d.device_id) && a.len()
            > 9 ==> with_recent(a, d) == seq![d] + a.take(9),
        with_recent(a + seq![e] + b, d) == with_recent(a + b, d),
{
    let f = |x: RecentView| x.device_id != d.device_id;
    if forall|i: int| 0 <= i < a.len() ==> (#[trigger] a[i]).device_id != d.device_id {
        all_are_kept(a, f);
    }
    assert(a.filter(f) + Seq::<RecentView>::empty() =~= a.filter(f));
    filter_of_both(a, b, f);
    filter_of_both(a, seq![e], f);
    filter_of_both(a + seq![e], b, f);
    assert(seq![e].filter(f) =~= Seq::empty()) by {
        reveal(Seq::filter);
        assert(seq![e].drop_last() =~= Seq::empty());
        assert(Seq::<RecentView>::empty().filter(f).len() == 0);
    }
    let all = seq![d] + a;
    if a.len() > 9 {
        assert(all.take(10) =~= seq![d] + a.take(9));
    }
}

proof fn all_are_kept(v: Seq<RecentView>, f: spec_fn(RecentView) -> bool)
    requires
        forall|i: int| 0 <= i < v.len() ==> f(#[trigger] v[i]),
    ensures
        v.filter(f) == v,
    decreases v.len(),
{
    reveal(Seq::filter);
    if v.len() > 0 {
        assert(f(v[v.len() - 1]));
        let front = v.drop_last();
        assert forall|i: int| 0 <= i < front.len() implies f(#[trigger] front[i]) by {
            assert(front[i] == v[i]);
        }
        all_are_kept(front, f);
        assert(front.push(v.last()) =~= v);
    } else {
        assert(v.filter(f) =~= v);
    }
}

/// A device renames itself alone: the name is taken over from the paired
/// device, or from any where the ID of the paired one is not known, and is
/// told as new where it differs. Without an ID or a name nothing changes.
pub proof fn rename_is_that_of_the_paired_device(
    s: SettingsView,
    id: Seq<char>,
    name: Seq<char>,
)
    ensures
        ({
            let (after, changed) = settings_after_rename(s, id, name);
            let counts = id.len() > 0 && name.len() > 0 && (s.paired_device_id is None
                || s.paired_device_id == Some(id));
            &&& !counts ==> after == s && !changed
            &&& counts ==> after.paired_device_id == Some(id) && after.paired_device_name == Some(
                name,
            ) && changed == (s.paired_device_name != Some(name))
            &&& after == (SettingsView {
                paired_device_id: after.paired_device_id,
                paired_device_name: after.paired_device_name,
                ..s
            })
        }),
{
}

/// A pairing sets the token, the music root and the name of the device, and
/// its ID where it has one, and changes nothing else.
pub proof fn pairing_is_taken_over(
    s: SettingsView,
    token: Seq<char>,
    id: Seq<char>,
    name: Seq<char>,
    root: Seq<char>,
)
    ensures
        ({
            let after = settings_after_pairing(s, token, id, name, root);
            &&& after.device_token == Some(token)
            &&& after.ftp_path == Some(root)
            &&& after.paired_device_name == Some(name)
            &&& id.len() > 0 ==> after.paired_device_id == Some(id)
            &&& id.len() == 0 ==> after.paired_device_id == s.paired_device_id
            &&& after == (SettingsView {
                device_token: after.device_token,
                ftp_path: after.ftp_path,
                paired_device_name: after.paired_device_name,
                paired_device_id: after.paired_device_id,
                ..s
            })
        }),
{
}

/// A device that was turned down is listed once.
pub proof fn refused_device_is_listed_once(v: Seq<Seq<char>>, t: Seq<char>)
    ensures
        with_text(v, t).contains(t),
        v.contains(t) ==> with_text(v, t) == v,
        !v.contains(t) ==> with_text(v, t) == v.push(t),
{
    if !v.contains(t) {
        assert(v.push(t)[v.len() as int] == t);
    }
}

/// A first start has no choices, no devices and no wish to delete anything.
pub proof fn first_start_is_empty()
    ensures
        ({
            let s = initial_settings();
            &&& s.library_path is None
            &&& s.ftp_path is None
            &&& s.device_token is None
            &&& s.paired_device_name is None
            &&& s.paired_device_id is None
            &&& !s.delete_unused_songs
            &&& !s.verbose_logging
            &&& s.checked_playlist_ids.len() == 0
            &&& s.remembered_playlists.len() == 0
            &&& s.cleanup_playlist_ids.len() == 0
            &&& s.ignored_devices.len() == 0
            &&& s.ignored_device_ids.len() == 0
            &&& s.recent_devices.len() == 0
        }),
{
}

/// The settings come from the settings file where there is one, else from the
/// first of the older files that exists, else from nowhere.
pub proof fn settings_come_from_the_first_file(legacy: Seq<bool>, i: int)
    ensures
        settings_source(true, legacy) == SettingsSource::Current,
        0 <= i < legacy.len() && i <= usize::MAX && legacy[i] && (forall|j: int|
            0 <= j < i ==> !legacy[j]) ==> settings_source(false, legacy)
            == SettingsSource::Legacy(i as usize),
        (forall|j: int| 0 <= j < legacy.len() ==> !legacy[j]) ==> settings_source(false, legacy)
            == SettingsSource::Initial,
{
    if 0 <= i < legacy.len() && legacy[i] && (forall|j: int| 0 <= j < i ==> !legacy[j]) {
        assert(legacy.contains(true));
        let k = first_true(legacy);
        assert(0 <= k < legacy.len() && legacy[k] && forall|j: int| 0 <= j < k ==> !legacy[j]);
        assert(k == i);
    }
}

} // verus!
