//! Laws on what a `Library.xml` is read as.
use vstd::prelude::*;

use crate::library::{
    library_of, with_entry, with_playlist, LibraryFailure, LibraryModel, PlaylistEntry, TrackEntry,
};
use crate::numbers::{
    all_digits, decimal, decimal_reads_back, is_digit, parsed_number, unsigned_part,
};
use crate::playlist::PlaylistModel;
use crate::plist::{
    described_folder, described_library, described_playlist, described_playlists, described_tracks,
    layout_is_read, library_tokens, LibrarySource, PlaylistSource, PlistField, PlistValue,
    TrackSource,
};
use crate::track::{track_of_fields, TrackView};

verus! {

/// Whether a field is a string under a key.
pub open spec fn is_text_of(f: PlistField, key: Seq<char>) -> bool {
    f.key == key && f.value is Text
}

/// Whether a field is an integer under a key.
pub open spec fn is_integer_of(f: PlistField, key: Seq<char>) -> bool {
    f.key == key && f.value is Integer
}

/// Whether `v` is the last of the strings under a key.
pub open spec fn is_last_text(fields: Seq<PlistField>, key: Seq<char>, v: Seq<char>) -> bool {
    exists|i: int|
        0 <= i < fields.len() && (#[trigger] fields[i]).key == key && fields[i].value
            == PlistValue::Text(v) && forall|j: int|
            i < j < fields.len() ==> !is_text_of(#[trigger] fields[j], key)
}

/// Whether `v` is the last of the integers under a key.
pub open spec fn is_last_integer(fields: Seq<PlistField>, key: Seq<char>, v: Seq<char>) -> bool {
    exists|i: int|
        0 <= i < fields.len() && (#[trigger] fields[i]).key == key && fields[i].value
            == PlistValue::Integer(v) && forall|j: int|
            i < j < fields.len() ==> !is_integer_of(#[trigger] fields[j], key)
}

/// Whether there is no string under a key.
pub open spec fn has_no_text(fields: Seq<PlistField>, key: Seq<char>) -> bool {
    forall|i: int| 0 <= i < fields.len() ==> !is_text_of(#[trigger] fields[i], key)
}

/// Whether there is no integer under a key.
pub open spec fn has_no_integer(fields: Seq<PlistField>, key: Seq<char>) -> bool {
    forall|i: int| 0 <= i < fields.len() ==> !is_integer_of(#[trigger] fields[i], key)
}

/// The last field is the last of its kind, or changes nothing of what was the
/// last before it.
proof fn last_text_by_last(fields: Seq<PlistField>, key: Seq<char>, v: Seq<char>)
    requires
        fields.len() > 0,
        is_last_text(fields, key, v),
    ensures
        is_text_of(fields.last(), key) ==> fields.last().value == PlistValue::Text(v),
        !is_text_of(fields.last(), key) ==> is_last_text(fields.drop_last(), key, v),
{
    let i = choose|i: int|
        0 <= i < fields.len() && (#[trigger] fields[i]).key == key && fields[i].value
            == PlistValue::Text(v) && forall|j: int|
            i < j < fields.len() ==> !is_text_of(#[trigger] fields[j], key);
    let front = fields.drop_last();
    if i < front.len() {
        assert(!is_text_of(fields[fields.len() - 1], key));
        assert(front[i].key == key);
        assert forall|j: int| i < j < front.len() implies !is_text_of(#[trigger] front[j], key) by {
            assert(front[j] == fields[j]);
        }
    }
}

proof fn last_integer_by_last(fields: Seq<PlistField>, key: Seq<char>, v: Seq<char>)
    requires
        fields.len() > 0,
        is_last_integer(fields, key, v),
    ensures
        is_integer_of(fields.last(), key) ==> fields.last().value == PlistValue::Integer(v),
        !is_integer_of(fields.last(), key) ==> is_last_integer(fields.drop_last(), key, v),
{
    let i = choose|i: int|
        0 <= i < fields.len() && (#[trigger] fields[i]).key == key && fields[i].value
            == PlistValue::Integer(v) && forall|j: int|
            i < j < fields.len() ==> !is_integer_of(#[trigger] fields[j], key);
    let front = fields.drop_last();
    if i < front.len() {
        assert(!is_integer_of(fields[fields.len() - 1], key));
        assert(front[i].key == key);
        assert forall|j: int| i < j < front.len() implies !is_integer_of(
            #[trigger] front[j],
            key,
        ) by {
            assert(front[j] == fields[j]);
        }
    }
}

proof fn none_by_last(fields: Seq<PlistField>, key: Seq<char>)
    requires
        fields.len() > 0,
    ensures
        has_no_text(fields, key) ==> has_no_text(fields.drop_last(), key) && !is_text_of(
            fields.last(),
            key,
        ),
        has_no_integer(fields, key) ==> has_no_integer(fields.drop_last(), key) && !is_integer_of(
            fields.last(),
            key,
        ),
{
    let front = fields.drop_last();
    assert(is_text_of(fields[fields.len() - 1], key) == is_text_of(fields.last(), key));
    assert(is_integer_of(fields[fields.len() - 1], key) == is_integer_of(fields.last(), key));
    assert forall|i: int| 0 <= i < front.len() implies front[i] == #[trigger] fields[i] by {}
}

proof fn keys_differ()
    ensures
        "Name"@ != "Artist"@,
        "Name"@ != "Location"@,
        "Artist"@ != "Location"@,
{
    reveal_strlit("Name");
    reveal_strlit("Artist");
    reveal_strlit("Location");
    assert("Name"@.len() == 4);
    assert("Artist"@.len() == 6);
    assert("Location"@.len() == 8);
}

proof fn track_fields_by_last(e: TrackEntry, fields: Seq<PlistField>)
    requires
        fields.len() > 0,
    ensures
        e.with_fields(fields) == e.with_fields(fields.drop_last()).with_field(fields.last()),
    decreases fields.len(),
{
    let rest = fields.drop_first();
    if fields.len() > 1 {
        track_fields_by_last(e.with_field(fields[0]), rest);
        assert(rest.drop_last() =~= fields.drop_last().drop_first());
        assert(fields.drop_last()[0] == fields[0]);
    } else {
        assert(rest.len() == 0);
        assert(e.with_field(fields[0]).with_fields(rest) == e.with_field(fields[0]));
        assert(e.with_fields(fields.drop_last()) == e);
    }
}

/// The name, the artist and the location of a track are the strings under
/// `Name`, `Artist` and `Location`, the last of them where there are several,
/// whatever other fields the track has.
pub proof fn texts_of_a_track_are_read(fields: Seq<PlistField>, v: Seq<char>)
    ensures
        is_last_text(fields, "Name"@, v) ==> TrackEntry::empty().with_fields(fields).name == Some(
            v,
        ),
        is_last_text(fields, "Artist"@, v) ==> TrackEntry::empty().with_fields(fields).artist
            == Some(v),
        is_last_text(fields, "Location"@, v) ==> TrackEntry::empty().with_fields(fields).location
            == Some(v),
        has_no_text(fields, "Name"@) ==> TrackEntry::empty().with_fields(fields).name is None,
        has_no_text(fields, "Artist"@) ==> TrackEntry::empty().with_fields(fields).artist is None,
        has_no_text(fields, "Location"@) ==> TrackEntry::empty().with_fields(
            fields,
        ).location is None,
    decreases fields.len(),
{
    keys_differ();
    if fields.len() > 0 {
        track_fields_by_last(TrackEntry::empty(), fields);
        texts_of_a_track_are_read(fields.drop_last(), v);
        none_by_last(fields, "Name"@);
        none_by_last(fields, "Artist"@);
        none_by_last(fields, "Location"@);
        if is_last_text(fields, "Name"@, v) {
            last_text_by_last(fields, "Name"@, v);
        }
        if is_last_text(fields, "Artist"@, v) {
            last_text_by_last(fields, "Artist"@, v);
        }
        if is_last_text(fields, "Location"@, v) {
            last_text_by_last(fields, "Location"@, v);
        }
    }
}

/// The size of a track is the number under `Size`, the last where there are
/// several, whatever other integers the track has. A number that is too large,
/// or a text that is no number, is no size.
pub proof fn size_of_a_track_is_read(fields: Seq<PlistField>, v: Seq<char>, n: nat)
    ensures
        is_last_integer(fields, "Size"@, decimal(n)) && n <= u64::MAX
            ==> TrackEntry::empty().with_fields(fields).size == Some(n as u64),
        is_last_integer(fields, "Size"@, decimal(n)) && n > u64::MAX
            ==> TrackEntry::empty().with_fields(fields).size is None,
        is_last_integer(fields, "Size"@, v) && (v.len() == 0 || v.contains('-') || v.contains('.')
            || v.contains(' ')) ==> TrackEntry::empty().with_fields(fields).size is None,
        is_last_integer(fields, "Size"@, v) ==> TrackEntry::empty().with_fields(fields).size == (
        match parsed_number(v, u64::MAX as nat) {
            Some(m) => Some(m as u64),
            None => None::<u64>,
        }),
        has_no_integer(fields, "Size"@) ==> TrackEntry::empty().with_fields(fields).size is None,
    decreases fields.len(),
{
    if fields.len() > 0 {
        track_fields_by_last(TrackEntry::empty(), fields);
        size_of_a_track_is_read(fields.drop_last(), v, n);
        none_by_last(fields, "Size"@);
        decimal_reads_back(n);
        no_plus_sign(n);
        if is_last_integer(fields, "Size"@, decimal(n)) {
            last_integer_by_last(fields, "Size"@, decimal(n));
        }
        if is_last_integer(fields, "Size"@, v) {
            last_integer_by_last(fields, "Size"@, v);
            foreign_characters(v);
        }
    }
}

proof fn no_plus_sign(n: nat)
    ensures
        n > u64::MAX ==> parsed_number(decimal(n), u64::MAX as nat) is None,
{
    decimal_reads_back(n);
    let d = decimal(n);
    assert(is_digit(d[0]));
}

proof fn foreign_characters(v: Seq<char>)
    ensures
        v.len() == 0 || v.contains('-') || v.contains('.') || v.contains(' ') ==> parsed_number(
            v,
            u64::MAX as nat,
        ) is None,
{
    let d = unsigned_part(v);
    assert forall|c: char| c != '+' && v.contains(c) implies d.contains(c) by {
        let k = choose|k: int| 0 <= k < v.len() && v[k] == c;
        if d != v {
            assert(d[k - 1] == c);
        }
    }
    assert forall|c: char| !is_digit(c) && d.contains(c) implies !all_digits(d) by {
        let k = choose|k: int| 0 <= k < d.len() && d[k] == c;
        assert(!is_digit(d[k]));
    }
}

proof fn playlist_fields_by_last(e: PlaylistEntry, fields: Seq<PlistField>)
    requires
        fields.len() > 0,
    ensures
        e.with_fields(fields) == e.with_fields(fields.drop_last()).with_field(fields.last()),
    decreases fields.len(),
{
    let rest = fields.drop_first();
    if fields.len() > 1 {
        playlist_fields_by_last(e.with_field(fields[0]), rest);
        assert(rest.drop_last() =~= fields.drop_last().drop_first());
        assert(fields.drop_last()[0] == fields[0]);
    } else {
        assert(rest.len() == 0);
        assert(e.with_field(fields[0]).with_fields(rest) == e.with_field(fields[0]));
        assert(e.with_fields(fields.drop_last()) == e);
    }
}

/// The name of a playlist is the string under `Name`, and its ID is the
/// integer under `Playlist ID` as it is written, the last of each where there
/// are several.
pub proof fn fields_of_a_playlist_are_read(fields: Seq<PlistField>, v: Seq<char>)
    ensures
        is_last_text(fields, "Name"@, v) ==> PlaylistEntry::empty().with_fields(fields).name
            == Some(v),
        is_last_integer(fields, "Playlist ID"@, v) ==> PlaylistEntry::empty().with_fields(fields).id
            == Some(v),
        has_no_text(fields, "Name"@) ==> PlaylistEntry::empty().with_fields(fields).name is None,
        has_no_integer(fields, "Playlist ID"@) ==> PlaylistEntry::empty().with_fields(
            fields,
        ).id is None,
    decreases fields.len(),
{
    if fields.len() > 0 {
        playlist_fields_by_last(PlaylistEntry::empty(), fields);
        fields_of_a_playlist_are_read(fields.drop_last(), v);
        none_by_last(fields, "Name"@);
        none_by_last(fields, "Playlist ID"@);
        if is_last_text(fields, "Name"@, v) {
            last_text_by_last(fields, "Name"@, v);
        }
        if is_last_integer(fields, "Playlist ID"@, v) {
            last_integer_by_last(fields, "Playlist ID"@, v);
        }
    }
}

proof fn folder_by_last(folder: Option<Seq<char>>, fields: Seq<PlistField>)
    requires
        fields.len() > 0,
    ensures
        described_folder(folder, fields) == (if is_text_of(fields.last(), "Music Folder"@) {
            Some(fields.last().value->Text_0)
        } else {
            described_folder(folder, fields.drop_last())
        }),
    decreases fields.len(),
{
    let rest = fields.drop_first();
    let next = described_folder(folder, seq![fields[0]]);
    assert(seq![fields[0]].drop_first().len() == 0);
    if fields.len() > 1 {
        folder_by_last(
            if is_text_of(fields[0], "Music Folder"@) {
                Some(fields[0].value->Text_0)
            } else {
                folder
            },
            rest,
        );
        assert(rest.drop_last() =~= fields.drop_last().drop_first());
        assert(fields.drop_last()[0] == fields[0]);
    } else {
        assert(rest.len() == 0);
    }
}

proof fn folder_is_found(fields: Seq<PlistField>, v: Seq<char>)
    ensures
        is_last_text(fields, "Music Folder"@, v) ==> described_folder(None, fields) == Some(v),
        has_no_text(fields, "Music Folder"@) ==> described_folder(None, fields) is None,
    decreases fields.len(),
{
    if fields.len() > 0 {
        folder_by_last(None, fields);
        folder_is_found(fields.drop_last(), v);
        none_by_last(fields, "Music Folder"@);
        if is_last_text(fields, "Music Folder"@, v) {
            last_text_by_last(fields, "Music Folder"@, v);
        }
    }
}

/// The music folder of a library is the string under `Music Folder`. A
/// document without one is refused, and any other is read.
pub proof fn music_folder_is_read(
    lib: LibrarySource,
    folder: Seq<char>,
    root: Seq<char>,
    checked: Seq<Seq<char>>,
)
    requires
        lib.is_valid(),
    ensures
        is_last_text(lib.fields, "Music Folder"@, folder) ==> (library_of(
            library_tokens(lib),
            root,
            checked,
        ) matches Ok(r) && r.music_folder == folder),
        has_no_text(lib.fields, "Music Folder"@) ==> library_of(library_tokens(lib), root, checked)
            == Err::<LibraryModel, LibraryFailure>(LibraryFailure::NoMusicFolder),
{
    layout_is_read(lib, root, checked);
    folder_is_found(lib.fields, folder);
}

proof fn tracks_by_last(
    tracks: Map<Seq<char>, TrackView>,
    sources: Seq<TrackSource>,
    folder: Seq<char>,
    root: Seq<char>,
)
    requires
        sources.len() > 0,
    ensures
        described_tracks(tracks, sources, folder, root) == with_entry(
            described_tracks(tracks, sources.drop_last(), folder, root),
            sources.last().id,
            TrackEntry::empty().with_fields(sources.last().fields),
            folder,
            root,
        ),
    decreases sources.len(),
{
    let rest = sources.drop_first();
    let next = with_entry(
        tracks,
        sources[0].id,
        TrackEntry::empty().with_fields(sources[0].fields),
        folder,
        root,
    );
    if sources.len() > 1 {
        tracks_by_last(next, rest, folder, root);
        assert(rest.drop_last() =~= sources.drop_last().drop_first());
        assert(sources.drop_last()[0] == sources[0]);
    } else {
        assert(rest.len() == 0);
        assert(described_tracks(next, rest, folder, root) == next);
        assert(described_tracks(tracks, sources.drop_last(), folder, root) == tracks);
    }
}

proof fn track_is_described(
    sources: Seq<TrackSource>,
    k: int,
    folder: Seq<char>,
    root: Seq<char>,
)
    requires
        0 <= k < sources.len(),
        forall|j: int| k < j < sources.len() ==> (#[trigger] sources[j]).id != sources[k].id,
    ensures
        ({
            let e = TrackEntry::empty().with_fields(sources[k].fields);
            let tracks = described_tracks(Map::empty(), sources, folder, root);
            e.location matches Some(location) ==> tracks.contains_key(sources[k].id)
                && tracks[sources[k].id] == track_of_fields(
                sources[k].id,
                if e.name is Some {
                    e.name->0
                } else {
                    Seq::empty()
                },
                if e.artist is Some {
                    e.artist->0
                } else {
                    Seq::empty()
                },
                if e.size is Some {
                    e.size->0
                } else {
                    0
                },
                location,
                folder,
                root,
            )
        }),
    decreases sources.len(),
{
    tracks_by_last(Map::empty(), sources, folder, root);
    if k < sources.len() - 1 {
        let front = sources.drop_last();
        assert(sources[sources.len() - 1].id != sources[k].id);
        assert forall|j: int| k < j < front.len() implies (#[trigger] front[j]).id
            != front[k].id by {
            assert(front[j] == sources[j]);
        }
        track_is_described(front, k, folder, root);
    }
}

proof fn described_track_has_source(
    sources: Seq<TrackSource>,
    id: Seq<char>,
    folder: Seq<char>,
    root: Seq<char>,
)
    requires
        forall|j: int|
            0 <= j < sources.len() && (#[trigger] sources[j]).id == id ==> has_no_text(
                sources[j].fields,
                "Location"@,
            ),
    ensures
        !described_tracks(Map::empty(), sources, folder, root).contains_key(id),
    decreases sources.len(),
{
    if sources.len() > 0 {
        tracks_by_last(Map::empty(), sources, folder, root);
        let front = sources.drop_last();
        assert forall|j: int| 0 <= j < front.len() && (#[trigger] front[j]).id == id implies
            has_no_text(front[j].fields, "Location"@) by {
            assert(front[j] == sources[j]);
        }
        described_track_has_source(front, id, folder, root);
        if sources.last().id == id {
            assert(has_no_text(sources[sources.len() - 1].fields, "Location"@));
            texts_of_a_track_are_read(sources.last().fields, Seq::empty());
        }
    }
}

/// An entry of the `Tracks` dictionary with a location is a track with the
/// entry's ID, name, artist, size and location; where a name or an artist is
/// missing it is empty, and a missing size is 0. An entry without a location
/// is no track, and there are no other tracks.
pub proof fn tracks_are_read(
    lib: LibrarySource,
    folder: Seq<char>,
    root: Seq<char>,
    checked: Seq<Seq<char>>,
    k: int,
)
    requires
        lib.is_valid(),
        is_last_text(lib.fields, "Music Folder"@, folder),
    ensures
        library_of(library_tokens(lib), root, checked) matches Ok(r) && {
            &&& 0 <= k < lib.tracks.len() && (forall|j: int|
                k < j < lib.tracks.len() ==> (#[trigger] lib.tracks[j]).id != lib.tracks[k].id) ==> {
                let e = TrackEntry::empty().with_fields(lib.tracks[k].fields);
                e.location matches Some(location) ==> r.tracks.contains_key(lib.tracks[k].id)
                    && r.tracks[lib.tracks[k].id] == track_of_fields(
                    lib.tracks[k].id,
                    if e.name is Some {
                        e.name->0
                    } else {
                        Seq::empty()
                    },
                    if e.artist is Some {
                        e.artist->0
                    } else {
                        Seq::empty()
                    },
                    if e.size is Some {
                        e.size->0
                    } else {
                        0
                    },
                    location,
                    folder,
                    root,
                )
            }
            &&& forall|id: Seq<char>| #[trigger]
                r.tracks.contains_key(id) ==> exists|j: int|
                    0 <= j < lib.tracks.len() && (#[trigger] lib.tracks[j]).id == id
                        && !has_no_text(lib.tracks[j].fields, "Location"@)
        },
{
    layout_is_read(lib, root, checked);
    folder_is_found(lib.fields, folder);
    let r = described_library(lib, folder, root, checked);
    if 0 <= k < lib.tracks.len() && (forall|j: int|
        k < j < lib.tracks.len() ==> (#[trigger] lib.tracks[j]).id != lib.tracks[k].id) {
        track_is_described(lib.tracks, k, folder, root);
    }
    assert forall|id: Seq<char>| #[trigger] r.tracks.contains_key(id) implies exists|j: int|
        0 <= j < lib.tracks.len() && (#[trigger] lib.tracks[j]).id == id && !has_no_text(
            lib.tracks[j].fields,
            "Location"@,
        ) by {
        if !exists|j: int|
            0 <= j < lib.tracks.len() && (#[trigger] lib.tracks[j]).id == id && !has_no_text(
                lib.tracks[j].fields,
                "Location"@,
            ) {
            described_track_has_source(lib.tracks, id, folder, root);
        }
    }
}

proof fn playlists_by_last(
    playlists: Seq<PlaylistModel>,
    sources: Seq<PlaylistSource>,
    tracks: Map<Seq<char>, TrackView>,
    checked: Seq<Seq<char>>,
)
    requires
        sources.len() > 0,
    ensures
        described_playlists(playlists, sources, tracks, checked) == with_playlist(
            described_playlists(playlists, sources.drop_last(), tracks, checked),
            described_playlist(sources.last()).playlist(tracks, checked),
        ),
    decreases sources.len(),
{
    let rest = sources.drop_first();
    let next = with_playlist(
        playlists,
        described_playlist(sources[0]).playlist(tracks, checked),
    );
    if sources.len() > 1 {
        playlists_by_last(next, rest, tracks, checked);
        assert(rest.drop_last() =~= sources.drop_last().drop_first());
        assert(sources.drop_last()[0] == sources[0]);
    } else {
        assert(rest.len() == 0);
        assert(described_playlists(next, rest, tracks, checked) == next);
        assert(described_playlists(playlists, sources.drop_last(), tracks, checked) == playlists);
    }
}

/// An entry of the `Playlists` array adds a playlist behind those in front of
/// it, if it has a name, an ID and items: with the entry's name and ID, with
/// those of its items that are tracks, in order, and chosen where the choices
/// hold its ID or its name. Without one of the three it adds nothing. The
/// tracks do not depend on it.
pub proof fn playlists_are_read(
    lib: LibrarySource,
    p: PlaylistSource,
    folder: Seq<char>,
    root: Seq<char>,
    checked: Seq<Seq<char>>,
)
    requires
        lib.is_valid(),
        (LibrarySource { playlists: lib.playlists.push(p), ..lib }).is_valid(),
        is_last_text(lib.fields, "Music Folder"@, folder),
    ensures
        lib.playlists.len() == 0 ==> (library_of(library_tokens(lib), root, checked) matches Ok(r)
            && r.playlists.len() == 0),
        library_of(library_tokens(lib), root, checked) matches Ok(before) && library_of(
            library_tokens(LibrarySource { playlists: lib.playlists.push(p), ..lib }),
            root,
            checked,
        ) matches Ok(r) && {
            let e = PlaylistEntry::empty().with_fields(p.fields);
            &&& r.tracks == before.tracks
            &&& e.name is Some && e.id is Some && p.items is Some ==> r.playlists
                == before.playlists.push(
                PlaylistModel {
                    name: e.name->0,
                    playlist_id: e.id->0,
                    track_ids: p.items->0.filter(|t: Seq<char>| r.tracks.contains_key(t)),
                    checked: checked.contains(e.id->0) || checked.contains(e.name->0),
                },
            )
            &&& e.name is None || e.id is None || p.items is None ==> r.playlists
                == before.playlists
        },
{
    let more = LibrarySource { playlists: lib.playlists.push(p), ..lib };
    layout_is_read(lib, root, checked);
    layout_is_read(more, root, checked);
    folder_is_found(lib.fields, folder);
    let tracks = described_library(lib, folder, root, checked).tracks;
    playlists_by_last(Seq::empty(), more.playlists, tracks, checked);
    assert(more.playlists.drop_last() =~= lib.playlists);
}

} // verus!
