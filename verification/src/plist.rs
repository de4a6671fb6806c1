//! The layout of a `Library.xml` as a list of events, and the laws that a
//! document of that layout is read as the library that it describes, and that
//! every library that is read is consistent.
use vstd::prelude::*;

use crate::library::{
    document, element_text, item_entries, item_entry, library_of, playlist_entries, playlist_entry,
    skipped_element, text_or_empty, track_entries, track_entry, with_entry, with_playlist,
    DocumentState, LibraryFailure, LibraryModel, PlaylistEntry, TrackEntry,
};
use crate::library::{
    element_text_takes, playlist_entries_takes, playlist_entry_takes, skipped_element_takes,
    track_entries_takes, track_entry_takes,
};
use crate::playlist::PlaylistModel;
use crate::settings::is_checked;
use crate::text::{has_prefix, trimmed_end};
use crate::track::{device_relative, path_joined, TrackView};
use crate::xml::XmlToken;

verus! {

// ---------------------------------------------------------------------------
// The layout
// ---------------------------------------------------------------------------

/// A value of a dictionary that is no dictionary and no array.
pub enum PlistValue {
    /// `<string>v</string>`
    Text(Seq<char>),
    /// `<integer>v</integer>`
    Integer(Seq<char>),
    /// `<tag>v</tag>`, with another tag, such as `date` or `data`
    Scalar(Seq<char>, Seq<char>),
    /// `<true/>` or `<false/>`
    Flag,
}

/// A key of a dictionary and its value.
pub struct PlistField {
    pub key: Seq<char>,
    pub value: PlistValue,
}

/// Whether a tag is none of those that have a meaning.
pub open spec fn is_plain_tag(tag: Seq<char>) -> bool {
    &&& tag != "plist"@
    &&& tag != "dict"@
    &&& tag != "array"@
    &&& tag != "key"@
    &&& tag != "string"@
    &&& tag != "integer"@
}

impl PlistField {
    /// Whether another tag is indeed another one.
    pub open spec fn is_valid(self) -> bool {
        match self.value {
            PlistValue::Scalar(tag, _) => is_plain_tag(tag),
            _ => true,
        }
    }
}

/// Whether all fields are valid.
pub open spec fn are_valid(fields: Seq<PlistField>) -> bool {
    forall|i: int| 0 <= i < fields.len() ==> (#[trigger] fields[i]).is_valid()
}

/// An element with character data.
pub open spec fn element_tokens(tag: Seq<char>, v: Seq<char>) -> Seq<XmlToken> {
    seq![XmlToken::Start(tag), XmlToken::Text(v), XmlToken::End(tag)]
}

/// A key and its value.
pub open spec fn field_tokens(f: PlistField) -> Seq<XmlToken> {
    element_tokens("key"@, f.key) + match f.value {
        PlistValue::Text(v) => element_tokens("string"@, v),
        PlistValue::Integer(v) => element_tokens("integer"@, v),
        PlistValue::Scalar(tag, v) => element_tokens(tag, v),
        PlistValue::Flag => seq![XmlToken::Empty],
    }
}

/// Keys and their values, one after the other.
pub open spec fn fields_tokens(fields: Seq<PlistField>) -> Seq<XmlToken>
    decreases fields.len(),
{
    if fields.len() == 0 {
        Seq::empty()
    } else {
        field_tokens(fields[0]) + fields_tokens(fields.drop_first())
    }
}

/// `<dict>` with the given inside.
pub open spec fn dict_tokens(inside: Seq<XmlToken>) -> Seq<XmlToken> {
    seq![XmlToken::Start("dict"@)] + inside + seq![XmlToken::End("dict"@)]
}

/// `<array>` with the given inside.
pub open spec fn array_tokens(inside: Seq<XmlToken>) -> Seq<XmlToken> {
    seq![XmlToken::Start("array"@)] + inside + seq![XmlToken::End("array"@)]
}

/// An entry of the `Tracks` dictionary.
pub struct TrackSource {
    pub id: Seq<char>,
    pub fields: Seq<PlistField>,
}

/// An entry of the `Playlists` array: its fields, and its items if it has any.
pub struct PlaylistSource {
    pub fields: Seq<PlistField>,
    pub items: Option<Seq<Seq<char>>>,
}

/// A whole document: the fields of the outer dictionary in front of the
/// tracks, the tracks and the playlists.
pub struct LibrarySource {
    pub fields: Seq<PlistField>,
    pub tracks: Seq<TrackSource>,
    pub playlists: Seq<PlaylistSource>,
}

impl LibrarySource {
    /// Whether all fields of the document are valid.
    pub open spec fn is_valid(self) -> bool {
        &&& are_valid(self.fields)
        &&& forall|i: int| 0 <= i < self.tracks.len() ==> are_valid(#[trigger] self.tracks[i].fields)
        &&& forall|i: int|
            0 <= i < self.playlists.len() ==> are_valid(#[trigger] self.playlists[i].fields)
    }
}

/// The entries of the `Tracks` dictionary.
pub open spec fn tracks_tokens(tracks: Seq<TrackSource>) -> Seq<XmlToken>
    decreases tracks.len(),
{
    if tracks.len() == 0 {
        Seq::empty()
    } else {
        element_tokens("key"@, tracks[0].id) + dict_tokens(fields_tokens(tracks[0].fields))
            + tracks_tokens(tracks.drop_first())
    }
}

/// The items of a playlist.
pub open spec fn items_tokens(ids: Seq<Seq<char>>) -> Seq<XmlToken>
    decreases ids.len(),
{
    if ids.len() == 0 {
        Seq::empty()
    } else {
        dict_tokens(element_tokens("key"@, "Track ID"@) + element_tokens("integer"@, ids[0]))
            + items_tokens(ids.drop_first())
    }
}

/// The inside of the dictionary of a playlist.
pub open spec fn playlist_tokens(p: PlaylistSource) -> Seq<XmlToken> {
    fields_tokens(p.fields) + match p.items {
        Some(ids) => element_tokens("key"@, "Playlist Items"@) + array_tokens(items_tokens(ids)),
        None => Seq::empty(),
    }
}

/// The entries of the `Playlists` array.
pub open spec fn playlists_tokens(playlists: Seq<PlaylistSource>) -> Seq<XmlToken>
    decreases playlists.len(),
{
    if playlists.len() == 0 {
        Seq::empty()
    } else {
        dict_tokens(playlist_tokens(playlists[0])) + playlists_tokens(playlists.drop_first())
    }
}

/// A whole document: the declaration and the document type, then the `plist`.
pub open spec fn library_tokens(lib: LibrarySource) -> Seq<XmlToken> {
    seq![XmlToken::Other, XmlToken::Other, XmlToken::Start("plist"@), XmlToken::Start("dict"@)]
        + fields_tokens(lib.fields) + element_tokens("key"@, "Tracks"@) + dict_tokens(
        tracks_tokens(lib.tracks),
    ) + element_tokens("key"@, "Playlists"@) + array_tokens(playlists_tokens(lib.playlists))
        + seq![XmlToken::End("dict"@), XmlToken::End("plist"@)]
}

// ---------------------------------------------------------------------------
// What it describes
// ---------------------------------------------------------------------------

impl TrackEntry {
    /// With a field read.
    pub open spec fn with_field(self, f: PlistField) -> TrackEntry {
        match f.value {
            PlistValue::Text(v) => self.with_string(Some(f.key), v),
            PlistValue::Integer(v) => self.with_integer(Some(f.key), v),
            _ => self,
        }
    }

    /// With fields read, one after the other.
    pub open spec fn with_fields(self, fields: Seq<PlistField>) -> TrackEntry
        decreases fields.len(),
    {
        if fields.len() == 0 {
            self
        } else {
            self.with_field(fields[0]).with_fields(fields.drop_first())
        }
    }
}

impl PlaylistEntry {
    /// With a field read.
    pub open spec fn with_field(self, f: PlistField) -> PlaylistEntry {
        match f.value {
            PlistValue::Text(v) => if f.key == "Name"@ {
                PlaylistEntry { name: Some(v), ..self }
            } else {
                self
            },
            PlistValue::Integer(v) => if f.key == "Playlist ID"@ {
                PlaylistEntry { id: Some(v), ..self }
            } else {
                self
            },
            _ => self,
        }
    }

    /// With fields read, one after the other.
    pub open spec fn with_fields(self, fields: Seq<PlistField>) -> PlaylistEntry
        decreases fields.len(),
    {
        if fields.len() == 0 {
            self
        } else {
            self.with_field(fields[0]).with_fields(fields.drop_first())
        }
    }
}

/// The tracks with those of the given entries that have a location.
pub open spec fn described_tracks(
    tracks: Map<Seq<char>, TrackView>,
    sources: Seq<TrackSource>,
    music_folder: Seq<char>,
    root: Seq<char>,
) -> Map<Seq<char>, TrackView>
    decreases sources.len(),
{
    if sources.len() == 0 {
        tracks
    } else {
        described_tracks(
            with_entry(
                tracks,
                sources[0].id,
                TrackEntry::empty().with_fields(sources[0].fields),
                music_folder,
                root,
            ),
            sources.drop_first(),
            music_folder,
            root,
        )
    }
}

/// The entry that a playlist is read as.
pub open spec fn described_playlist(p: PlaylistSource) -> PlaylistEntry {
    PlaylistEntry { items: p.items, ..PlaylistEntry::empty().with_fields(p.fields) }
}

/// The playlists with those of the given entries that have a name, an ID and
/// items.
pub open spec fn described_playlists(
    playlists: Seq<PlaylistModel>,
    sources: Seq<PlaylistSource>,
    tracks: Map<Seq<char>, TrackView>,
    checked: Seq<Seq<char>>,
) -> Seq<PlaylistModel>
    decreases sources.len(),
{
    if sources.len() == 0 {
        playlists
    } else {
        described_playlists(
            with_playlist(playlists, described_playlist(sources[0]).playlist(tracks, checked)),
            sources.drop_first(),
            tracks,
            checked,
        )
    }
}

/// The music folder that fields name, behind `folder`: the last string under
/// the key `Music Folder`.
pub open spec fn described_folder(
    folder: Option<Seq<char>>,
    fields: Seq<PlistField>,
) -> Option<Seq<char>>
    decreases fields.len(),
{
    if fields.len() == 0 {
        folder
    } else {
        described_folder(
            match fields[0].value {
                PlistValue::Text(v) => if fields[0].key == "Music Folder"@ {
                    Some(v)
                } else {
                    folder
                },
                _ => folder,
            },
            fields.drop_first(),
        )
    }
}

/// The library that a document describes.
pub open spec fn described_library(
    lib: LibrarySource,
    music_folder: Seq<char>,
    root: Seq<char>,
    checked: Seq<Seq<char>>,
) -> LibraryModel {
    let tracks = described_tracks(Map::empty(), lib.tracks, music_folder, root);
    LibraryModel {
        music_folder,
        tracks,
        playlists: described_playlists(Seq::empty(), lib.playlists, tracks, checked),
    }
}

// ---------------------------------------------------------------------------
// Reading it
// ---------------------------------------------------------------------------

/// The tags are different texts.
proof fn tags_differ()
    ensures
        "key"@ != "string"@,
        "key"@ != "integer"@,
        "key"@ != "dict"@,
        "key"@ != "array"@,
        "key"@ != "plist"@,
        "string"@ != "integer"@,
        "string"@ != "dict"@,
        "string"@ != "array"@,
        "string"@ != "plist"@,
        "integer"@ != "dict"@,
        "integer"@ != "array"@,
        "integer"@ != "plist"@,
        "dict"@ != "array"@,
        "dict"@ != "plist"@,
        "array"@ != "plist"@,
        "Tracks"@ != "Playlists"@,
{
    reveal_strlit("key");
    reveal_strlit("string");
    reveal_strlit("integer");
    reveal_strlit("dict");
    reveal_strlit("array");
    reveal_strlit("plist");
    reveal_strlit("Tracks");
    reveal_strlit("Playlists");
    assert("key"@[0] == 'k');
    assert("string"@[0] == 's');
    assert("integer"@[0] == 'i');
    assert("dict"@[0] == 'd');
    assert("array"@[0] == 'a');
    assert("plist"@[0] == 'p');
    assert("Tracks"@[0] == 'T');
    assert("Playlists"@[0] == 'P');
}

/// What follows the opening tag of an element with character data is read as
/// that data, and passed over as well.
proof fn reads_element(tag: Seq<char>, v: Seq<char>, rest: Seq<XmlToken>)
    ensures
        (element_tokens(tag, v) + rest).len() > 0,
        (element_tokens(tag, v) + rest)[0] == XmlToken::Start(tag),
        element_text((element_tokens(tag, v) + rest).drop_first(), tag, Seq::empty()) == Ok::<
            (Seq<char>, Seq<XmlToken>),
            LibraryFailure,
        >((v, rest)),
        skipped_element((element_tokens(tag, v) + rest).drop_first(), tag, 1) == Ok::<
            Seq<XmlToken>,
            LibraryFailure,
        >(rest),
{
    let s = element_tokens(tag, v) + rest;
    let s1 = s.drop_first();
    let s2 = s1.drop_first();
    assert(s1[0] == XmlToken::Text(v));
    assert(s2[0] == XmlToken::End(tag));
    assert(s2.drop_first() =~= rest);
    assert(Seq::<char>::empty() + v =~= v);
    assert(element_text(s2, tag, v) == Ok::<(Seq<char>, Seq<XmlToken>), LibraryFailure>((v, rest)));
    assert(skipped_element(s2, tag, 1) == Ok::<Seq<XmlToken>, LibraryFailure>(rest));
}

/// A field of a track is read.
proof fn reads_track_field(
    f: PlistField,
    entry: TrackEntry,
    key: Option<Seq<char>>,
    rest: Seq<XmlToken>,
)
    requires
        f.is_valid(),
    ensures
        track_entry(field_tokens(f) + rest, entry, key) == track_entry(
            rest,
            entry.with_field(f),
            None,
        ),
{
    tags_differ();
    let value = match f.value {
        PlistValue::Text(v) => element_tokens("string"@, v),
        PlistValue::Integer(v) => element_tokens("integer"@, v),
        PlistValue::Scalar(tag, v) => element_tokens(tag, v),
        PlistValue::Flag => seq![XmlToken::Empty],
    };
    assert(field_tokens(f) + rest =~= element_tokens("key"@, f.key) + (value + rest));
    reads_element("key"@, f.key, value + rest);
    assert(track_entry(field_tokens(f) + rest, entry, key) == track_entry(
        value + rest,
        entry,
        Some(f.key),
    ));
    match f.value {
        PlistValue::Text(v) => reads_element("string"@, v, rest),
        PlistValue::Integer(v) => reads_element("integer"@, v, rest),
        PlistValue::Scalar(tag, v) => reads_element(tag, v, rest),
        PlistValue::Flag => {
            assert((value + rest).drop_first() =~= rest);
        },
    }
}

/// The fields of a track are read, up to the closing tag.
proof fn reads_track_fields(
    fields: Seq<PlistField>,
    entry: TrackEntry,
    key: Option<Seq<char>>,
    rest: Seq<XmlToken>,
)
    requires
        are_valid(fields),
    ensures
        track_entry(fields_tokens(fields) + (seq![XmlToken::End("dict"@)] + rest), entry, key)
            == Ok::<(TrackEntry, Seq<XmlToken>), LibraryFailure>(
            (entry.with_fields(fields), rest),
        ),
    decreases fields.len(),
{
    let end = seq![XmlToken::End("dict"@)] + rest;
    if fields.len() == 0 {
        assert(fields_tokens(fields) + end =~= end);
        assert(end.drop_first() =~= rest);
    } else {
        let more = fields.drop_first();
        assert forall|i: int| 0 <= i < more.len() implies (#[trigger] more[i]).is_valid() by {
            assert(more[i] == fields[i + 1]);
        }
        assert(fields_tokens(fields) + end =~= field_tokens(fields[0]) + (fields_tokens(more)
            + end));
        reads_track_field(fields[0], entry, key, fields_tokens(more) + end);
        reads_track_fields(more, entry.with_field(fields[0]), None, rest);
    }
}

/// The tracks are read, up to the closing tag.
proof fn reads_tracks(
    sources: Seq<TrackSource>,
    tracks: Map<Seq<char>, TrackView>,
    music_folder: Seq<char>,
    root: Seq<char>,
    rest: Seq<XmlToken>,
)
    requires
        forall|i: int| 0 <= i < sources.len() ==> are_valid(#[trigger] sources[i].fields),
    ensures
        track_entries(
            tracks_tokens(sources) + (seq![XmlToken::End("dict"@)] + rest),
            tracks,
            None,
            music_folder,
            root,
        ) == Ok::<(Map<Seq<char>, TrackView>, Seq<XmlToken>), LibraryFailure>(
            (described_tracks(tracks, sources, music_folder, root), rest),
        ),
    decreases sources.len(),
{
    tags_differ();
    let end = seq![XmlToken::End("dict"@)] + rest;
    if sources.len() == 0 {
        assert(tracks_tokens(sources) + end =~= end);
        assert(end.drop_first() =~= rest);
    } else {
        let t = sources[0];
        let more = sources.drop_first();
        assert(are_valid(sources[0].fields));
        assert forall|i: int| 0 <= i < more.len() implies are_valid(#[trigger] more[i].fields) by {
            assert(more[i] == sources[i + 1]);
        }
        let behind = tracks_tokens(more) + end;
        let inside = fields_tokens(t.fields) + (seq![XmlToken::End("dict"@)] + behind);
        let dict = seq![XmlToken::Start("dict"@)] + inside;
        assert(tracks_tokens(sources) + end =~= element_tokens("key"@, t.id) + dict);
        reads_element("key"@, t.id, dict);
        assert(track_entries(tracks_tokens(sources) + end, tracks, None, music_folder, root)
            == track_entries(dict, tracks, Some(t.id), music_folder, root));
        assert(dict.drop_first() =~= inside);
        reads_track_fields(t.fields, TrackEntry::empty(), None, behind);
        let entry = TrackEntry::empty().with_fields(t.fields);
        assert(track_entries(dict, tracks, Some(t.id), music_folder, root) == track_entries(
            behind,
            with_entry(tracks, t.id, entry, music_folder, root),
            None,
            music_folder,
            root,
        ));
        reads_tracks(
            more,
            with_entry(tracks, t.id, entry, music_folder, root),
            music_folder,
            root,
            rest,
        );
    }
}

/// The items of a playlist are read, up to the closing tag.
proof fn reads_items(ids: Seq<Seq<char>>, before: Seq<Seq<char>>, rest: Seq<XmlToken>)
    ensures
        item_entries(items_tokens(ids) + (seq![XmlToken::End("array"@)] + rest), before) == Ok::<
            (Seq<Seq<char>>, Seq<XmlToken>),
            LibraryFailure,
        >((before + ids, rest)),
    decreases ids.len(),
{
    tags_differ();
    let end = seq![XmlToken::End("array"@)] + rest;
    if ids.len() == 0 {
        assert(items_tokens(ids) + end =~= end);
        assert(end.drop_first() =~= rest);
        assert(before + ids =~= before);
    } else {
        let more = ids.drop_first();
        let behind = items_tokens(more) + end;
        let close = seq![XmlToken::End("dict"@)] + behind;
        let number = element_tokens("integer"@, ids[0]) + close;
        let inside = element_tokens("key"@, "Track ID"@) + number;
        let dict = seq![XmlToken::Start("dict"@)] + inside;
        assert(items_tokens(ids) + end =~= dict);
        assert(dict.drop_first() =~= inside);
        reads_element("key"@, "Track ID"@, number);
        assert(item_entry(inside, before, None) == item_entry(number, before, Some("Track ID"@)));
        reads_element("integer"@, ids[0], close);
        assert(item_entry(number, before, Some("Track ID"@)) == item_entry(
            close,
            before.push(ids[0]),
            None,
        ));
        assert(close.drop_first() =~= behind);
        assert(item_entry(inside, before, None) == Ok::<
            (Seq<Seq<char>>, Seq<XmlToken>),
            LibraryFailure,
        >((before.push(ids[0]), behind)));
        reads_items(more, before.push(ids[0]), rest);
        assert(before.push(ids[0]) + more =~= before + ids);
    }
}

/// A field of a playlist is read.
proof fn reads_playlist_field(
    f: PlistField,
    entry: PlaylistEntry,
    key: Option<Seq<char>>,
    rest: Seq<XmlToken>,
)
    requires
        f.is_valid(),
    ensures
        playlist_entry(field_tokens(f) + rest, entry, key) == playlist_entry(
            rest,
            entry.with_field(f),
            None,
        ),
{
    tags_differ();
    let value = match f.value {
        PlistValue::Text(v) => element_tokens("string"@, v),
        PlistValue::Integer(v) => element_tokens("integer"@, v),
        PlistValue::Scalar(tag, v) => element_tokens(tag, v),
        PlistValue::Flag => seq![XmlToken::Empty],
    };
    assert(field_tokens(f) + rest =~= element_tokens("key"@, f.key) + (value + rest));
    reads_element("key"@, f.key, value + rest);
    assert(playlist_entry(field_tokens(f) + rest, entry, key) == playlist_entry(
        value + rest,
        entry,
        Some(f.key),
    ));
    match f.value {
        PlistValue::Text(v) => reads_element("string"@, v, rest),
        PlistValue::Integer(v) => reads_element("integer"@, v, rest),
        PlistValue::Scalar(tag, v) => reads_element(tag, v, rest),
        PlistValue::Flag => {
            assert((value + rest).drop_first() =~= rest);
        },
    }
}

/// The fields of a playlist are read.
proof fn reads_playlist_fields(
    fields: Seq<PlistField>,
    entry: PlaylistEntry,
    rest: Seq<XmlToken>,
)
    requires
        are_valid(fields),
    ensures
        playlist_entry(fields_tokens(fields) + rest, entry, None) == playlist_entry(
            rest,
            entry.with_fields(fields),
            None,
        ),
    decreases fields.len(),
{
    if fields.len() == 0 {
        assert(fields_tokens(fields) + rest =~= rest);
    } else {
        let more = fields.drop_first();
        assert forall|i: int| 0 <= i < more.len() implies (#[trigger] more[i]).is_valid() by {
            assert(more[i] == fields[i + 1]);
        }
        assert(fields_tokens(fields) + rest =~= field_tokens(fields[0]) + (fields_tokens(more)
            + rest));
        reads_playlist_field(fields[0], entry, None, fields_tokens(more) + rest);
        reads_playlist_fields(more, entry.with_field(fields[0]), rest);
    }
}

/// Fields say nothing of items.
proof fn fields_have_no_items(fields: Seq<PlistField>, entry: PlaylistEntry)
    ensures
        entry.with_fields(fields).items == entry.items,
    decreases fields.len(),
{
    if fields.len() > 0 {
        fields_have_no_items(fields.drop_first(), entry.with_field(fields[0]));
    }
}

/// The inside of the dictionary of a playlist is read, up to the closing tag.
proof fn reads_playlist(p: PlaylistSource, rest: Seq<XmlToken>)
    requires
        are_valid(p.fields),
    ensures
        playlist_entry(
            playlist_tokens(p) + (seq![XmlToken::End("dict"@)] + rest),
            PlaylistEntry::empty(),
            None,
        ) == Ok::<(PlaylistEntry, Seq<XmlToken>), LibraryFailure>((described_playlist(p), rest)),
{
    tags_differ();
    let end = seq![XmlToken::End("dict"@)] + rest;
    let entry = PlaylistEntry::empty().with_fields(p.fields);
    fields_have_no_items(p.fields, PlaylistEntry::empty());
    assert(end.drop_first() =~= rest);
    match p.items {
        Some(ids) => {
            let inside = items_tokens(ids) + (seq![XmlToken::End("array"@)] + end);
            let array = seq![XmlToken::Start("array"@)] + inside;
            let keyed = element_tokens("key"@, "Playlist Items"@) + array;
            assert(playlist_tokens(p) + end =~= fields_tokens(p.fields) + keyed);
            reads_playlist_fields(p.fields, PlaylistEntry::empty(), keyed);
            reads_element("key"@, "Playlist Items"@, array);
            assert(playlist_entry(keyed, entry, None) == playlist_entry(
                array,
                entry,
                Some("Playlist Items"@),
            ));
            assert(array.drop_first() =~= inside);
            reads_items(ids, Seq::empty(), end);
            assert(Seq::<Seq<char>>::empty() + ids =~= ids);
            assert(playlist_entry(array, entry, Some("Playlist Items"@)) == playlist_entry(
                end,
                PlaylistEntry { items: Some(ids), ..entry },
                None,
            ));
        },
        None => {
            assert(playlist_tokens(p) + end =~= fields_tokens(p.fields) + end);
            reads_playlist_fields(p.fields, PlaylistEntry::empty(), end);
        },
    }
}

/// The playlists are read, up to the closing tag.
proof fn reads_playlists(
    sources: Seq<PlaylistSource>,
    playlists: Seq<PlaylistModel>,
    tracks: Map<Seq<char>, TrackView>,
    checked: Seq<Seq<char>>,
    rest: Seq<XmlToken>,
)
    requires
        forall|i: int| 0 <= i < sources.len() ==> are_valid(#[trigger] sources[i].fields),
    ensures
        playlist_entries(
            playlists_tokens(sources) + (seq![XmlToken::End("array"@)] + rest),
            playlists,
            tracks,
            checked,
        ) == Ok::<(Seq<PlaylistModel>, Seq<XmlToken>), LibraryFailure>(
            (described_playlists(playlists, sources, tracks, checked), rest),
        ),
    decreases sources.len(),
{
    tags_differ();
    let end = seq![XmlToken::End("array"@)] + rest;
    if sources.len() == 0 {
        assert(playlists_tokens(sources) + end =~= end);
        assert(end.drop_first() =~= rest);
    } else {
        let p = sources[0];
        let more = sources.drop_first();
        assert(are_valid(sources[0].fields));
        assert forall|i: int| 0 <= i < more.len() implies are_valid(#[trigger] more[i].fields) by {
            assert(more[i] == sources[i + 1]);
        }
        let behind = playlists_tokens(more) + end;
        let inside = playlist_tokens(p) + (seq![XmlToken::End("dict"@)] + behind);
        let dict = seq![XmlToken::Start("dict"@)] + inside;
        assert(playlists_tokens(sources) + end =~= dict);
        assert(dict.drop_first() =~= inside);
        reads_playlist(p, behind);
        let next = with_playlist(playlists, described_playlist(p).playlist(tracks, checked));
        assert(playlist_entries(dict, playlists, tracks, checked) == playlist_entries(
            behind,
            next,
            tracks,
            checked,
        ));
        reads_playlists(more, next, tracks, checked, rest);
    }
}

/// The fields of the outer dictionary are read.
proof fn reads_outer_fields(
    fields: Seq<PlistField>,
    st: DocumentState,
    root: Seq<char>,
    checked: Seq<Seq<char>>,
    rest: Seq<XmlToken>,
) -> (key: Option<Seq<char>>)
    requires
        are_valid(fields),
        st.depth == 2,
    ensures
        document(fields_tokens(fields) + rest, st, root, checked) == document(
            rest,
            DocumentState {
                key,
                music_folder: described_folder(st.music_folder, fields),
                ..st
            },
            root,
            checked,
        ),
    decreases fields.len(),
{
    tags_differ();
    if fields.len() == 0 {
        assert(fields_tokens(fields) + rest =~= rest);
        st.key
    } else {
        let f = fields[0];
        let more = fields.drop_first();
        assert(f.is_valid());
        assert forall|i: int| 0 <= i < more.len() implies (#[trigger] more[i]).is_valid() by {
            assert(more[i] == fields[i + 1]);
        }
        let behind = fields_tokens(more) + rest;
        let value = match f.value {
            PlistValue::Text(v) => element_tokens("string"@, v),
            PlistValue::Integer(v) => element_tokens("integer"@, v),
            PlistValue::Scalar(tag, v) => element_tokens(tag, v),
            PlistValue::Flag => seq![XmlToken::Empty],
        };
        let s = fields_tokens(fields) + rest;
        assert(s =~= element_tokens("key"@, f.key) + (value + behind));
        reads_element("key"@, f.key, value + behind);
        let keyed = DocumentState { key: Some(f.key), ..st };
        assert(document(s, st, root, checked) == document(value + behind, keyed, root, checked));
        let after = match f.value {
            PlistValue::Text(v) => {
                reads_element("string"@, v, behind);
                keyed.with_string(v)
            },
            PlistValue::Integer(v) => {
                reads_element("integer"@, v, behind);
                keyed.no_key()
            },
            PlistValue::Scalar(tag, v) => {
                reads_element(tag, v, behind);
                keyed.no_key()
            },
            PlistValue::Flag => {
                assert((value + behind).drop_first() =~= behind);
                keyed
            },
        };
        assert(document(value + behind, keyed, root, checked) == document(
            behind,
            after,
            root,
            checked,
        ));
        reads_outer_fields(more, after, root, checked, rest)
    }
}

/// The two tags in front of the outer dictionary are read.
proof fn reads_opening(inside: Seq<XmlToken>, root: Seq<char>, checked: Seq<Seq<char>>)
    ensures
        document(
            seq![
                XmlToken::Other,
                XmlToken::Other,
                XmlToken::Start("plist"@),
                XmlToken::Start("dict"@),
            ] + inside,
            DocumentState::empty(),
            root,
            checked,
        ) == document(inside, DocumentState::empty().deeper().deeper(), root, checked),
{
    tags_differ();
    let s2 = seq![XmlToken::Start("dict"@)] + inside;
    let s1 = seq![XmlToken::Start("plist"@)] + s2;
    let s0 = seq![XmlToken::Other] + s1;
    let all = seq![
        XmlToken::Other,
        XmlToken::Other,
        XmlToken::Start("plist"@),
        XmlToken::Start("dict"@),
    ] + inside;
    assert(all =~= seq![XmlToken::Other] + s0);
    assert(all.drop_first() =~= s0);
    assert(s0.drop_first() =~= s1);
    assert(s1.drop_first() =~= s2);
    assert(s2.drop_first() =~= inside);
    let e = DocumentState::empty();
    assert(document(all, e, root, checked) == document(s0, e, root, checked));
    assert(document(s0, e, root, checked) == document(s1, e, root, checked));
    assert(document(s1, e, root, checked) == document(s2, e.deeper(), root, checked));
}

/// The two tags behind the outer dictionary are read.
proof fn reads_closing(st: DocumentState, root: Seq<char>, checked: Seq<Seq<char>>)
    requires
        st.depth == 2,
    ensures
        document(seq![XmlToken::End("dict"@), XmlToken::End("plist"@)], st, root, checked) == Ok::<
            DocumentState,
            LibraryFailure,
        >(DocumentState { depth: 0, ..st }),
{
    let close = seq![XmlToken::End("dict"@), XmlToken::End("plist"@)];
    let last = seq![XmlToken::End("plist"@)];
    assert(close.drop_first() =~= last);
    assert(last.drop_first() =~= Seq::empty());
    let st1 = DocumentState { depth: 1, ..st };
    assert(document(close, st, root, checked) == document(last, st1, root, checked));
    let st0 = DocumentState { depth: 0, ..st1 };
    assert(document(last, st1, root, checked) == document(Seq::empty(), st0, root, checked));
}

/// The `Tracks` dictionary is read.
proof fn reads_tracks_value(
    sources: Seq<TrackSource>,
    st: DocumentState,
    root: Seq<char>,
    checked: Seq<Seq<char>>,
    rest: Seq<XmlToken>,
)
    requires
        st.depth == 2,
        forall|i: int| 0 <= i < sources.len() ==> are_valid(#[trigger] sources[i].fields),
    ensures
        document(
            element_tokens("key"@, "Tracks"@) + (dict_tokens(tracks_tokens(sources)) + rest),
            st,
            root,
            checked,
        ) == document(
            rest,
            DocumentState {
                key: None,
                tracks: described_tracks(
                    st.tracks,
                    sources,
                    text_or_empty(st.music_folder),
                    root,
                ),
                ..st
            },
            root,
            checked,
        ),
{
    tags_differ();
    let inside = tracks_tokens(sources) + (seq![XmlToken::End("dict"@)] + rest);
    let dict = dict_tokens(tracks_tokens(sources)) + rest;
    assert(dict.drop_first() =~= inside);
    reads_element("key"@, "Tracks"@, dict);
    let keyed = DocumentState { key: Some("Tracks"@), ..st };
    assert(document(element_tokens("key"@, "Tracks"@) + dict, st, root, checked) == document(
        dict,
        keyed,
        root,
        checked,
    ));
    reads_tracks(sources, st.tracks, text_or_empty(st.music_folder), root, rest);
}

/// The `Playlists` array is read.
proof fn reads_playlists_value(
    sources: Seq<PlaylistSource>,
    st: DocumentState,
    root: Seq<char>,
    checked: Seq<Seq<char>>,
    rest: Seq<XmlToken>,
)
    requires
        st.depth == 2,
        forall|i: int| 0 <= i < sources.len() ==> are_valid(#[trigger] sources[i].fields),
    ensures
        document(
            element_tokens("key"@, "Playlists"@) + (array_tokens(playlists_tokens(sources)) + rest),
            st,
            root,
            checked,
        ) == document(
            rest,
            DocumentState {
                key: None,
                playlists: described_playlists(st.playlists, sources, st.tracks, checked),
                ..st
            },
            root,
            checked,
        ),
{
    tags_differ();
    let inside = playlists_tokens(sources) + (seq![XmlToken::End("array"@)] + rest);
    let array = array_tokens(playlists_tokens(sources)) + rest;
    assert(array.drop_first() =~= inside);
    reads_element("key"@, "Playlists"@, array);
    let keyed = DocumentState { key: Some("Playlists"@), ..st };
    assert(document(element_tokens("key"@, "Playlists"@) + array, st, root, checked) == document(
        array,
        keyed,
        root,
        checked,
    ));
    reads_playlists(sources, st.playlists, st.tracks, checked, rest);
}

/// Concatenation from the right is the same as from the left.
proof fn regrouped(
    a: Seq<XmlToken>,
    b: Seq<XmlToken>,
    c: Seq<XmlToken>,
    d: Seq<XmlToken>,
    e: Seq<XmlToken>,
    f: Seq<XmlToken>,
    g: Seq<XmlToken>,
)
    ensures
        a + b + c + d + e + f + g == a + (b + (c + (d + (e + (f + g))))),
{
    assert(a + b + c + d + e + f + g =~= a + (b + (c + (d + (e + (f + g))))));
}

/// A document in the layout of a `Library.xml` is read as the library that it
/// describes, or refused if it names no music folder.
pub proof fn layout_is_read(lib: LibrarySource, root: Seq<char>, checked: Seq<Seq<char>>)
    requires
        lib.is_valid(),
    ensures
        library_of(library_tokens(lib), root, checked) == match described_folder(None, lib.fields) {
            Some(folder) => Ok::<LibraryModel, LibraryFailure>(
                described_library(lib, folder, root, checked),
            ),
            None => Err::<LibraryModel, LibraryFailure>(LibraryFailure::NoMusicFolder),
        },
{
    let open = seq![
        XmlToken::Other,
        XmlToken::Other,
        XmlToken::Start("plist"@),
        XmlToken::Start("dict"@),
    ];
    let close = seq![XmlToken::End("dict"@), XmlToken::End("plist"@)];
    let s_playlists = element_tokens("key"@, "Playlists"@) + (array_tokens(
        playlists_tokens(lib.playlists),
    ) + close);
    let s_tracks = element_tokens("key"@, "Tracks"@) + (dict_tokens(tracks_tokens(lib.tracks))
        + s_playlists);
    let s_fields = fields_tokens(lib.fields) + s_tracks;
    regrouped(
        open,
        fields_tokens(lib.fields),
        element_tokens("key"@, "Tracks"@),
        dict_tokens(tracks_tokens(lib.tracks)),
        element_tokens("key"@, "Playlists"@),
        array_tokens(playlists_tokens(lib.playlists)),
        close,
    );
    assert(library_tokens(lib) == open + s_fields);
    reads_opening(s_fields, root, checked);
    let st2 = DocumentState::empty().deeper().deeper();
    let key = reads_outer_fields(lib.fields, st2, root, checked, s_tracks);
    let folder = described_folder(None, lib.fields);
    let st3 = DocumentState { key, music_folder: folder, ..st2 };
    reads_tracks_value(lib.tracks, st3, root, checked, s_playlists);
    let tracks = described_tracks(Map::empty(), lib.tracks, text_or_empty(folder), root);
    let st4 = DocumentState { key: None, tracks, ..st3 };
    reads_playlists_value(lib.playlists, st4, root, checked, close);
    let playlists = described_playlists(Seq::empty(), lib.playlists, tracks, checked);
    let st5 = DocumentState { key: None, playlists, ..st4 };
    reads_closing(st5, root, checked);
}

// ---------------------------------------------------------------------------
// Consistency
// ---------------------------------------------------------------------------

/// Whether a path lies below a music root.
pub open spec fn is_below_root(path: Seq<char>, root: Seq<char>) -> bool {
    has_prefix(path, trimmed_end(root, '/') + seq!['/'])
}

/// Whether each track is found by its own ID, lies below the music root of the
/// device, and is not yet marked.
pub open spec fn tracks_are_fresh(tracks: Map<Seq<char>, TrackView>, root: Seq<char>) -> bool {
    forall|k: Seq<char>| #[trigger]
        tracks.contains_key(k) ==> tracks[k].id == k && !tracks[k].on_device && is_below_root(
            tracks[k].device_path,
            root,
        )
}

/// A joined path lies below its base.
proof fn joined_path_is_below(base: Seq<char>, rest: Seq<char>)
    ensures
        is_below_root(path_joined(base, rest), base),
{
    let front = trimmed_end(base, '/') + seq!['/'];
    assert(path_joined(base, rest).subrange(0, front.len() as int) =~= front);
}

/// Whether each playlist holds tracks alone, and is chosen just where the
/// settings have its ID or its name.
pub open spec fn playlists_are_consistent(
    playlists: Seq<PlaylistModel>,
    tracks: Map<Seq<char>, TrackView>,
    checked: Seq<Seq<char>>,
) -> bool {
    forall|i: int| 0 <= i < playlists.len() ==> playlist_is_consistent(
        #[trigger] playlists[i],
        tracks,
        checked,
    )
}

/// Whether a playlist holds tracks alone, and is chosen just where the
/// settings have its ID or its name.
pub open spec fn playlist_is_consistent(
    p: PlaylistModel,
    tracks: Map<Seq<char>, TrackView>,
    checked: Seq<Seq<char>>,
) -> bool {
    &&& forall|j: int|
        0 <= j < p.track_ids.len() ==> tracks.contains_key(#[trigger] p.track_ids[j])
    &&& p.checked == is_checked(checked, p.playlist_id, p.name)
}

/// Reading tracks keeps them fresh and loses none.
proof fn reading_tracks_keeps_fresh(
    s: Seq<XmlToken>,
    tracks: Map<Seq<char>, TrackView>,
    key: Option<Seq<char>>,
    music_folder: Seq<char>,
    root: Seq<char>,
)
    requires
        tracks_are_fresh(tracks, root),
    ensures
        track_entries(s, tracks, key, music_folder, root) matches Ok(r) ==> {
            &&& tracks_are_fresh(r.0, root)
            &&& forall|k: Seq<char>| #[trigger] tracks.contains_key(k) ==> r.0.contains_key(k)
        },
    decreases s.len(),
{
    if s.len() > 0 {
        let rest = s.drop_first();
        reading_tracks_keeps_fresh(rest, tracks, key, music_folder, root);
        if let XmlToken::Start(n) = s[0] {
            element_text_takes(rest, n, Seq::empty());
            track_entry_takes(rest, TrackEntry::empty(), None);
            skipped_element_takes(rest, n, 1);
            if n == "key"@ {
                if let Ok((v, behind)) = element_text(rest, n, Seq::empty()) {
                    reading_tracks_keeps_fresh(behind, tracks, Some(v), music_folder, root);
                }
            } else if n == "dict"@ {
                if let Ok((entry, behind)) = track_entry(rest, TrackEntry::empty(), None) {
                    let next = with_entry(tracks, text_or_empty(key), entry, music_folder, root);
                    if let Some(location) = entry.location {
                        joined_path_is_below(root, device_relative(location, music_folder));
                    }
                    assert(tracks_are_fresh(next, root));
                    reading_tracks_keeps_fresh(behind, next, None, music_folder, root);
                    if let Ok(r) = track_entries(s, tracks, key, music_folder, root) {
                        assert forall|k: Seq<char>| #[trigger]
                            tracks.contains_key(k) implies r.0.contains_key(k) by {
                            assert(next.contains_key(k));
                        }
                    }
                }
            } else {
                if let Ok(behind) = skipped_element(rest, n, 1) {
                    reading_tracks_keeps_fresh(behind, tracks, key, music_folder, root);
                }
            }
        }
    }
}

/// A playlist that is read is consistent.
proof fn read_playlist_is_consistent(
    entry: PlaylistEntry,
    tracks: Map<Seq<char>, TrackView>,
    checked: Seq<Seq<char>>,
)
    ensures
        entry.playlist(tracks, checked) matches Some(p) ==> playlist_is_consistent(
            p,
            tracks,
            checked,
        ),
{
    if let Some(p) = entry.playlist(tracks, checked) {
        let items = entry.items->0;
        let f = |t: Seq<char>| tracks.contains_key(t);
        assert forall|j: int| 0 <= j < p.track_ids.len() implies tracks.contains_key(
            #[trigger] p.track_ids[j],
        ) by {
            items.lemma_filter_pred(f, j);
        }
    }
}

/// Reading playlists keeps them consistent.
proof fn reading_playlists_keeps_consistent(
    s: Seq<XmlToken>,
    playlists: Seq<PlaylistModel>,
    tracks: Map<Seq<char>, TrackView>,
    checked: Seq<Seq<char>>,
)
    requires
        playlists_are_consistent(playlists, tracks, checked),
    ensures
        playlist_entries(s, playlists, tracks, checked) matches Ok(r) ==> playlists_are_consistent(
            r.0,
            tracks,
            checked,
        ),
    decreases s.len(),
{
    if s.len() > 0 {
        let rest = s.drop_first();
        reading_playlists_keeps_consistent(rest, playlists, tracks, checked);
        playlist_entry_takes(rest, PlaylistEntry::empty(), None);
        if let Ok((entry, behind)) = playlist_entry(rest, PlaylistEntry::empty(), None) {
            read_playlist_is_consistent(entry, tracks, checked);
            let next = with_playlist(playlists, entry.playlist(tracks, checked));
            assert forall|i: int| 0 <= i < next.len() implies playlist_is_consistent(
                #[trigger] next[i],
                tracks,
                checked,
            ) by {
                if i < playlists.len() {
                    assert(next[i] == playlists[i]);
                }
            }
            reading_playlists_keeps_consistent(behind, next, tracks, checked);
        }
    }
}

/// More tracks keep playlists consistent.
proof fn more_tracks_keep_consistent(
    playlists: Seq<PlaylistModel>,
    tracks: Map<Seq<char>, TrackView>,
    more: Map<Seq<char>, TrackView>,
    checked: Seq<Seq<char>>,
)
    requires
        playlists_are_consistent(playlists, tracks, checked),
        forall|k: Seq<char>| #[trigger] tracks.contains_key(k) ==> more.contains_key(k),
    ensures
        playlists_are_consistent(playlists, more, checked),
{
    assert forall|i: int| 0 <= i < playlists.len() implies playlist_is_consistent(
        #[trigger] playlists[i],
        more,
        checked,
    ) by {
        let p = playlists[i];
        assert(playlist_is_consistent(p, tracks, checked));
        assert forall|j: int| 0 <= j < p.track_ids.len() implies more.contains_key(
            #[trigger] p.track_ids[j],
        ) by {
            assert(tracks.contains_key(p.track_ids[j]));
        }
    }
}

/// Reading a document keeps what was found consistent.
proof fn reading_keeps_consistent(
    s: Seq<XmlToken>,
    st: DocumentState,
    root: Seq<char>,
    checked: Seq<Seq<char>>,
)
    requires
        tracks_are_fresh(st.tracks, root),
        playlists_are_consistent(st.playlists, st.tracks, checked),
    ensures
        document(s, st, root, checked) matches Ok(r) ==> tracks_are_fresh(r.tracks, root)
            && playlists_are_consistent(r.playlists, r.tracks, checked),
    decreases s.len(),
{
    if s.len() > 0 {
        let rest = s.drop_first();
        match s[0] {
            XmlToken::Start(n) => {
                element_text_takes(rest, n, Seq::empty());
                skipped_element_takes(rest, n, 1);
                if n == "plist"@ {
                    reading_keeps_consistent(rest, st.deeper(), root, checked);
                } else if n == "dict"@ {
                    if st.depth == 2 && st.key == Some("Tracks"@) {
                        let folder = text_or_empty(st.music_folder);
                        track_entries_takes(rest, st.tracks, None, folder, root);
                        reading_tracks_keeps_fresh(rest, st.tracks, None, folder, root);
                        if let Ok((tracks, behind)) = track_entries(
                            rest,
                            st.tracks,
                            None,
                            folder,
                            root,
                        ) {
                            more_tracks_keep_consistent(st.playlists, st.tracks, tracks, checked);
                            reading_keeps_consistent(
                                behind,
                                DocumentState { tracks, key: None, ..st },
                                root,
                                checked,
                            );
                        }
                    } else {
                        reading_keeps_consistent(rest, st.deeper(), root, checked);
                    }
                } else if n == "array"@ {
                    if st.depth == 2 && st.key == Some("Playlists"@) {
                        playlist_entries_takes(rest, st.playlists, st.tracks, checked);
                        reading_playlists_keeps_consistent(
                            rest,
                            st.playlists,
                            st.tracks,
                            checked,
                        );
                        if let Ok((playlists, behind)) = playlist_entries(
                            rest,
                            st.playlists,
                            st.tracks,
                            checked,
                        ) {
                            reading_keeps_consistent(
                                behind,
                                DocumentState { playlists, key: None, ..st },
                                root,
                                checked,
                            );
                        }
                    } else {
                        reading_keeps_consistent(rest, st, root, checked);
                    }
                } else if st.depth == 2 && (n == "key"@ || n == "string"@) {
                    if let Ok((v, behind)) = element_text(rest, n, Seq::empty()) {
                        reading_keeps_consistent(
                            behind,
                            DocumentState { key: Some(v), ..st },
                            root,
                            checked,
                        );
                        reading_keeps_consistent(behind, st.with_string(v), root, checked);
                    }
                } else {
                    if let Ok(behind) = skipped_element(rest, n, 1) {
                        reading_keeps_consistent(behind, st.no_key(), root, checked);
                        reading_keeps_consistent(behind, st, root, checked);
                    }
                }
            },
            XmlToken::End(n) => {
                if (n == "dict"@ || n == "plist"@) && st.depth > 0 {
                    reading_keeps_consistent(
                        rest,
                        DocumentState { depth: (st.depth - 1) as nat, ..st },
                        root,
                        checked,
                    );
                }
                reading_keeps_consistent(rest, st, root, checked);
            },
            _ => reading_keeps_consistent(rest, st, root, checked),
        }
    }
}

/// Every library that is read is consistent: each track is found by its own
/// ID, has a path below the music root of the device and is not yet marked,
/// each playlist holds tracks of the library alone, and a playlist is chosen
/// just where the settings have its ID or its name.
pub proof fn read_library_is_consistent(
    events: Seq<XmlToken>,
    root: Seq<char>,
    checked: Seq<Seq<char>>,
)
    ensures
        library_of(events, root, checked) matches Ok(lib) ==> tracks_are_fresh(lib.tracks, root)
            && playlists_are_consistent(lib.playlists, lib.tracks, checked),
{
    reading_keeps_consistent(events, DocumentState::empty(), root, checked);
}

} // verus!
