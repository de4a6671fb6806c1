//! Laws on how the events of a `Library.xml` are read, one after the other.
use vstd::prelude::*;

use crate::library::{
    document, element_text, item_entries, item_entry, library_of, playlist_entries, playlist_entry,
    skipped_element, track_entries, track_entry, DocumentState, LibraryFailure, LibraryModel,
    PlaylistEntry, TrackEntry,
};
use crate::playlist::PlaylistModel;
use crate::track::TrackView;
use crate::xml::{document_events, document_tokens, text_resolved, XmlToken};

verus! {

/// Whether an event is neither a tag nor a failure.
pub open spec fn is_between(t: XmlToken) -> bool {
    t is Text || t is CData || t is BadText || t is Other
}

/// The character data of an element is all of its text and of its unparsed
/// sections, in order, up to its closing tag; other tags in it do not count.
pub proof fn character_data_is_joined(
    s: Seq<XmlToken>,
    tag: Seq<char>,
    other: Seq<char>,
    before: Seq<char>,
    t: Seq<char>,
)
    requires
        other != tag,
    ensures
        element_text(seq![XmlToken::Text(t)] + s, tag, before) == element_text(s, tag, before + t),
        element_text(seq![XmlToken::CData(t)] + s, tag, before) == element_text(s, tag, before + t),
        element_text(seq![XmlToken::End(tag)] + s, tag, before) == Ok::<
            (Seq<char>, Seq<XmlToken>),
            LibraryFailure,
        >((before, s)),
        element_text(seq![XmlToken::End(other)] + s, tag, before) == element_text(s, tag, before),
        element_text(seq![XmlToken::Start(t)] + s, tag, before) == element_text(s, tag, before),
        element_text(seq![XmlToken::Empty] + s, tag, before) == element_text(s, tag, before),
        element_text(seq![XmlToken::Other] + s, tag, before) == element_text(s, tag, before),
        element_text(seq![XmlToken::BadText(t)] + s, tag, before) == Err::<
            (Seq<char>, Seq<XmlToken>),
            LibraryFailure,
        >(LibraryFailure::Xml(t)),
        element_text(seq![XmlToken::Failed(t)] + s, tag, before) == Err::<
            (Seq<char>, Seq<XmlToken>),
            LibraryFailure,
        >(LibraryFailure::Xml(t)),
        element_text(Seq::empty(), tag, before) == Err::<
            (Seq<char>, Seq<XmlToken>),
            LibraryFailure,
        >(LibraryFailure::EndInElement(tag)),
{
    assert((seq![XmlToken::Text(t)] + s).drop_first() =~= s);
    assert((seq![XmlToken::CData(t)] + s).drop_first() =~= s);
    assert((seq![XmlToken::End(tag)] + s).drop_first() =~= s);
    assert((seq![XmlToken::End(other)] + s).drop_first() =~= s);
    assert((seq![XmlToken::Start(t)] + s).drop_first() =~= s);
    assert((seq![XmlToken::Empty] + s).drop_first() =~= s);
    assert((seq![XmlToken::Other] + s).drop_first() =~= s);
}

/// Whether events hold neither a tag of a name nor a failure.
pub open spec fn is_free_of(inside: Seq<XmlToken>, tag: Seq<char>) -> bool {
    forall|i: int|
        0 <= i < inside.len() ==> (#[trigger] inside[i]) != XmlToken::Start(tag) && inside[i]
            != XmlToken::End(tag) && !(inside[i] is Failed)
}

/// An element is passed over with all that is in it, elements of its own name
/// among them: what is read on begins behind its own closing tag.
pub proof fn element_is_passed_over(
    inside: Seq<XmlToken>,
    s: Seq<XmlToken>,
    tag: Seq<char>,
    depth: nat,
)
    requires
        is_free_of(inside, tag),
        depth >= 1,
    ensures
        skipped_element(inside + s, tag, depth) == skipped_element(s, tag, depth),
        skipped_element(seq![XmlToken::Start(tag)] + s, tag, depth) == skipped_element(
            s,
            tag,
            depth + 1,
        ),
        skipped_element(seq![XmlToken::End(tag)] + s, tag, 1) == Ok::<
            Seq<XmlToken>,
            LibraryFailure,
        >(s),
        skipped_element(seq![XmlToken::End(tag)] + s, tag, depth + 1) == skipped_element(
            s,
            tag,
            depth,
        ),
        skipped_element(seq![XmlToken::Failed(tag)] + s, tag, depth) == Err::<
            Seq<XmlToken>,
            LibraryFailure,
        >(LibraryFailure::Xml(tag)),
        skipped_element(Seq::empty(), tag, depth) == Ok::<Seq<XmlToken>, LibraryFailure>(
            Seq::empty(),
        ),
    decreases inside.len(),
{
    assert((seq![XmlToken::Start(tag)] + s).drop_first() =~= s);
    assert((seq![XmlToken::End(tag)] + s).drop_first() =~= s);
    if inside.len() == 0 {
        assert(inside + s =~= s);
    } else {
        let rest = inside.drop_first();
        assert(inside[0] != XmlToken::Start(tag) && inside[0] != XmlToken::End(tag)
            && !(inside[0] is Failed));
        assert forall|i: int| 0 <= i < rest.len() implies (#[trigger] rest[i])
            != XmlToken::Start(tag) && rest[i] != XmlToken::End(tag) && !(rest[i] is Failed) by {
            assert(rest[i] == inside[i + 1]);
        }
        element_is_passed_over(rest, s, tag, depth);
        assert((inside + s).drop_first() =~= rest + s);
        assert((inside + s)[0] == inside[0]);
    }
}

/// What stands between the elements, white space and comments among it, does
/// not count, wherever it stands.
pub proof fn space_between_elements_does_not_count(
    t: XmlToken,
    s: Seq<XmlToken>,
    e: TrackEntry,
    p: PlaylistEntry,
    key: Option<Seq<char>>,
    tracks: Map<Seq<char>, TrackView>,
    playlists: Seq<PlaylistModel>,
    ids: Seq<Seq<char>>,
    folder: Seq<char>,
    root: Seq<char>,
    checked: Seq<Seq<char>>,
    st: DocumentState,
)
    requires
        is_between(t),
    ensures
        track_entry(seq![t] + s, e, key) == track_entry(s, e, key),
        track_entries(seq![t] + s, tracks, key, folder, root) == track_entries(
            s,
            tracks,
            key,
            folder,
            root,
        ),
        item_entry(seq![t] + s, ids, key) == item_entry(s, ids, key),
        item_entries(seq![t] + s, ids) == item_entries(s, ids),
        playlist_entry(seq![t] + s, p, key) == playlist_entry(s, p, key),
        playlist_entries(seq![t] + s, playlists, tracks, checked) == playlist_entries(
            s,
            playlists,
            tracks,
            checked,
        ),
        document(seq![t] + s, st, root, checked) == document(s, st, root, checked),
{
    assert((seq![t] + s).drop_first() =~= s);
}

/// A document that cannot be read on is refused with the reader's reason, and
/// one that ends inside the tracks, the playlists or one of them is refused
/// for that.
pub proof fn broken_document_is_refused(
    m: Seq<char>,
    s: Seq<XmlToken>,
    e: TrackEntry,
    p: PlaylistEntry,
    key: Option<Seq<char>>,
    tracks: Map<Seq<char>, TrackView>,
    playlists: Seq<PlaylistModel>,
    ids: Seq<Seq<char>>,
    folder: Seq<char>,
    root: Seq<char>,
    checked: Seq<Seq<char>>,
    st: DocumentState,
)
    ensures
        track_entry(seq![XmlToken::Failed(m)] + s, e, key) matches Err(f) && f
            == LibraryFailure::Xml(m),
        track_entries(seq![XmlToken::Failed(m)] + s, tracks, key, folder, root) matches Err(f) && f
            == LibraryFailure::Xml(m),
        item_entry(seq![XmlToken::Failed(m)] + s, ids, key) matches Err(f) && f
            == LibraryFailure::Xml(m),
        item_entries(seq![XmlToken::Failed(m)] + s, ids) matches Err(f) && f
            == LibraryFailure::Xml(m),
        playlist_entry(seq![XmlToken::Failed(m)] + s, p, key) matches Err(f) && f
            == LibraryFailure::Xml(m),
        playlist_entries(
            seq![XmlToken::Failed(m)] + s,
            playlists,
            tracks,
            checked,
        ) matches Err(f) && f == LibraryFailure::Xml(m),
        document(seq![XmlToken::Failed(m)] + s, st, root, checked) matches Err(f) && f
            == LibraryFailure::Xml(m),
        library_of(seq![XmlToken::Failed(m)] + s, root, checked) == Err::<
            LibraryModel,
            LibraryFailure,
        >(LibraryFailure::Xml(m)),
        track_entry(Seq::empty(), e, key) matches Err(f) && f == LibraryFailure::EndInTrack,
        track_entries(Seq::empty(), tracks, key, folder, root) matches Err(f) && f
            == LibraryFailure::EndInTracks,
        item_entry(Seq::empty(), ids, key) matches Err(f) && f == LibraryFailure::EndInItem,
        item_entries(Seq::empty(), ids) matches Err(f) && f == LibraryFailure::EndInItems,
        playlist_entry(Seq::empty(), p, key) matches Err(f) && f == LibraryFailure::EndInPlaylist,
        playlist_entries(Seq::empty(), playlists, tracks, checked) matches Err(f) && f
            == LibraryFailure::EndInPlaylists,
        library_of(Seq::empty(), root, checked) == Err::<LibraryModel, LibraryFailure>(
            LibraryFailure::NoMusicFolder,
        ),
{
}

/// In the dictionary of a track a key waits for the next value; a string and
/// an integer are read under it; any other value uses it up unread; and the
/// dictionary ends with its own closing tag.
pub proof fn track_is_read_value_by_value(
    s: Seq<XmlToken>,
    behind: Seq<XmlToken>,
    tag: Seq<char>,
    v: Seq<char>,
    e: TrackEntry,
    key: Option<Seq<char>>,
)
    ensures
        element_text(s, "key"@, Seq::empty()) == Ok::<_, LibraryFailure>((v, behind))
            ==> track_entry(seq![XmlToken::Start("key"@)] + s, e, key) == track_entry(
            behind,
            e,
            Some(v),
        ),
        element_text(s, "string"@, Seq::empty()) == Ok::<_, LibraryFailure>((v, behind))
            ==> track_entry(seq![XmlToken::Start("string"@)] + s, e, key) == track_entry(
            behind,
            e.with_string(key, v),
            None,
        ),
        element_text(s, "integer"@, Seq::empty()) == Ok::<_, LibraryFailure>((v, behind))
            ==> track_entry(seq![XmlToken::Start("integer"@)] + s, e, key) == track_entry(
            behind,
            e.with_integer(key, v),
            None,
        ),
        tag != "key"@ && tag != "string"@ && tag != "integer"@ && skipped_element(s, tag, 1) == Ok::<
            _,
            LibraryFailure,
        >(behind) ==> track_entry(seq![XmlToken::Start(tag)] + s, e, key) == track_entry(
            behind,
            e,
            None,
        ),
        track_entry(seq![XmlToken::Empty] + s, e, key) == track_entry(s, e, None),
        track_entry(seq![XmlToken::End("dict"@)] + s, e, key) == Ok::<_, LibraryFailure>((e, s)),
        tag != "dict"@ ==> track_entry(seq![XmlToken::End(tag)] + s, e, key) == track_entry(
            s,
            e,
            key,
        ),
{
    tags_differ();
    assert((seq![XmlToken::Start("key"@)] + s).drop_first() =~= s);
    assert((seq![XmlToken::Start("string"@)] + s).drop_first() =~= s);
    assert((seq![XmlToken::Start("integer"@)] + s).drop_first() =~= s);
    assert((seq![XmlToken::Start(tag)] + s).drop_first() =~= s);
    assert((seq![XmlToken::Empty] + s).drop_first() =~= s);
    assert((seq![XmlToken::End("dict"@)] + s).drop_first() =~= s);
    assert((seq![XmlToken::End(tag)] + s).drop_first() =~= s);
}

proof fn tags_differ()
    ensures
        "key"@ != "string"@,
        "key"@ != "integer"@,
        "string"@ != "integer"@,
        "key"@ != "dict"@,
        "key"@ != "array"@,
        "dict"@ != "array"@,
        "dict"@ != "plist"@,
        "array"@ != "plist"@,
        "string"@ != "array"@,
        "string"@ != "dict"@,
        "string"@ != "plist"@,
        "integer"@ != "array"@,
        "key"@ != "plist"@,
        "Name"@ != "Playlist ID"@,
{
    reveal_strlit("key");
    reveal_strlit("string");
    reveal_strlit("integer");
    reveal_strlit("dict");
    reveal_strlit("array");
    reveal_strlit("plist");
    reveal_strlit("Name");
    reveal_strlit("Playlist ID");
    assert("key"@.len() == 3);
    assert("string"@.len() == 6);
    assert("integer"@.len() == 7);
    assert("dict"@.len() == 4);
    assert("array"@.len() == 5);
    assert("plist"@.len() == 5);
    assert("array"@[0] == 'a');
    assert("plist"@[0] == 'p');
    assert("Name"@.len() == 4);
    assert("Playlist ID"@.len() == 11);
}

/// In the dictionary of the tracks a key is the ID of the entry that follows;
/// other elements are passed over, and the ID waits on.
pub proof fn tracks_are_read_one_by_one(
    s: Seq<XmlToken>,
    behind: Seq<XmlToken>,
    tag: Seq<char>,
    v: Seq<char>,
    e: TrackEntry,
    tracks: Map<Seq<char>, TrackView>,
    key: Option<Seq<char>>,
    folder: Seq<char>,
    root: Seq<char>,
)
    ensures
        element_text(s, "key"@, Seq::empty()) == Ok::<_, LibraryFailure>((v, behind))
            ==> track_entries(
            seq![XmlToken::Start("key"@)] + s,
            tracks,
            key,
            folder,
            root,
        ) == track_entries(behind, tracks, Some(v), folder, root),
        track_entry(s, TrackEntry::empty(), None) == Ok::<_, LibraryFailure>((e, behind))
            ==> track_entries(
            seq![XmlToken::Start("dict"@)] + s,
            tracks,
            Some(v),
            folder,
            root,
        ) == track_entries(
            behind,
            match e.track(v, folder, root) {
                Some(t) => tracks.insert(v, t),
                None => tracks,
            },
            None,
            folder,
            root,
        ),
        tag != "key"@ && tag != "dict"@ && skipped_element(s, tag, 1) == Ok::<_, LibraryFailure>(
            behind,
        ) ==> track_entries(
            seq![XmlToken::Start(tag)] + s,
            tracks,
            key,
            folder,
            root,
        ) == track_entries(behind, tracks, key, folder, root),
        track_entries(seq![XmlToken::End("dict"@)] + s, tracks, key, folder, root) == Ok::<
            _,
            LibraryFailure,
        >((tracks, s)),
        tag != "dict"@ ==> track_entries(
            seq![XmlToken::End(tag)] + s,
            tracks,
            key,
            folder,
            root,
        ) == track_entries(s, tracks, key, folder, root),
{
    tags_differ();
    assert((seq![XmlToken::Start("key"@)] + s).drop_first() =~= s);
    assert((seq![XmlToken::Start("dict"@)] + s).drop_first() =~= s);
    assert((seq![XmlToken::Start(tag)] + s).drop_first() =~= s);
    assert((seq![XmlToken::End("dict"@)] + s).drop_first() =~= s);
    assert((seq![XmlToken::End(tag)] + s).drop_first() =~= s);
}

/// An item of a playlist is the integer under `Track ID`, as it is written;
/// integers under other keys and other values do not count. Items are read one
/// by one up to the end of the array.
pub proof fn items_are_read_one_by_one(
    s: Seq<XmlToken>,
    behind: Seq<XmlToken>,
    tag: Seq<char>,
    v: Seq<char>,
    ids: Seq<Seq<char>>,
    more: Seq<Seq<char>>,
    key: Option<Seq<char>>,
)
    ensures
        element_text(s, "key"@, Seq::empty()) == Ok::<_, LibraryFailure>((v, behind)) ==> item_entry(
            seq![XmlToken::Start("key"@)] + s,
            ids,
            key,
        ) == item_entry(behind, ids, Some(v)),
        element_text(s, "integer"@, Seq::empty()) == Ok::<_, LibraryFailure>((v, behind))
            ==> item_entry(seq![XmlToken::Start("integer"@)] + s, ids, key) == item_entry(
            behind,
            if key == Some("Track ID"@) {
                ids.push(v)
            } else {
                ids
            },
            None,
        ),
        tag != "key"@ && tag != "integer"@ && skipped_element(s, tag, 1) == Ok::<
            _,
            LibraryFailure,
        >(behind) ==> item_entry(seq![XmlToken::Start(tag)] + s, ids, key) == item_entry(
            behind,
            ids,
            None,
        ),
        item_entry(seq![XmlToken::End("dict"@)] + s, ids, key) == Ok::<_, LibraryFailure>((ids, s)),
        tag != "dict"@ ==> item_entry(seq![XmlToken::End(tag)] + s, ids, key) == item_entry(
            s,
            ids,
            key,
        ),
        item_entry(s, ids, None) == Ok::<_, LibraryFailure>((more, behind)) ==> item_entries(
            seq![XmlToken::Start("dict"@)] + s,
            ids,
        ) == item_entries(behind, more),
        item_entries(seq![XmlToken::End("array"@)] + s, ids) == Ok::<_, LibraryFailure>((ids, s)),
{
    tags_differ();
    assert((seq![XmlToken::Start("key"@)] + s).drop_first() =~= s);
    assert((seq![XmlToken::Start("integer"@)] + s).drop_first() =~= s);
    assert((seq![XmlToken::Start("dict"@)] + s).drop_first() =~= s);
    assert((seq![XmlToken::Start(tag)] + s).drop_first() =~= s);
    assert((seq![XmlToken::End("dict"@)] + s).drop_first() =~= s);
    assert((seq![XmlToken::End("array"@)] + s).drop_first() =~= s);
    assert((seq![XmlToken::End(tag)] + s).drop_first() =~= s);
}

/// In the dictionary of a playlist the string under `Name`, the integer under
/// `Playlist ID` and the array under `Playlist Items` are read; any other
/// value is passed over. The playlists are read one by one up to the end of
/// the array.
pub proof fn playlist_is_read_value_by_value(
    s: Seq<XmlToken>,
    behind: Seq<XmlToken>,
    tag: Seq<char>,
    v: Seq<char>,
    ids: Seq<Seq<char>>,
    p: PlaylistEntry,
    key: Option<Seq<char>>,
    playlists: Seq<PlaylistModel>,
    tracks: Map<Seq<char>, TrackView>,
    checked: Seq<Seq<char>>,
)
    ensures
        element_text(s, "key"@, Seq::empty()) == Ok::<_, LibraryFailure>((v, behind))
            ==> playlist_entry(seq![XmlToken::Start("key"@)] + s, p, key) == playlist_entry(
            behind,
            p,
            Some(v),
        ),
        element_text(s, "string"@, Seq::empty()) == Ok::<_, LibraryFailure>((v, behind))
            ==> playlist_entry(seq![XmlToken::Start("string"@)] + s, p, key) == playlist_entry(
            behind,
            if key == Some("Name"@) {
                PlaylistEntry { name: Some(v), ..p }
            } else {
                p
            },
            None,
        ),
        element_text(s, "integer"@, Seq::empty()) == Ok::<_, LibraryFailure>((v, behind))
            ==> playlist_entry(seq![XmlToken::Start("integer"@)] + s, p, key) == playlist_entry(
            behind,
            if key == Some("Playlist ID"@) {
                PlaylistEntry { id: Some(v), ..p }
            } else {
                p
            },
            None,
        ),
        key == Some("Playlist Items"@) && item_entries(s, Seq::empty()) == Ok::<
            _,
            LibraryFailure,
        >((ids, behind)) ==> playlist_entry(seq![XmlToken::Start("array"@)] + s, p, key)
            == playlist_entry(behind, PlaylistEntry { items: Some(ids), ..p }, None),
        tag != "key"@ && tag != "string"@ && tag != "integer"@ && (tag != "array"@ || key != Some(
            "Playlist Items"@,
        )) && skipped_element(s, tag, 1) == Ok::<_, LibraryFailure>(behind) ==> playlist_entry(
            seq![XmlToken::Start(tag)] + s,
            p,
            key,
        ) == playlist_entry(behind, p, None),
        playlist_entry(seq![XmlToken::Empty] + s, p, key) == playlist_entry(s, p, None),
        playlist_entry(seq![XmlToken::End("dict"@)] + s, p, key) == Ok::<_, LibraryFailure>((p, s)),
        playlist_entry(s, PlaylistEntry::empty(), None) == Ok::<_, LibraryFailure>((p, behind))
            ==> playlist_entries(
            seq![XmlToken::Start("dict"@)] + s,
            playlists,
            tracks,
            checked,
        ) == playlist_entries(
            behind,
            match p.playlist(tracks, checked) {
                Some(m) => playlists.push(m),
                None => playlists,
            },
            tracks,
            checked,
        ),
        playlist_entries(seq![XmlToken::End("array"@)] + s, playlists, tracks, checked) == Ok::<
            _,
            LibraryFailure,
        >((playlists, s)),
{
    tags_differ();
    assert((seq![XmlToken::Start("key"@)] + s).drop_first() =~= s);
    assert((seq![XmlToken::Start("string"@)] + s).drop_first() =~= s);
    assert((seq![XmlToken::Start("integer"@)] + s).drop_first() =~= s);
    assert((seq![XmlToken::Start("dict"@)] + s).drop_first() =~= s);
    assert((seq![XmlToken::Start("array"@)] + s).drop_first() =~= s);
    assert((seq![XmlToken::Start(tag)] + s).drop_first() =~= s);
    assert((seq![XmlToken::Empty] + s).drop_first() =~= s);
    assert((seq![XmlToken::End("dict"@)] + s).drop_first() =~= s);
    assert((seq![XmlToken::End("array"@)] + s).drop_first() =~= s);
}

/// In the outer dictionary the string under `Music Folder`, the dictionary
/// under `Tracks` and the array under `Playlists` are read, each under its own
/// key; other values use up the key and are passed over.
pub proof fn outer_dictionary_is_read_value_by_value(
    s: Seq<XmlToken>,
    behind: Seq<XmlToken>,
    tag: Seq<char>,
    v: Seq<char>,
    st: DocumentState,
    tracks: Map<Seq<char>, TrackView>,
    playlists: Seq<PlaylistModel>,
    root: Seq<char>,
    checked: Seq<Seq<char>>,
)
    requires
        st.depth == 2,
    ensures
        element_text(s, "key"@, Seq::empty()) == Ok::<_, LibraryFailure>((v, behind)) ==> document(
            seq![XmlToken::Start("key"@)] + s,
            st,
            root,
            checked,
        ) == document(behind, DocumentState { key: Some(v), ..st }, root, checked),
        element_text(s, "string"@, Seq::empty()) == Ok::<_, LibraryFailure>((v, behind))
            ==> document(seq![XmlToken::Start("string"@)] + s, st, root, checked) == document(
            behind,
            if st.key == Some("Music Folder"@) {
                DocumentState { music_folder: Some(v), key: None, ..st }
            } else {
                DocumentState { key: None, ..st }
            },
            root,
            checked,
        ),
        st.key == Some("Tracks"@) && st.music_folder == Some(v) && track_entries(
            s,
            st.tracks,
            None,
            v,
            root,
        ) == Ok::<_, LibraryFailure>((tracks, behind)) ==> document(
            seq![XmlToken::Start("dict"@)] + s,
            st,
            root,
            checked,
        ) == document(behind, DocumentState { tracks, key: None, ..st }, root, checked),
        st.key == Some("Playlists"@) && playlist_entries(s, st.playlists, st.tracks, checked)
            == Ok::<_, LibraryFailure>((playlists, behind)) ==> document(
            seq![XmlToken::Start("array"@)] + s,
            st,
            root,
            checked,
        ) == document(behind, DocumentState { playlists, key: None, ..st }, root, checked),
        tag != "plist"@ && tag != "dict"@ && tag != "array"@ && tag != "key"@ && tag != "string"@
            && skipped_element(s, tag, 1) == Ok::<_, LibraryFailure>(behind) ==> document(
            seq![XmlToken::Start(tag)] + s,
            st,
            root,
            checked,
        ) == document(behind, DocumentState { key: None, ..st }, root, checked),
{
    tags_differ();
    assert((seq![XmlToken::Start("key"@)] + s).drop_first() =~= s);
    assert((seq![XmlToken::Start("string"@)] + s).drop_first() =~= s);
    assert((seq![XmlToken::Start("dict"@)] + s).drop_first() =~= s);
    assert((seq![XmlToken::Start("array"@)] + s).drop_first() =~= s);
    assert((seq![XmlToken::Start(tag)] + s).drop_first() =~= s);
}

/// Dictionaries and `plist` elements are counted, so that what stands in a
/// dictionary inside the outer one is not taken for the outer one's.
pub proof fn depth_is_counted(
    s: Seq<XmlToken>,
    st: DocumentState,
    root: Seq<char>,
    checked: Seq<Seq<char>>,
)
    ensures
        document(seq![XmlToken::Start("plist"@)] + s, st, root, checked) == document(
            s,
            DocumentState { depth: st.depth + 1, ..st },
            root,
            checked,
        ),
        st.depth != 2 || st.key != Some("Tracks"@) ==> document(
            seq![XmlToken::Start("dict"@)] + s,
            st,
            root,
            checked,
        ) == document(s, DocumentState { depth: st.depth + 1, ..st }, root, checked),
        st.depth > 0 ==> document(seq![XmlToken::End("dict"@)] + s, st, root, checked) == document(
            s,
            DocumentState { depth: (st.depth - 1) as nat, ..st },
            root,
            checked,
        ),
        st.depth > 0 ==> document(seq![XmlToken::End("plist"@)] + s, st, root, checked) == document(
            s,
            DocumentState { depth: (st.depth - 1) as nat, ..st },
            root,
            checked,
        ),
        st.depth == 0 ==> document(seq![XmlToken::End("dict"@)] + s, st, root, checked) == Ok::<
            _,
            LibraryFailure,
        >(st),
        document(Seq::empty(), st, root, checked) == Ok::<_, LibraryFailure>(st),
{
    tags_differ();
    assert((seq![XmlToken::Start("plist"@)] + s).drop_first() =~= s);
    assert((seq![XmlToken::Start("dict"@)] + s).drop_first() =~= s);
    assert((seq![XmlToken::End("dict"@)] + s).drop_first() =~= s);
    assert((seq![XmlToken::End("plist"@)] + s).drop_first() =~= s);
}

/// A document that is read to its end is a library where it names a music
/// folder, with the tracks and the playlists that were read, and is refused
/// where it does not; what stops the reading refuses the document.
pub proof fn library_needs_a_music_folder(
    events: Seq<XmlToken>,
    root: Seq<char>,
    checked: Seq<Seq<char>>,
    st: DocumentState,
    f: LibraryFailure,
)
    ensures
        ({
            let start = DocumentState {
                depth: 0,
                key: None,
                music_folder: None,
                tracks: Map::empty(),
                playlists: Seq::empty(),
            };
            &&& document(events, start, root, checked) == Ok::<_, LibraryFailure>(st) ==> (
            match st.music_folder {
                Some(folder) => library_of(events, root, checked) == Ok::<
                    LibraryModel,
                    LibraryFailure,
                >(
                    LibraryModel {
                        music_folder: folder,
                        tracks: st.tracks,
                        playlists: st.playlists,
                    },
                ),
                None => library_of(events, root, checked) == Err::<LibraryModel, LibraryFailure>(
                    LibraryFailure::NoMusicFolder,
                ),
            })
            &&& document(events, start, root, checked) == Err::<DocumentState, _>(f) ==> library_of(
                events,
                root,
                checked,
            ) == Err::<LibraryModel, LibraryFailure>(f)
        }),
{
}

/// The events of a document are those of its tokens, one for one; character
/// data stands in them with its entities resolved, or as bad where that cannot
/// be done, and everything else as it is.
pub proof fn events_are_resolved_tokens(xml: Seq<char>, i: int)
    ensures
        document_events(xml).len() == document_tokens(xml).len(),
        0 <= i < document_tokens(xml).len() ==> ({
            let t = document_tokens(xml)[i];
            let e = document_events(xml)[i];
            &&& !(t is Text) ==> e == t
            &&& t matches XmlToken::Text(raw) ==> (match text_resolved(raw) {
                Ok(s) => e == XmlToken::Text(s),
                Err(m) => e == XmlToken::BadText(m),
            })
        }),
{
}

/// The reason for which a document is refused is told in words.
pub proof fn failures_are_told(m: Seq<char>)
    ensures
        LibraryFailure::Xml(m).text() == m,
        LibraryFailure::EndInElement(m).text() == "unexpected EOF reading <"@ + m + ">"@,
        LibraryFailure::EndInTracks.text() == "unexpected EOF in Tracks dict"@,
        LibraryFailure::EndInTrack.text() == "unexpected EOF in track dict"@,
        LibraryFailure::EndInPlaylists.text() == "unexpected EOF in Playlists array"@,
        LibraryFailure::EndInPlaylist.text() == "unexpected EOF in playlist dict"@,
        LibraryFailure::EndInItems.text() == "EOF in playlist items array"@,
        LibraryFailure::EndInItem.text() == "EOF in playlist item dict"@,
        LibraryFailure::NoMusicFolder.text() == "Library.xml missing Music Folder key"@,
{
}

} // verus!
