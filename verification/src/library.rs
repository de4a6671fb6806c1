//! The music library, and its reading from an iTunes / Apple Music
//! `Library.xml`.
//!
//! Such a document is a property list. Of it these parts are read:
//!
//! ```xml
//! <plist>
//!   <dict>
//!     <key>Music Folder</key> <string>file://localhost/.../</string>
//!     <key>Tracks</key>
//!     <dict>
//!       <key>123</key>
//!       <dict>
//!         <key>Name</key>     <string>...</string>
//!         <key>Artist</key>   <string>...</string>
//!         <key>Size</key>     <integer>...</integer>
//!         <key>Location</key> <string>file://...</string>
//!       </dict>
//!     </dict>
//!     <key>Playlists</key>
//!     <array>
//!       <dict>
//!         <key>Name</key>           <string>...</string>
//!         <key>Playlist ID</key>    <integer>...</integer>
//!         <key>Playlist Items</key>
//!         <array>
//!           <dict><key>Track ID</key><integer>123</integer></dict>
//!         </array>
//!       </dict>
//!     </array>
//!   </dict>
//! </plist>
//! ```
//!
//! The document is walked once, as a list of events.
use vstd::prelude::*;

use crate::numbers::{parse_number, parsed_number};
use crate::playlist::{playlist_models, Playlist, PlaylistModel};
use crate::settings::{is_checked, Settings};
use crate::text::{opt_text, same_text, texts};
use crate::track::{track_of_fields, Track, TrackView};
use crate::tracks::TrackMap;
use crate::xml::{document_events, read_events, tokens, XmlEvent, XmlToken};

verus! {

/// Why a document is no library.
#[derive(Debug, PartialEq, Eq)]
pub enum LibraryError {
    /// It is not readable as XML, or holds an entity that cannot be resolved.
    Xml(String),
    /// It ends inside an element with this tag.
    EndInElement(String),
    /// It ends inside the `Tracks` dictionary.
    EndInTracks,
    /// It ends inside the dictionary of a track.
    EndInTrack,
    /// It ends inside the `Playlists` array.
    EndInPlaylists,
    /// It ends inside the dictionary of a playlist.
    EndInPlaylist,
    /// It ends inside the array of the items of a playlist.
    EndInItems,
    /// It ends inside the dictionary of an item of a playlist.
    EndInItem,
    /// It names no music folder.
    NoMusicFolder,
}

/// Why a document is no library, over characters.
#[verifier::ext_equal]
pub enum LibraryFailure {
    Xml(Seq<char>),
    EndInElement(Seq<char>),
    EndInTracks,
    EndInTrack,
    EndInPlaylists,
    EndInPlaylist,
    EndInItems,
    EndInItem,
    NoMusicFolder,
}

impl View for LibraryError {
    type V = LibraryFailure;

    open spec fn view(&self) -> LibraryFailure {
        match self {
            LibraryError::Xml(m) => LibraryFailure::Xml(m@),
            LibraryError::EndInElement(t) => LibraryFailure::EndInElement(t@),
            LibraryError::EndInTracks => LibraryFailure::EndInTracks,
            LibraryError::EndInTrack => LibraryFailure::EndInTrack,
            LibraryError::EndInPlaylists => LibraryFailure::EndInPlaylists,
            LibraryError::EndInPlaylist => LibraryFailure::EndInPlaylist,
            LibraryError::EndInItems => LibraryFailure::EndInItems,
            LibraryError::EndInItem => LibraryFailure::EndInItem,
            LibraryError::NoMusicFolder => LibraryFailure::NoMusicFolder,
        }
    }
}

impl LibraryFailure {
    /// The message for the user.
    pub open spec fn text(self) -> Seq<char> {
        match self {
            LibraryFailure::Xml(m) => m,
            LibraryFailure::EndInElement(t) => "unexpected EOF reading <"@ + t + ">"@,
            LibraryFailure::EndInTracks => "unexpected EOF in Tracks dict"@,
            LibraryFailure::EndInTrack => "unexpected EOF in track dict"@,
            LibraryFailure::EndInPlaylists => "unexpected EOF in Playlists array"@,
            LibraryFailure::EndInPlaylist => "unexpected EOF in playlist dict"@,
            LibraryFailure::EndInItems => "EOF in playlist items array"@,
            LibraryFailure::EndInItem => "EOF in playlist item dict"@,
            LibraryFailure::NoMusicFolder => "Library.xml missing Music Folder key"@,
        }
    }
}

impl LibraryError {
    /// The message for the user.
    pub fn message(&self) -> (s: String)
        ensures
            s@ == self@.text(),
    {
        match self {
            LibraryError::Xml(m) => m.clone(),
            LibraryError::EndInElement(t) => {
                let mut s: String = "unexpected EOF reading <".to_owned();
                s.append(t.as_str());
                s.append(">");
                s
            },
            LibraryError::EndInTracks => "unexpected EOF in Tracks dict".to_owned(),
            LibraryError::EndInTrack => "unexpected EOF in track dict".to_owned(),
            LibraryError::EndInPlaylists => "unexpected EOF in Playlists array".to_owned(),
            LibraryError::EndInPlaylist => "unexpected EOF in playlist dict".to_owned(),
            LibraryError::EndInItems => "EOF in playlist items array".to_owned(),
            LibraryError::EndInItem => "EOF in playlist item dict".to_owned(),
            LibraryError::NoMusicFolder => "Library.xml missing Music Folder key".to_owned(),
        }
    }
}

// ---------------------------------------------------------------------------
// Walking the events
// ---------------------------------------------------------------------------

/// A place in a list of events.
struct Cursor<'a> {
    events: &'a Vec<XmlEvent>,
    at: usize,
}

impl<'a> Cursor<'a> {
    spec fn wf(self) -> bool {
        self.at <= self.events@.len()
    }

    /// The events that are left.
    spec fn left(self) -> Seq<XmlToken> {
        tokens(self.events@).skip(self.at as int)
    }

    /// Takes the next event.
    fn next(&mut self) -> (e: Option<&'a XmlEvent>)
        requires
            old(self).wf(),
        ensures
            final(self).wf(),
            match e {
                Some(ev) => {
                    &&& old(self).left().len() > 0
                    &&& ev@ == old(self).left()[0]
                    &&& final(self).left() == old(self).left().drop_first()
                    &&& final(self).at > 0
                },
                None => old(self).left().len() == 0 && final(self).left() == old(self).left(),
            },
    {
        if self.at < self.events.len() {
            let i: usize = self.at;
            self.at = i + 1;
            assert(self.left() =~= old(self).left().drop_first());
            Some(&self.events[i])
        } else {
            None
        }
    }
}

// ---------------------------------------------------------------------------
// The content of one element
// ---------------------------------------------------------------------------

/// Reads the character data of an open element, behind `before`: up to the
/// closing tag `tag`, whatever other elements stand in between. Yields the
/// data and the events that are left.
pub open spec fn element_text(
    s: Seq<XmlToken>,
    tag: Seq<char>,
    before: Seq<char>,
) -> Result<(Seq<char>, Seq<XmlToken>), LibraryFailure>
    decreases s.len(),
{
    if s.len() == 0 {
        Err(LibraryFailure::EndInElement(tag))
    } else {
        match s[0] {
            XmlToken::Text(t) => element_text(s.drop_first(), tag, before + t),
            XmlToken::CData(t) => element_text(s.drop_first(), tag, before + t),
            XmlToken::BadText(m) => Err(LibraryFailure::Xml(m)),
            XmlToken::Failed(m) => Err(LibraryFailure::Xml(m)),
            XmlToken::End(n) => if n == tag {
                Ok((before, s.drop_first()))
            } else {
                element_text(s.drop_first(), tag, before)
            },
            _ => element_text(s.drop_first(), tag, before),
        }
    }
}

/// Passes over the rest of `depth` open elements of one tag, up to and with
/// the closing tag of the outermost, or up to the end of the document. Yields
/// the events that are left.
pub open spec fn skipped_element(
    s: Seq<XmlToken>,
    tag: Seq<char>,
    depth: nat,
) -> Result<Seq<XmlToken>, LibraryFailure>
    decreases s.len(),
{
    if s.len() == 0 {
        Ok(s)
    } else {
        match s[0] {
            XmlToken::Start(n) => skipped_element(
                s.drop_first(),
                tag,
                if n == tag {
                    depth + 1
                } else {
                    depth
                },
            ),
            XmlToken::End(n) => if n == tag {
                if depth <= 1 {
                    Ok(s.drop_first())
                } else {
                    skipped_element(s.drop_first(), tag, (depth - 1) as nat)
                }
            } else {
                skipped_element(s.drop_first(), tag, depth)
            },
            XmlToken::Failed(m) => Err(LibraryFailure::Xml(m)),
            _ => skipped_element(s.drop_first(), tag, depth),
        }
    }
}

/// Reading an element takes at least one event.
pub proof fn element_text_takes(s: Seq<XmlToken>, tag: Seq<char>, before: Seq<char>)
    ensures
        element_text(s, tag, before) matches Ok(r) ==> r.1.len() < s.len(),
    decreases s.len(),
{
    if s.len() > 0 {
        match s[0] {
            XmlToken::Text(t) => element_text_takes(s.drop_first(), tag, before + t),
            XmlToken::CData(t) => element_text_takes(s.drop_first(), tag, before + t),
            _ => element_text_takes(s.drop_first(), tag, before),
        }
    }
}

/// Passing over an element adds no events.
pub proof fn skipped_element_takes(s: Seq<XmlToken>, tag: Seq<char>, depth: nat)
    ensures
        skipped_element(s, tag, depth) matches Ok(r) ==> r.len() <= s.len(),
    decreases s.len(),
{
    if s.len() > 0 {
        skipped_element_takes(s.drop_first(), tag, depth);
        skipped_element_takes(s.drop_first(), tag, depth + 1);
        if depth > 1 {
            skipped_element_takes(s.drop_first(), tag, (depth - 1) as nat);
        }
    }
}

/// Reads the character data of the open element `tag`.
fn read_text(cur: &mut Cursor, tag: &str) -> (r: Result<String, LibraryError>)
    requires
        old(cur).wf(),
    ensures
        final(cur).wf(),
        match r {
            Ok(t) => element_text(old(cur).left(), tag@, Seq::empty()) == Ok::<
                (Seq<char>, Seq<XmlToken>),
                LibraryFailure,
            >((t@, final(cur).left())),
            Err(e) => element_text(old(cur).left(), tag@, Seq::empty()) == Err::<
                (Seq<char>, Seq<XmlToken>),
                LibraryFailure,
            >(e@),
        },
{
    let mut out = String::new();
    let ghost start = cur.left();
    loop
        invariant
            cur.wf(),
            start == old(cur).left(),
            element_text(cur.left(), tag@, out@) == element_text(start, tag@, Seq::empty()),
        decreases cur.left().len(),
    {
        match cur.next() {
            Some(XmlEvent::Text(t)) => out.append(t.as_str()),
            Some(XmlEvent::CData(t)) => out.append(t.as_str()),
            Some(XmlEvent::BadText(m)) => return Err(LibraryError::Xml(m.clone())),
            Some(XmlEvent::Failed(m)) => return Err(LibraryError::Xml(m.clone())),
            Some(XmlEvent::End(n)) => {
                if same_text(n.as_str(), tag) {
                    return Ok(out);
                }
            },
            Some(_) => {},
            None => return Err(LibraryError::EndInElement(tag.to_owned())),
        }
    }
}

/// Passes over the rest of the open element `tag`.
fn skip_to_end(cur: &mut Cursor, tag: &str) -> (r: Result<(), LibraryError>)
    requires
        old(cur).wf(),
        old(cur).at > 0,
    ensures
        final(cur).wf(),
        match r {
            Ok(_) => skipped_element(old(cur).left(), tag@, 1) == Ok::<
                Seq<XmlToken>,
                LibraryFailure,
            >(final(cur).left()),
            Err(e) => skipped_element(old(cur).left(), tag@, 1) == Err::<
                Seq<XmlToken>,
                LibraryFailure,
            >(e@),
        },
{
    let mut depth: usize = 1;
    let ghost start = cur.left();
    let total: usize = cur.events.len();
    let ghost n_left = start.len();
    loop
        invariant
            cur.wf(),
            start == old(cur).left(),
            n_left == start.len(),
            n_left < total,
            1 <= depth,
            depth + cur.left().len() <= n_left + 1,
            skipped_element(cur.left(), tag@, depth as nat) == skipped_element(start, tag@, 1),
        decreases cur.left().len(),
    {
        match cur.next() {
            Some(XmlEvent::Start(n)) => {
                if same_text(n.as_str(), tag) {
                    depth = depth + 1;
                }
            },
            Some(XmlEvent::End(n)) => {
                if same_text(n.as_str(), tag) {
                    if depth == 1 {
                        return Ok(());
                    }
                    depth = depth - 1;
                }
            },
            Some(XmlEvent::Failed(m)) => return Err(LibraryError::Xml(m.clone())),
            Some(_) => {},
            None => return Ok(()),
        }
    }
}

// ---------------------------------------------------------------------------
// One track
// ---------------------------------------------------------------------------

/// What is read of a track.
struct TrackFields {
    name: Option<String>,
    artist: Option<String>,
    size: Option<u64>,
    location: Option<String>,
}

/// What is read of a track, over characters.
#[verifier::ext_equal]
pub struct TrackEntry {
    pub name: Option<Seq<char>>,
    pub artist: Option<Seq<char>>,
    pub size: Option<u64>,
    pub location: Option<Seq<char>>,
}

impl View for TrackFields {
    type V = TrackEntry;

    closed spec fn view(&self) -> TrackEntry {
        TrackEntry {
            name: opt_text(self.name),
            artist: opt_text(self.artist),
            size: self.size,
            location: opt_text(self.location),
        }
    }
}

impl TrackEntry {
    /// Nothing read yet.
    pub open spec fn empty() -> TrackEntry {
        TrackEntry { name: None, artist: None, size: None, location: None }
    }

    /// With a string read under a key.
    pub open spec fn with_string(self, key: Option<Seq<char>>, v: Seq<char>) -> TrackEntry {
        if key == Some("Name"@) {
            TrackEntry { name: Some(v), ..self }
        } else if key == Some("Artist"@) {
            TrackEntry { artist: Some(v), ..self }
        } else if key == Some("Location"@) {
            TrackEntry { location: Some(v), ..self }
        } else {
            self
        }
    }

    /// With an integer read under a key. A size that is no number is none.
    pub open spec fn with_integer(self, key: Option<Seq<char>>, v: Seq<char>) -> TrackEntry {
        if key == Some("Size"@) {
            TrackEntry {
                size: match parsed_number(v, u64::MAX as nat) {
                    Some(n) => Some(n as u64),
                    None => None,
                },
                ..self
            }
        } else {
            self
        }
    }

    /// The track of an ID, if the entry has a location.
    pub open spec fn track(
        self,
        id: Seq<char>,
        music_folder: Seq<char>,
        root: Seq<char>,
    ) -> Option<TrackView> {
        match self.location {
            Some(location) => Some(
                track_of_fields(
                    id,
                    text_or_empty(self.name),
                    text_or_empty(self.artist),
                    match self.size {
                        Some(n) => n,
                        None => 0,
                    },
                    location,
                    music_folder,
                    root,
                ),
            ),
            None => None,
        }
    }
}

/// A text, or the empty one where there is none.
pub open spec fn text_or_empty(o: Option<Seq<char>>) -> Seq<char> {
    match o {
        Some(t) => t,
        None => Seq::empty(),
    }
}

/// Reads the inside of the dictionary of a track, behind `entry` and the key
/// that waits for its value, up to and with the closing tag.
pub open spec fn track_entry(
    s: Seq<XmlToken>,
    entry: TrackEntry,
    key: Option<Seq<char>>,
) -> Result<(TrackEntry, Seq<XmlToken>), LibraryFailure>
    decreases s.len(),
{
    if s.len() == 0 {
        Err(LibraryFailure::EndInTrack)
    } else {
        let rest = s.drop_first();
        match s[0] {
            XmlToken::Start(n) => if n == "key"@ || n == "string"@ || n == "integer"@ {
                proof {
                    element_text_takes(rest, n, Seq::empty());
                }
                match element_text(rest, n, Seq::empty()) {
                    Ok((v, behind)) => if n == "key"@ {
                        track_entry(behind, entry, Some(v))
                    } else if n == "string"@ {
                        track_entry(behind, entry.with_string(key, v), None)
                    } else {
                        track_entry(behind, entry.with_integer(key, v), None)
                    },
                    Err(e) => Err(e),
                }
            } else {
                proof {
                    skipped_element_takes(rest, n, 1);
                }
                match skipped_element(rest, n, 1) {
                    Ok(behind) => track_entry(behind, entry, None),
                    Err(e) => Err(e),
                }
            },
            XmlToken::Empty => track_entry(rest, entry, None),
            XmlToken::End(n) => if n == "dict"@ {
                Ok((entry, rest))
            } else {
                track_entry(rest, entry, key)
            },
            XmlToken::Failed(m) => Err(LibraryFailure::Xml(m)),
            _ => track_entry(rest, entry, key),
        }
    }
}

/// Reading a track takes at least one event.
pub proof fn track_entry_takes(s: Seq<XmlToken>, entry: TrackEntry, key: Option<Seq<char>>)
    ensures
        track_entry(s, entry, key) matches Ok(r) ==> r.1.len() < s.len(),
    decreases s.len(),
{
    if s.len() > 0 {
        let rest = s.drop_first();
        match s[0] {
            XmlToken::Start(n) => {
                if n == "key"@ || n == "string"@ || n == "integer"@ {
                    element_text_takes(rest, n, Seq::empty());
                    if let Ok((v, behind)) = element_text(rest, n, Seq::empty()) {
                        track_entry_takes(behind, entry, Some(v));
                        track_entry_takes(behind, entry.with_string(key, v), None);
                        track_entry_takes(behind, entry.with_integer(key, v), None);
                    }
                } else {
                    skipped_element_takes(rest, n, 1);
                    if let Ok(behind) = skipped_element(rest, n, 1) {
                        track_entry_takes(behind, entry, None);
                    }
                }
            },
            XmlToken::Empty => track_entry_takes(rest, entry, None),
            _ => track_entry_takes(rest, entry, key),
        }
    }
}

/// Whether a waiting key is `k`.
fn key_is(key: &Option<String>, k: &str) -> (r: bool)
    ensures
        r == (opt_text(*key) == Some(k@)),
{
    match key {
        Some(s) => same_text(s.as_str(), k),
        None => false,
    }
}

/// Reads the inside of the dictionary of a track.
fn parse_track_fields(cur: &mut Cursor) -> (r: Result<TrackFields, LibraryError>)
    requires
        old(cur).wf(),
    ensures
        final(cur).wf(),
        match r {
            Ok(f) => track_entry(old(cur).left(), TrackEntry::empty(), None) == Ok::<
                (TrackEntry, Seq<XmlToken>),
                LibraryFailure,
            >((f@, final(cur).left())),
            Err(e) => track_entry(old(cur).left(), TrackEntry::empty(), None) == Err::<
                (TrackEntry, Seq<XmlToken>),
                LibraryFailure,
            >(e@),
        },
{
    let mut fields = TrackFields { name: None, artist: None, size: None, location: None };
    let mut key: Option<String> = None;
    let ghost start = cur.left();
    loop
        invariant
            cur.wf(),
            start == old(cur).left(),
            track_entry(cur.left(), fields@, opt_text(key)) == track_entry(
                start,
                TrackEntry::empty(),
                None,
            ),
        decreases cur.left().len(),
    {
        match cur.next() {
            Some(XmlEvent::Start(n)) => {
                let ghost rest = cur.left();
                proof {
                    element_text_takes(rest, n@, Seq::empty());
                    skipped_element_takes(rest, n@, 1);
                }
                if same_text(n.as_str(), "key") {
                    match read_text(cur, "key") {
                        Ok(v) => key = Some(v),
                        Err(e) => return Err(e),
                    }
                } else if same_text(n.as_str(), "string") {
                    match read_text(cur, "string") {
                        Ok(v) => {
                            if key_is(&key, "Name") {
                                fields.name = Some(v);
                            } else if key_is(&key, "Artist") {
                                fields.artist = Some(v);
                            } else if key_is(&key, "Location") {
                                fields.location = Some(v);
                            }
                            key = None;
                        },
                        Err(e) => return Err(e),
                    }
                } else if same_text(n.as_str(), "integer") {
                    match read_text(cur, "integer") {
                        Ok(v) => {
                            if key_is(&key, "Size") {
                                fields.size = parse_number(v.as_str(), u64::MAX);
                            }
                            key = None;
                        },
                        Err(e) => return Err(e),
                    }
                } else {
                    match skip_to_end(cur, n.as_str()) {
                        Ok(_) => key = None,
                        Err(e) => return Err(e),
                    }
                }
            },
            Some(XmlEvent::Empty) => key = None,
            Some(XmlEvent::End(n)) => {
                if same_text(n.as_str(), "dict") {
                    return Ok(fields);
                }
            },
            Some(XmlEvent::Failed(m)) => return Err(LibraryError::Xml(m.clone())),
            Some(_) => {},
            None => return Err(LibraryError::EndInTrack),
        }
    }
}

// ---------------------------------------------------------------------------
// The tracks
// ---------------------------------------------------------------------------

/// The tracks with one more entry, if the entry has a location.
pub open spec fn with_entry(
    tracks: Map<Seq<char>, TrackView>,
    id: Seq<char>,
    entry: TrackEntry,
    music_folder: Seq<char>,
    root: Seq<char>,
) -> Map<Seq<char>, TrackView> {
    match entry.track(id, music_folder, root) {
        Some(t) => tracks.insert(id, t),
        None => tracks,
    }
}

/// Reads the inside of the `Tracks` dictionary, behind `tracks` and the ID
/// that waits for its entry, up to and with the closing tag.
pub open spec fn track_entries(
    s: Seq<XmlToken>,
    tracks: Map<Seq<char>, TrackView>,
    key: Option<Seq<char>>,
    music_folder: Seq<char>,
    root: Seq<char>,
) -> Result<(Map<Seq<char>, TrackView>, Seq<XmlToken>), LibraryFailure>
    decreases s.len(),
{
    if s.len() == 0 {
        Err(LibraryFailure::EndInTracks)
    } else {
        let rest = s.drop_first();
        match s[0] {
            XmlToken::Start(n) => if n == "key"@ {
                proof {
                    element_text_takes(rest, n, Seq::empty());
                }
                match element_text(rest, n, Seq::empty()) {
                    Ok((v, behind)) => track_entries(behind, tracks, Some(v), music_folder, root),
                    Err(e) => Err(e),
                }
            } else if n == "dict"@ {
                proof {
                    track_entry_takes(rest, TrackEntry::empty(), None);
                }
                match track_entry(rest, TrackEntry::empty(), None) {
                    Ok((entry, behind)) => track_entries(
                        behind,
                        with_entry(tracks, text_or_empty(key), entry, music_folder, root),
                        None,
                        music_folder,
                        root,
                    ),
                    Err(e) => Err(e),
                }
            } else {
                proof {
                    skipped_element_takes(rest, n, 1);
                }
                match skipped_element(rest, n, 1) {
                    Ok(behind) => track_entries(behind, tracks, key, music_folder, root),
                    Err(e) => Err(e),
                }
            },
            XmlToken::End(n) => if n == "dict"@ {
                Ok((tracks, rest))
            } else {
                track_entries(rest, tracks, key, music_folder, root)
            },
            XmlToken::Failed(m) => Err(LibraryFailure::Xml(m)),
            _ => track_entries(rest, tracks, key, music_folder, root),
        }
    }
}

/// Reading the tracks takes at least one event.
pub proof fn track_entries_takes(
    s: Seq<XmlToken>,
    tracks: Map<Seq<char>, TrackView>,
    key: Option<Seq<char>>,
    music_folder: Seq<char>,
    root: Seq<char>,
)
    ensures
        track_entries(s, tracks, key, music_folder, root) matches Ok(r) ==> r.1.len() < s.len(),
    decreases s.len(),
{
    if s.len() > 0 {
        let rest = s.drop_first();
        track_entries_takes(rest, tracks, key, music_folder, root);
        if let XmlToken::Start(n) = s[0] {
            element_text_takes(rest, n, Seq::empty());
            track_entry_takes(rest, TrackEntry::empty(), None);
            skipped_element_takes(rest, n, 1);
            if n == "key"@ {
                if let Ok((v, behind)) = element_text(rest, n, Seq::empty()) {
                    track_entries_takes(behind, tracks, Some(v), music_folder, root);
                }
            } else if n == "dict"@ {
                if let Ok((entry, behind)) = track_entry(rest, TrackEntry::empty(), None) {
                    track_entries_takes(
                        behind,
                        with_entry(tracks, text_or_empty(key), entry, music_folder, root),
                        None,
                        music_folder,
                        root,
                    );
                }
            } else {
                if let Ok(behind) = skipped_element(rest, n, 1) {
                    track_entries_takes(behind, tracks, key, music_folder, root);
                }
            }
        }
    }
}

/// A string, or an empty one where there is none.
fn unwrap_or_empty(o: Option<String>) -> (s: String)
    ensures
        s@ == text_or_empty(opt_text(o)),
{
    match o {
        Some(s) => s,
        None => String::new(),
    }
}

/// Reads the inside of the `Tracks` dictionary and adds its tracks.
fn parse_tracks_dict(
    cur: &mut Cursor,
    tracks: &mut TrackMap,
    music_folder: &str,
    device_music_root: &str,
) -> (r: Result<(), LibraryError>)
    requires
        old(cur).wf(),
    ensures
        final(cur).wf(),
        match r {
            Ok(_) => track_entries(
                old(cur).left(),
                old(tracks)@,
                None,
                music_folder@,
                device_music_root@,
            ) == Ok::<(Map<Seq<char>, TrackView>, Seq<XmlToken>), LibraryFailure>(
                (final(tracks)@, final(cur).left()),
            ),
            Err(e) => track_entries(
                old(cur).left(),
                old(tracks)@,
                None,
                music_folder@,
                device_music_root@,
            ) == Err::<(Map<Seq<char>, TrackView>, Seq<XmlToken>), LibraryFailure>(e@),
        },
{
    let mut key: Option<String> = None;
    let ghost start = cur.left();
    let ghost before = tracks@;
    loop
        invariant
            cur.wf(),
            start == old(cur).left(),
            before == old(tracks)@,
            track_entries(
                cur.left(),
                tracks@,
                opt_text(key),
                music_folder@,
                device_music_root@,
            ) == track_entries(start, before, None, music_folder@, device_music_root@),
        decreases cur.left().len(),
    {
        match cur.next() {
            Some(XmlEvent::Start(n)) => {
                let ghost rest = cur.left();
                proof {
                    element_text_takes(rest, n@, Seq::empty());
                    skipped_element_takes(rest, n@, 1);
                    track_entry_takes(rest, TrackEntry::empty(), None);
                }
                if same_text(n.as_str(), "key") {
                    match read_text(cur, "key") {
                        Ok(v) => key = Some(v),
                        Err(e) => return Err(e),
                    }
                } else if same_text(n.as_str(), "dict") {
                    let id: String = unwrap_or_empty(key);
                    key = None;
                    match parse_track_fields(cur) {
                        Ok(fields) => {
                            if let Some(location) = fields.location {
                                let track: Track = Track::from_xml_fields(
                                    id.clone(),
                                    unwrap_or_empty(fields.name),
                                    unwrap_or_empty(fields.artist),
                                    match fields.size {
                                        Some(n) => n,
                                        None => 0,
                                    },
                                    location.as_str(),
                                    music_folder,
                                    device_music_root,
                                );
                                tracks.insert(id, track);
                            }
                        },
                        Err(e) => return Err(e),
                    }
                } else {
                    match skip_to_end(cur, n.as_str()) {
                        Ok(_) => {},
                        Err(e) => return Err(e),
                    }
                }
            },
            Some(XmlEvent::End(n)) => {
                if same_text(n.as_str(), "dict") {
                    return Ok(());
                }
            },
            Some(XmlEvent::Failed(m)) => return Err(LibraryError::Xml(m.clone())),
            Some(_) => {},
            None => return Err(LibraryError::EndInTracks),
        }
    }
}

// ---------------------------------------------------------------------------
// The items of a playlist
// ---------------------------------------------------------------------------

/// Reads the inside of the dictionary of an item, behind the IDs `ids` and the
/// key that waits for its value, up to and with the closing tag.
pub open spec fn item_entry(
    s: Seq<XmlToken>,
    ids: Seq<Seq<char>>,
    key: Option<Seq<char>>,
) -> Result<(Seq<Seq<char>>, Seq<XmlToken>), LibraryFailure>
    decreases s.len(),
{
    if s.len() == 0 {
        Err(LibraryFailure::EndInItem)
    } else {
        let rest = s.drop_first();
        match s[0] {
            XmlToken::Start(n) => if n == "key"@ || n == "integer"@ {
                proof {
                    element_text_takes(rest, n, Seq::empty());
                }
                match element_text(rest, n, Seq::empty()) {
                    Ok((v, behind)) => if n == "key"@ {
                        item_entry(behind, ids, Some(v))
                    } else if key == Some("Track ID"@) {
                        item_entry(behind, ids.push(v), None)
                    } else {
                        item_entry(behind, ids, None)
                    },
                    Err(e) => Err(e),
                }
            } else {
                proof {
                    skipped_element_takes(rest, n, 1);
                }
                match skipped_element(rest, n, 1) {
                    Ok(behind) => item_entry(behind, ids, None),
                    Err(e) => Err(e),
                }
            },
            XmlToken::End(n) => if n == "dict"@ {
                Ok((ids, rest))
            } else {
                item_entry(rest, ids, key)
            },
            XmlToken::Failed(m) => Err(LibraryFailure::Xml(m)),
            _ => item_entry(rest, ids, key),
        }
    }
}

/// Reading an item takes at least one event.
pub proof fn item_entry_takes(s: Seq<XmlToken>, ids: Seq<Seq<char>>, key: Option<Seq<char>>)
    ensures
        item_entry(s, ids, key) matches Ok(r) ==> r.1.len() < s.len(),
    decreases s.len(),
{
    if s.len() > 0 {
        let rest = s.drop_first();
        item_entry_takes(rest, ids, key);
        if let XmlToken::Start(n) = s[0] {
            element_text_takes(rest, n, Seq::empty());
            skipped_element_takes(rest, n, 1);
            if n == "key"@ || n == "integer"@ {
                if let Ok((v, behind)) = element_text(rest, n, Seq::empty()) {
                    item_entry_takes(behind, ids, Some(v));
                    item_entry_takes(behind, ids.push(v), None);
                    item_entry_takes(behind, ids, None);
                }
            } else {
                if let Ok(behind) = skipped_element(rest, n, 1) {
                    item_entry_takes(behind, ids, None);
                }
            }
        }
    }
}

/// Reads the inside of the array of the items of a playlist, behind the IDs
/// `ids`, up to and with the closing tag.
pub open spec fn item_entries(
    s: Seq<XmlToken>,
    ids: Seq<Seq<char>>,
) -> Result<(Seq<Seq<char>>, Seq<XmlToken>), LibraryFailure>
    decreases s.len(),
{
    if s.len() == 0 {
        Err(LibraryFailure::EndInItems)
    } else {
        let rest = s.drop_first();
        match s[0] {
            XmlToken::Start(n) => if n == "dict"@ {
                proof {
                    item_entry_takes(rest, ids, None);
                }
                match item_entry(rest, ids, None) {
                    Ok((more, behind)) => item_entries(behind, more),
                    Err(e) => Err(e),
                }
            } else {
                item_entries(rest, ids)
            },
            XmlToken::End(n) => if n == "array"@ {
                Ok((ids, rest))
            } else {
                item_entries(rest, ids)
            },
            XmlToken::Failed(m) => Err(LibraryFailure::Xml(m)),
            _ => item_entries(rest, ids),
        }
    }
}

/// Reading the items takes at least one event.
pub proof fn item_entries_takes(s: Seq<XmlToken>, ids: Seq<Seq<char>>)
    ensures
        item_entries(s, ids) matches Ok(r) ==> r.1.len() < s.len(),
    decreases s.len(),
{
    if s.len() > 0 {
        let rest = s.drop_first();
        item_entries_takes(rest, ids);
        item_entry_takes(rest, ids, None);
        if let Ok((more, behind)) = item_entry(rest, ids, None) {
            item_entries_takes(behind, more);
        }
    }
}

/// Reads the inside of the dictionary of an item and adds its track ID.
fn parse_playlist_item(cur: &mut Cursor, ids: &mut Vec<String>) -> (r: Result<(), LibraryError>)
    requires
        old(cur).wf(),
    ensures
        final(cur).wf(),
        match r {
            Ok(_) => item_entry(old(cur).left(), texts(old(ids)@), None) == Ok::<
                (Seq<Seq<char>>, Seq<XmlToken>),
                LibraryFailure,
            >((texts(final(ids)@), final(cur).left())),
            Err(e) => item_entry(old(cur).left(), texts(old(ids)@), None) == Err::<
                (Seq<Seq<char>>, Seq<XmlToken>),
                LibraryFailure,
            >(e@),
        },
{
    let mut key: Option<String> = None;
    let ghost start = cur.left();
    let ghost before = texts(ids@);
    loop
        invariant
            cur.wf(),
            start == old(cur).left(),
            before == texts(old(ids)@),
            item_entry(cur.left(), texts(ids@), opt_text(key)) == item_entry(start, before, None),
        decreases cur.left().len(),
    {
        match cur.next() {
            Some(XmlEvent::Start(n)) => {
                let ghost rest = cur.left();
                proof {
                    element_text_takes(rest, n@, Seq::empty());
                    skipped_element_takes(rest, n@, 1);
                }
                if same_text(n.as_str(), "key") {
                    match read_text(cur, "key") {
                        Ok(v) => key = Some(v),
                        Err(e) => return Err(e),
                    }
                } else if same_text(n.as_str(), "integer") {
                    match read_text(cur, "integer") {
                        Ok(v) => {
                            if key_is(&key, "Track ID") {
                                let ghost had = texts(ids@);
                                let ghost vv = v@;
                                ids.push(v);
                                assert(texts(ids@) =~= had.push(vv));
                            }
                            key = None;
                        },
                        Err(e) => return Err(e),
                    }
                } else {
                    match skip_to_end(cur, n.as_str()) {
                        Ok(_) => key = None,
                        Err(e) => return Err(e),
                    }
                }
            },
            Some(XmlEvent::End(n)) => {
                if same_text(n.as_str(), "dict") {
                    return Ok(());
                }
            },
            Some(XmlEvent::Failed(m)) => return Err(LibraryError::Xml(m.clone())),
            Some(_) => {},
            None => return Err(LibraryError::EndInItem),
        }
    }
}

/// Reads the inside of the array of the items of a playlist.
fn parse_playlist_items(cur: &mut Cursor) -> (r: Result<Vec<String>, LibraryError>)
    requires
        old(cur).wf(),
    ensures
        final(cur).wf(),
        match r {
            Ok(ids) => item_entries(old(cur).left(), Seq::empty()) == Ok::<
                (Seq<Seq<char>>, Seq<XmlToken>),
                LibraryFailure,
            >((texts(ids@), final(cur).left())),
            Err(e) => item_entries(old(cur).left(), Seq::empty()) == Err::<
                (Seq<Seq<char>>, Seq<XmlToken>),
                LibraryFailure,
            >(e@),
        },
{
    let mut ids: Vec<String> = Vec::new();
    let ghost start = cur.left();
    assert(texts(ids@) =~= Seq::empty());
    loop
        invariant
            cur.wf(),
            start == old(cur).left(),
            item_entries(cur.left(), texts(ids@)) == item_entries(start, Seq::empty()),
        decreases cur.left().len(),
    {
        match cur.next() {
            Some(XmlEvent::Start(n)) => {
                if same_text(n.as_str(), "dict") {
                    proof {
                        item_entry_takes(cur.left(), texts(ids@), None);
                    }
                    match parse_playlist_item(cur, &mut ids) {
                        Ok(_) => {},
                        Err(e) => return Err(e),
                    }
                }
            },
            Some(XmlEvent::End(n)) => {
                if same_text(n.as_str(), "array") {
                    return Ok(ids);
                }
            },
            Some(XmlEvent::Failed(m)) => return Err(LibraryError::Xml(m.clone())),
            Some(_) => {},
            None => return Err(LibraryError::EndInItems),
        }
    }
}

// ---------------------------------------------------------------------------
// The playlists
// ---------------------------------------------------------------------------

/// What is read of a playlist.
struct PlaylistFields {
    name: Option<String>,
    id: Option<String>,
    items: Option<Vec<String>>,
}

/// What is read of a playlist, over characters.
#[verifier::ext_equal]
pub struct PlaylistEntry {
    pub name: Option<Seq<char>>,
    pub id: Option<Seq<char>>,
    pub items: Option<Seq<Seq<char>>>,
}

/// The strings of a list that may be absent.
pub open spec fn opt_texts(o: Option<Vec<String>>) -> Option<Seq<Seq<char>>> {
    match o {
        Some(v) => Some(texts(v@)),
        None => None,
    }
}

impl View for PlaylistFields {
    type V = PlaylistEntry;

    closed spec fn view(&self) -> PlaylistEntry {
        PlaylistEntry {
            name: opt_text(self.name),
            id: opt_text(self.id),
            items: opt_texts(self.items),
        }
    }
}

impl PlaylistEntry {
    /// Nothing read yet.
    pub open spec fn empty() -> PlaylistEntry {
        PlaylistEntry { name: None, id: None, items: None }
    }

    /// The playlist, if the entry has a name, an ID and items: with the items
    /// that are tracks, chosen just where `checked` has its ID or its name.
    pub open spec fn playlist(
        self,
        tracks: Map<Seq<char>, TrackView>,
        checked: Seq<Seq<char>>,
    ) -> Option<PlaylistModel> {
        match (self.name, self.id, self.items) {
            (Some(name), Some(id), Some(items)) => Some(
                PlaylistModel {
                    name,
                    playlist_id: id,
                    track_ids: items.filter(|t: Seq<char>| tracks.contains_key(t)),
                    checked: is_checked(checked, id, name),
                },
            ),
            _ => None,
        }
    }
}

/// Reads the inside of the dictionary of a playlist, behind `entry` and the
/// key that waits for its value, up to and with the closing tag.
pub open spec fn playlist_entry(
    s: Seq<XmlToken>,
    entry: PlaylistEntry,
    key: Option<Seq<char>>,
) -> Result<(PlaylistEntry, Seq<XmlToken>), LibraryFailure>
    decreases s.len(),
{
    if s.len() == 0 {
        Err(LibraryFailure::EndInPlaylist)
    } else {
        let rest = s.drop_first();
        match s[0] {
            XmlToken::Start(n) => if n == "key"@ || n == "string"@ || n == "integer"@ {
                proof {
                    element_text_takes(rest, n, Seq::empty());
                }
                match element_text(rest, n, Seq::empty()) {
                    Ok((v, behind)) => if n == "key"@ {
                        playlist_entry(behind, entry, Some(v))
                    } else if n == "string"@ && key == Some("Name"@) {
                        playlist_entry(behind, PlaylistEntry { name: Some(v), ..entry }, None)
                    } else if n == "integer"@ && key == Some("Playlist ID"@) {
                        playlist_entry(behind, PlaylistEntry { id: Some(v), ..entry }, None)
                    } else {
                        playlist_entry(behind, entry, None)
                    },
                    Err(e) => Err(e),
                }
            } else if n == "array"@ && key == Some("Playlist Items"@) {
                proof {
                    item_entries_takes(rest, Seq::empty());
                }
                match item_entries(rest, Seq::empty()) {
                    Ok((ids, behind)) => playlist_entry(
                        behind,
                        PlaylistEntry { items: Some(ids), ..entry },
                        None,
                    ),
                    Err(e) => Err(e),
                }
            } else {
                proof {
                    skipped_element_takes(rest, n, 1);
                }
                match skipped_element(rest, n, 1) {
                    Ok(behind) => playlist_entry(behind, entry, None),
                    Err(e) => Err(e),
                }
            },
            XmlToken::Empty => playlist_entry(rest, entry, None),
            XmlToken::End(n) => if n == "dict"@ {
                Ok((entry, rest))
            } else {
                playlist_entry(rest, entry, key)
            },
            XmlToken::Failed(m) => Err(LibraryFailure::Xml(m)),
            _ => playlist_entry(rest, entry, key),
        }
    }
}

/// Reading a playlist takes at least one event.
pub proof fn playlist_entry_takes(
    s: Seq<XmlToken>,
    entry: PlaylistEntry,
    key: Option<Seq<char>>,
)
    ensures
        playlist_entry(s, entry, key) matches Ok(r) ==> r.1.len() < s.len(),
    decreases s.len(),
{
    if s.len() > 0 {
        let rest = s.drop_first();
        playlist_entry_takes(rest, entry, key);
        playlist_entry_takes(rest, entry, None);
        if let XmlToken::Start(n) = s[0] {
            element_text_takes(rest, n, Seq::empty());
            skipped_element_takes(rest, n, 1);
            item_entries_takes(rest, Seq::empty());
            if n == "key"@ || n == "string"@ || n == "integer"@ {
                if let Ok((v, behind)) = element_text(rest, n, Seq::empty()) {
                    playlist_entry_takes(behind, entry, Some(v));
                    playlist_entry_takes(behind, PlaylistEntry { name: Some(v), ..entry }, None);
                    playlist_entry_takes(behind, PlaylistEntry { id: Some(v), ..entry }, None);
                    playlist_entry_takes(behind, entry, None);
                }
            } else if n == "array"@ && key == Some("Playlist Items"@) {
                if let Ok((ids, behind)) = item_entries(rest, Seq::empty()) {
                    playlist_entry_takes(behind, PlaylistEntry { items: Some(ids), ..entry }, None);
                }
            } else {
                if let Ok(behind) = skipped_element(rest, n, 1) {
                    playlist_entry_takes(behind, entry, None);
                }
            }
        }
    }
}

/// Playlists with one more, if there is one.
pub open spec fn with_playlist(
    playlists: Seq<PlaylistModel>,
    p: Option<PlaylistModel>,
) -> Seq<PlaylistModel> {
    match p {
        Some(p) => playlists.push(p),
        None => playlists,
    }
}

/// Reads the inside of the `Playlists` array, behind `playlists`, up to and
/// with the closing tag.
pub open spec fn playlist_entries(
    s: Seq<XmlToken>,
    playlists: Seq<PlaylistModel>,
    tracks: Map<Seq<char>, TrackView>,
    checked: Seq<Seq<char>>,
) -> Result<(Seq<PlaylistModel>, Seq<XmlToken>), LibraryFailure>
    decreases s.len(),
{
    if s.len() == 0 {
        Err(LibraryFailure::EndInPlaylists)
    } else {
        let rest = s.drop_first();
        match s[0] {
            XmlToken::Start(n) => if n == "dict"@ {
                proof {
                    playlist_entry_takes(rest, PlaylistEntry::empty(), None);
                }
                match playlist_entry(rest, PlaylistEntry::empty(), None) {
                    Ok((entry, behind)) => playlist_entries(
                        behind,
                        with_playlist(playlists, entry.playlist(tracks, checked)),
                        tracks,
                        checked,
                    ),
                    Err(e) => Err(e),
                }
            } else {
                playlist_entries(rest, playlists, tracks, checked)
            },
            XmlToken::End(n) => if n == "array"@ {
                Ok((playlists, rest))
            } else {
                playlist_entries(rest, playlists, tracks, checked)
            },
            XmlToken::Failed(m) => Err(LibraryFailure::Xml(m)),
            _ => playlist_entries(rest, playlists, tracks, checked),
        }
    }
}

/// Reading the playlists takes at least one event.
pub proof fn playlist_entries_takes(
    s: Seq<XmlToken>,
    playlists: Seq<PlaylistModel>,
    tracks: Map<Seq<char>, TrackView>,
    checked: Seq<Seq<char>>,
)
    ensures
        playlist_entries(s, playlists, tracks, checked) matches Ok(r) ==> r.1.len() < s.len(),
    decreases s.len(),
{
    if s.len() > 0 {
        let rest = s.drop_first();
        playlist_entries_takes(rest, playlists, tracks, checked);
        playlist_entry_takes(rest, PlaylistEntry::empty(), None);
        if let Ok((entry, behind)) = playlist_entry(rest, PlaylistEntry::empty(), None) {
            playlist_entries_takes(
                behind,
                with_playlist(playlists, entry.playlist(tracks, checked)),
                tracks,
                checked,
            );
        }
    }
}

/// Reads the inside of the dictionary of a playlist.
fn parse_playlist_fields(cur: &mut Cursor) -> (r: Result<PlaylistFields, LibraryError>)
    requires
        old(cur).wf(),
    ensures
        final(cur).wf(),
        match r {
            Ok(f) => playlist_entry(old(cur).left(), PlaylistEntry::empty(), None) == Ok::<
                (PlaylistEntry, Seq<XmlToken>),
                LibraryFailure,
            >((f@, final(cur).left())),
            Err(e) => playlist_entry(old(cur).left(), PlaylistEntry::empty(), None) == Err::<
                (PlaylistEntry, Seq<XmlToken>),
                LibraryFailure,
            >(e@),
        },
{
    let mut fields = PlaylistFields { name: None, id: None, items: None };
    let mut key: Option<String> = None;
    let ghost start = cur.left();
    loop
        invariant
            cur.wf(),
            start == old(cur).left(),
            playlist_entry(cur.left(), fields@, opt_text(key)) == playlist_entry(
                start,
                PlaylistEntry::empty(),
                None,
            ),
        decreases cur.left().len(),
    {
        match cur.next() {
            Some(XmlEvent::Start(n)) => {
                let ghost rest = cur.left();
                proof {
                    element_text_takes(rest, n@, Seq::empty());
                    skipped_element_takes(rest, n@, 1);
                    item_entries_takes(rest, Seq::empty());
                }
                if same_text(n.as_str(), "key") {
                    match read_text(cur, "key") {
                        Ok(v) => key = Some(v),
                        Err(e) => return Err(e),
                    }
                } else if same_text(n.as_str(), "string") {
                    proof {
                        reveal_strlit("string");
                        reveal_strlit("integer");
                        assert("string"@.len() != "integer"@.len());
                    }
                    match read_text(cur, "string") {
                        Ok(v) => {
                            if key_is(&key, "Name") {
                                fields.name = Some(v);
                            }
                            key = None;
                        },
                        Err(e) => return Err(e),
                    }
                } else if same_text(n.as_str(), "integer") {
                    match read_text(cur, "integer") {
                        Ok(v) => {
                            if key_is(&key, "Playlist ID") {
                                fields.id = Some(v);
                            }
                            key = None;
                        },
                        Err(e) => return Err(e),
                    }
                } else if same_text(n.as_str(), "array") && key_is(&key, "Playlist Items") {
                    match parse_playlist_items(cur) {
                        Ok(ids) => {
                            fields.items = Some(ids);
                            key = None;
                        },
                        Err(e) => return Err(e),
                    }
                } else {
                    match skip_to_end(cur, n.as_str()) {
                        Ok(_) => key = None,
                        Err(e) => return Err(e),
                    }
                }
            },
            Some(XmlEvent::Empty) => key = None,
            Some(XmlEvent::End(n)) => {
                if same_text(n.as_str(), "dict") {
                    return Ok(fields);
                }
            },
            Some(XmlEvent::Failed(m)) => return Err(LibraryError::Xml(m.clone())),
            Some(_) => {},
            None => return Err(LibraryError::EndInPlaylist),
        }
    }
}

/// Those of the IDs that are tracks, in order.
fn known_ids(ids: &Vec<String>, tracks: &TrackMap) -> (r: Vec<String>)
    ensures
        texts(r@) == texts(ids@).filter(|t: Seq<char>| tracks@.contains_key(t)),
{
    let mut r: Vec<String> = Vec::new();
    let n: usize = ids.len();
    let mut i: usize = 0;
    let ghost all = texts(ids@);
    let ghost f = |t: Seq<char>| tracks@.contains_key(t);
    proof {
        reveal(Seq::filter);
        assert(texts(r@) =~= all.take(0).filter(f));
    }
    while i < n
        invariant
            n == ids@.len(),
            all == texts(ids@),
            f == |t: Seq<char>| tracks@.contains_key(t),
            i <= n,
            texts(r@) == all.take(i as int).filter(f),
        decreases n - i,
    {
        let ghost had = texts(r@);
        proof {
            reveal(Seq::filter);
            assert(all.take(i + 1).drop_last() =~= all.take(i as int));
            assert(all.take(i + 1).last() == ids@[i as int]@);
        }
        if tracks.contains_key(ids[i].as_str()) {
            let c: String = ids[i].clone();
            let ghost cv = c@;
            r.push(c);
            assert(texts(r@) =~= had.push(cv));
        }
        i = i + 1;
    }
    assert(all.take(n as int) =~= all);
    r
}

/// Reads the inside of the dictionary of a playlist. An entry without a name,
/// an ID or items is no playlist.
fn parse_one_playlist(
    cur: &mut Cursor,
    tracks: &TrackMap,
    settings: &Settings,
) -> (r: Result<Option<Playlist>, LibraryError>)
    requires
        old(cur).wf(),
    ensures
        final(cur).wf(),
        match playlist_entry(old(cur).left(), PlaylistEntry::empty(), None) {
            Ok((entry, behind)) => {
                &&& behind == final(cur).left()
                &&& match entry.playlist(tracks@, settings@.checked_playlist_ids) {
                    Some(p) => r matches Ok(Some(q)) && q@ == p,
                    None => r matches Ok(None),
                }
            },
            Err(f) => r matches Err(e) && e@ == f,
        },
{
    match parse_playlist_fields(cur) {
        Ok(fields) => {
            if let Some(name) = fields.name {
                if let Some(playlist_id) = fields.id {
                    if let Some(items) = fields.items {
                        let track_ids: Vec<String> = known_ids(&items, tracks);
                        let checked: bool = settings.is_playlist_checked(
                            playlist_id.as_str(),
                            name.as_str(),
                        );
                        return Ok(Some(Playlist { name, playlist_id, track_ids, checked }));
                    }
                }
            }
            Ok(None)
        },
        Err(e) => Err(e),
    }
}

/// Reads the inside of the `Playlists` array and adds its playlists.
fn parse_playlists_array(
    cur: &mut Cursor,
    playlists: &mut Vec<Playlist>,
    tracks: &TrackMap,
    settings: &Settings,
) -> (r: Result<(), LibraryError>)
    requires
        old(cur).wf(),
    ensures
        final(cur).wf(),
        match r {
            Ok(_) => playlist_entries(
                old(cur).left(),
                playlist_models(old(playlists)@),
                tracks@,
                settings@.checked_playlist_ids,
            ) == Ok::<(Seq<PlaylistModel>, Seq<XmlToken>), LibraryFailure>(
                (playlist_models(final(playlists)@), final(cur).left()),
            ),
            Err(e) => playlist_entries(
                old(cur).left(),
                playlist_models(old(playlists)@),
                tracks@,
                settings@.checked_playlist_ids,
            ) == Err::<(Seq<PlaylistModel>, Seq<XmlToken>), LibraryFailure>(e@),
        },
{
    let ghost start = cur.left();
    let ghost before = playlist_models(playlists@);
    let ghost checked = settings@.checked_playlist_ids;
    loop
        invariant
            cur.wf(),
            start == old(cur).left(),
            before == playlist_models(old(playlists)@),
            checked == settings@.checked_playlist_ids,
            playlist_entries(cur.left(), playlist_models(playlists@), tracks@, checked)
                == playlist_entries(start, before, tracks@, checked),
        decreases cur.left().len(),
    {
        match cur.next() {
            Some(XmlEvent::Start(n)) => {
                if same_text(n.as_str(), "dict") {
                    proof {
                        playlist_entry_takes(cur.left(), PlaylistEntry::empty(), None);
                    }
                    match parse_one_playlist(cur, tracks, settings) {
                        Ok(Some(p)) => {
                            let ghost had = playlist_models(playlists@);
                            let ghost pv = p@;
                            playlists.push(p);
                            assert(playlist_models(playlists@) =~= had.push(pv));
                        },
                        Ok(None) => {},
                        Err(e) => return Err(e),
                    }
                }
            },
            Some(XmlEvent::End(n)) => {
                if same_text(n.as_str(), "array") {
                    return Ok(());
                }
            },
            Some(XmlEvent::Failed(m)) => return Err(LibraryError::Xml(m.clone())),
            Some(_) => {},
            None => return Err(LibraryError::EndInPlaylists),
        }
    }
}

// ---------------------------------------------------------------------------
// The library
// ---------------------------------------------------------------------------

/// A music library.
pub struct Library {
    /// The `Music Folder` URL.
    pub music_folder: String,
    /// The tracks that have a file, by ID.
    pub tracks: TrackMap,
    /// The playlists that have items.
    pub playlists: Vec<Playlist>,
}

/// A music library, over characters.
#[verifier::ext_equal]
pub struct LibraryModel {
    pub music_folder: Seq<char>,
    pub tracks: Map<Seq<char>, TrackView>,
    pub playlists: Seq<PlaylistModel>,
}

impl View for Library {
    type V = LibraryModel;

    open spec fn view(&self) -> LibraryModel {
        LibraryModel {
            music_folder: self.music_folder@,
            tracks: self.tracks@,
            playlists: playlist_models(self.playlists@),
        }
    }
}

/// What is read of a document so far: how many `plist` and `dict` elements are
/// open, the key of the outer dictionary that waits for its value, and what
/// was found.
#[verifier::ext_equal]
pub struct DocumentState {
    pub depth: nat,
    pub key: Option<Seq<char>>,
    pub music_folder: Option<Seq<char>>,
    pub tracks: Map<Seq<char>, TrackView>,
    pub playlists: Seq<PlaylistModel>,
}

impl DocumentState {
    /// Nothing read yet.
    pub open spec fn empty() -> DocumentState {
        DocumentState {
            depth: 0,
            key: None,
            music_folder: None,
            tracks: Map::empty(),
            playlists: Seq::empty(),
        }
    }

    /// With the value of the waiting key read.
    pub open spec fn no_key(self) -> DocumentState {
        DocumentState { key: None, ..self }
    }

    /// With one more element open.
    pub open spec fn deeper(self) -> DocumentState {
        DocumentState { depth: self.depth + 1, ..self }
    }

    /// With a string read as the value of the waiting key.
    pub open spec fn with_string(self, v: Seq<char>) -> DocumentState {
        if self.key == Some("Music Folder"@) {
            DocumentState { music_folder: Some(v), key: None, ..self }
        } else {
            self.no_key()
        }
    }
}

/// Reads a document, behind `st`. Values of the outer dictionary, which stands
/// in the `plist` element, are read under the keys `Music Folder`, `Tracks` and
/// `Playlists`; the rest is passed over.
pub open spec fn document(
    s: Seq<XmlToken>,
    st: DocumentState,
    root: Seq<char>,
    checked: Seq<Seq<char>>,
) -> Result<DocumentState, LibraryFailure>
    decreases s.len(),
{
    if s.len() == 0 {
        Ok(st)
    } else {
        let rest = s.drop_first();
        match s[0] {
            XmlToken::Start(n) => if n == "plist"@ {
                document(rest, st.deeper(), root, checked)
            } else if n == "dict"@ {
                if st.depth == 2 && st.key == Some("Tracks"@) {
                    let folder = text_or_empty(st.music_folder);
                    proof {
                        track_entries_takes(rest, st.tracks, None, folder, root);
                    }
                    match track_entries(rest, st.tracks, None, folder, root) {
                        Ok((tracks, behind)) => document(
                            behind,
                            DocumentState { tracks, key: None, ..st },
                            root,
                            checked,
                        ),
                        Err(e) => Err(e),
                    }
                } else {
                    document(rest, st.deeper(), root, checked)
                }
            } else if n == "array"@ {
                if st.depth == 2 && st.key == Some("Playlists"@) {
                    proof {
                        playlist_entries_takes(rest, st.playlists, st.tracks, checked);
                    }
                    match playlist_entries(rest, st.playlists, st.tracks, checked) {
                        Ok((playlists, behind)) => document(
                            behind,
                            DocumentState { playlists, key: None, ..st },
                            root,
                            checked,
                        ),
                        Err(e) => Err(e),
                    }
                } else {
                    document(rest, st, root, checked)
                }
            } else if st.depth == 2 && (n == "key"@ || n == "string"@) {
                proof {
                    element_text_takes(rest, n, Seq::empty());
                }
                match element_text(rest, n, Seq::empty()) {
                    Ok((v, behind)) => document(
                        behind,
                        if n == "key"@ {
                            DocumentState { key: Some(v), ..st }
                        } else {
                            st.with_string(v)
                        },
                        root,
                        checked,
                    ),
                    Err(e) => Err(e),
                }
            } else {
                proof {
                    skipped_element_takes(rest, n, 1);
                }
                match skipped_element(rest, n, 1) {
                    Ok(behind) => document(
                        behind,
                        if st.depth == 2 {
                            st.no_key()
                        } else {
                            st
                        },
                        root,
                        checked,
                    ),
                    Err(e) => Err(e),
                }
            },
            XmlToken::End(n) => if n == "dict"@ || n == "plist"@ {
                if st.depth == 0 {
                    Ok(st)
                } else {
                    document(
                        rest,
                        DocumentState { depth: (st.depth - 1) as nat, ..st },
                        root,
                        checked,
                    )
                }
            } else {
                document(rest, st, root, checked)
            },
            XmlToken::Failed(m) => Err(LibraryFailure::Xml(m)),
            _ => document(rest, st, root, checked),
        }
    }
}

/// The library that a document describes, for a music root of the device and
/// the chosen playlists, or why there is none.
pub open spec fn library_of(
    events: Seq<XmlToken>,
    root: Seq<char>,
    checked: Seq<Seq<char>>,
) -> Result<LibraryModel, LibraryFailure> {
    match document(events, DocumentState::empty(), root, checked) {
        Ok(st) => match st.music_folder {
            Some(music_folder) => Ok(
                LibraryModel { music_folder, tracks: st.tracks, playlists: st.playlists },
            ),
            None => Err(LibraryFailure::NoMusicFolder),
        },
        Err(e) => Err(e),
    }
}

impl Library {
    /// Reads a library from the events of a `Library.xml`.
    pub fn from_events(
        events: &Vec<XmlEvent>,
        device_music_root: &str,
        settings: &Settings,
    ) -> (r: Result<Library, LibraryError>)
        ensures
            match library_of(
                tokens(events@),
                device_music_root@,
                settings@.checked_playlist_ids,
            ) {
                Ok(lib) => r matches Ok(l) && l@ == lib,
                Err(f) => r matches Err(e) && e@ == f,
            },
    {
        let mut music_folder: Option<String> = None;
        let mut tracks = TrackMap::new();
        let mut playlists: Vec<Playlist> = Vec::new();
        let mut depth: usize = 0;
        let mut key: Option<String> = None;
        let mut cur = Cursor { events, at: 0 };
        let ghost root = device_music_root@;
        let ghost checked = settings@.checked_playlist_ids;
        let total: usize = events.len();
        let ghost result = document(tokens(events@), DocumentState::empty(), root, checked);
        proof {
            assert(cur.left() =~= tokens(events@));
            assert(playlist_models(playlists@) =~= Seq::empty());
        }
        let mut over = false;
        while !over
            invariant
                cur.wf(),
                depth + cur.left().len() <= total,
                root == device_music_root@,
                checked == settings@.checked_playlist_ids,
                ({
                    let st = DocumentState {
                        depth: depth as nat,
                        key: opt_text(key),
                        music_folder: opt_text(music_folder),
                        tracks: tracks@,
                        playlists: playlist_models(playlists@),
                    };
                    if over {
                        result == Ok::<DocumentState, LibraryFailure>(st)
                    } else {
                        result == document(cur.left(), st, root, checked)
                    }
                }),
                result == document(tokens(events@), DocumentState::empty(), root, checked),
            decreases cur.left().len() + if over {
                0int
            } else {
                1int
            },
        {
            match cur.next() {
                Some(XmlEvent::Start(n)) => {
                    let ghost rest = cur.left();
                    let ghost folder = text_or_empty(opt_text(music_folder));
                    proof {
                        reveal_strlit("key");
                        reveal_strlit("string");
                        assert("key"@.len() != "string"@.len());
                        element_text_takes(rest, n@, Seq::empty());
                        skipped_element_takes(rest, n@, 1);
                        track_entries_takes(rest, tracks@, None, folder, root);
                        playlist_entries_takes(
                            rest,
                            playlist_models(playlists@),
                            tracks@,
                            checked,
                        );
                    }
                    if same_text(n.as_str(), "plist") {
                        depth = depth + 1;
                    } else if same_text(n.as_str(), "dict") {
                        if depth == 2 && key_is(&key, "Tracks") {
                            let parsed: Result<(), LibraryError> = match &music_folder {
                                Some(f) => parse_tracks_dict(
                                    &mut cur,
                                    &mut tracks,
                                    f.as_str(),
                                    device_music_root,
                                ),
                                None => {
                                    proof {
                                        reveal_strlit("");
                                        assert(""@ =~= Seq::empty());
                                    }
                                    parse_tracks_dict(&mut cur, &mut tracks, "", device_music_root)
                                },
                            };
                            match parsed {
                                Ok(_) => key = None,
                                Err(e) => return Err(e),
                            }
                        } else {
                            depth = depth + 1;
                        }
                    } else if same_text(n.as_str(), "array") {
                        if depth == 2 && key_is(&key, "Playlists") {
                            match parse_playlists_array(
                                &mut cur,
                                &mut playlists,
                                &tracks,
                                settings,
                            ) {
                                Ok(_) => key = None,
                                Err(e) => return Err(e),
                            }
                        }
                    } else if depth == 2 && same_text(n.as_str(), "key") {
                        match read_text(&mut cur, "key") {
                            Ok(v) => key = Some(v),
                            Err(e) => return Err(e),
                        }
                    } else if depth == 2 && same_text(n.as_str(), "string") {
                        match read_text(&mut cur, "string") {
                            Ok(v) => {
                                if key_is(&key, "Music Folder") {
                                    music_folder = Some(v);
                                }
                                key = None;
                            },
                            Err(e) => return Err(e),
                        }
                    } else {
                        if depth == 2 {
                            key = None;
                        }
                        match skip_to_end(&mut cur, n.as_str()) {
                            Ok(_) => {},
                            Err(e) => return Err(e),
                        }
                    }
                },
                Some(XmlEvent::End(n)) => {
                    if same_text(n.as_str(), "dict") || same_text(n.as_str(), "plist") {
                        if depth == 0 {
                            over = true;
                        } else {
                            depth = depth - 1;
                        }
                    }
                },
                Some(XmlEvent::Failed(m)) => return Err(LibraryError::Xml(m.clone())),
                Some(_) => {},
                None => over = true,
            }
        }
        match music_folder {
            Some(music_folder) => Ok(Library { music_folder, tracks, playlists }),
            None => Err(LibraryError::NoMusicFolder),
        }
    }

    /// Reads a library from the text of a `Library.xml`.
    pub fn parse_xml(
        xml: &str,
        device_music_root: &str,
        settings: &Settings,
    ) -> (r: Result<Library, LibraryError>)
        ensures
            match library_of(
                document_events(xml@),
                device_music_root@,
                settings@.checked_playlist_ids,
            ) {
                Ok(lib) => r matches Ok(l) && l@ == lib,
                Err(f) => r matches Err(e) && e@ == f,
            },
    {
        let events: Vec<XmlEvent> = read_events(xml);
        Library::from_events(&events, device_music_root, settings)
    }
}

} // verus!
