//! Tracks, and the paths that they have on the device.
use vstd::prelude::*;

use crate::text::{
    after_prefix, chars_of, contains_text, find_text, first_occurrence, has_prefix, join_text,
    joined, split_on, split_text, string_from, trim_end_char, trim_start_char, trimmed_end,
    trimmed_start, without_prefix,
};
use crate::xml_helpers::{file_url_path, strip_url_file_path_starting, unescape_xml, unescaped};

verus! {

/// A track of the library that has a file.
#[derive(Debug, PartialEq, Eq)]
pub struct Track {
    /// The track ID of `Library.xml`.
    pub id: String,
    pub name: String,
    pub artist: String,
    /// The size of the file in bytes.
    pub size: u64,
    /// The path of the source file on the desktop.
    pub local_path: String,
    /// The path on the device, below its music root, such as
    /// `/sdcard/Music/Artist/Album/01 Track.mp3`.
    pub device_path: String,
    /// Whether the device was found to have this track.
    pub on_device: bool,
}

/// A track, over characters.
#[verifier::ext_equal]
pub struct TrackView {
    pub id: Seq<char>,
    pub name: Seq<char>,
    pub artist: Seq<char>,
    pub size: u64,
    pub local_path: Seq<char>,
    pub device_path: Seq<char>,
    pub on_device: bool,
}

impl View for Track {
    type V = TrackView;

    open spec fn view(&self) -> TrackView {
        TrackView {
            id: self.id@,
            name: self.name@,
            artist: self.artist@,
            size: self.size,
            local_path: self.local_path@,
            device_path: self.device_path@,
            on_device: self.on_device,
        }
    }
}

impl TrackView {
    /// The same track, with another mark.
    pub open spec fn marked(self, on_device: bool) -> TrackView {
        TrackView { on_device, ..self }
    }

    /// The path that a playlist file and an upload name this track by: the
    /// device path relative to `root`, without leading slashes.
    pub open spec fn relative_path(self, root: Seq<char>) -> Seq<char> {
        trimmed_start(without_prefix(self.device_path, root), '/')
    }

    /// The same track below another music root, if it is below the old one.
    pub open spec fn rebased(self, old_root: Seq<char>, new_root: Seq<char>) -> TrackView {
        if has_prefix(self.device_path, old_root) {
            TrackView {
                device_path: path_joined(new_root, self.device_path.skip(old_root.len() as int)),
                ..self
            }
        } else {
            self
        }
    }
}

/// `rest` below `base`, with one slash between them.
pub open spec fn path_joined(base: Seq<char>, rest: Seq<char>) -> Seq<char> {
    trimmed_end(base, '/') + seq!['/'] + trimmed_start(rest, '/')
}

/// `s` without a leading `dir/` or `/dir/`.
pub open spec fn without_leading_dir(s: Seq<char>, dir: Seq<char>) -> Seq<char> {
    if has_prefix(s, seq!['/'] + dir + seq!['/']) {
        s.skip(dir.len() as int + 2)
    } else if has_prefix(s, dir + seq!['/']) {
        s.skip(dir.len() as int + 1)
    } else {
        s
    }
}

/// The last `n` parts of a path. A path with fewer has none.
pub open spec fn last_components(path: Seq<char>, n: nat) -> Seq<char> {
    let parts = split_on(path, '/');
    if parts.len() < n {
        Seq::empty()
    } else {
        joined(parts.skip(parts.len() - n), seq!['/'])
    }
}

/// The part of a location below the music folder: what follows the folder,
/// where the location holds it, and otherwise its last three components, or
/// nothing where it has fewer.
pub open spec fn below_music_folder(location: Seq<char>, music_folder: Seq<char>) -> Seq<char> {
    if contains_text(location, music_folder) {
        location.skip(first_occurrence(location, music_folder) + music_folder.len())
    } else {
        last_components(location, 3)
    }
}

/// The path of a location relative to the device's music root: the part below
/// the music folder, unescaped, without a leading `Music/` and then without a
/// leading `mp3/`.
pub open spec fn device_relative(location: Seq<char>, music_folder: Seq<char>) -> Seq<char> {
    let raw = unescaped(below_music_folder(location, music_folder));
    without_leading_dir(without_leading_dir(raw, "Music"@), "mp3"@)
}

/// The path of a location on the device.
pub open spec fn device_path_of(
    location: Seq<char>,
    music_folder: Seq<char>,
    root: Seq<char>,
) -> Seq<char> {
    path_joined(root, device_relative(location, music_folder))
}

/// The track that a `Library.xml` entry describes.
pub open spec fn track_of_fields(
    id: Seq<char>,
    name: Seq<char>,
    artist: Seq<char>,
    size: u64,
    location: Seq<char>,
    music_folder: Seq<char>,
    root: Seq<char>,
) -> TrackView {
    TrackView {
        id,
        name,
        artist,
        size,
        local_path: file_url_path(unescaped(location)),
        device_path: device_path_of(location, music_folder, root),
        on_device: false,
    }
}

impl Track {
    /// Builds a track from the values of a `Library.xml` entry. `music_folder`
    /// is the `Music Folder` URL of the library, `device_music_root` the base
    /// path on the device.
    pub fn from_xml_fields(
        id: String,
        name: String,
        artist: String,
        size: u64,
        location: &str,
        music_folder: &str,
        device_music_root: &str,
    ) -> (t: Self)
        ensures
            t@ == track_of_fields(
                id@,
                name@,
                artist@,
                size,
                location@,
                music_folder@,
                device_music_root@,
            ),
    {
        let device_path: String = device_path_for_location(location, music_folder, device_music_root);
        let decoded: String = unescape_xml(location);
        let local_path: String = strip_url_file_path_starting(decoded.as_str());
        Track { id, name, artist, size, local_path, device_path, on_device: false }
    }

    /// The path written into a playlist file.
    pub fn playlist_path(&self, device_music_root: &str) -> (r: String)
        ensures
            r@ == self@.relative_path(device_music_root@),
    {
        match after_prefix(self.device_path.as_str(), device_music_root) {
            Some(rest) => trim_start_char(rest.as_str(), '/'),
            None => trim_start_char(self.device_path.as_str(), '/'),
        }
    }

    /// Moves the track from one music root of the device to another. A track
    /// that is not below the old root stays where it is.
    pub fn rebase_device_path(&mut self, old_root: &str, new_root: &str)
        ensures
            final(self)@ == old(self)@.rebased(old_root@, new_root@),
    {
        if let Some(rest) = after_prefix(self.device_path.as_str(), old_root) {
            self.device_path = join_path(new_root, rest.as_str());
        }
    }
}

impl Clone for Track {
    fn clone(&self) -> (t: Self)
        ensures
            t@ == self@,
    {
        Track {
            id: self.id.clone(),
            name: self.name.clone(),
            artist: self.artist.clone(),
            size: self.size,
            local_path: self.local_path.clone(),
            device_path: self.device_path.clone(),
            on_device: self.on_device,
        }
    }
}

/// The path on the device of a track at `location`, an iTunes Location URL.
pub fn device_path_for_location(
    location: &str,
    music_folder: &str,
    device_music_root: &str,
) -> (r: String)
    ensures
        r@ == device_path_of(location@, music_folder@, device_music_root@),
{
    let loc: Vec<char> = chars_of(location);
    let folder: Vec<char> = chars_of(music_folder);
    let total: usize = loc.len();
    let relative_raw: String = match find_text(&loc, &folder) {
        Some(i) => string_from(&loc, i + folder.len()),
        None => {
            let parts: Vec<String> = split_text(location, '/');
            let n: usize = parts.len();
            proof {
                reveal_strlit("/");
                assert("/"@ =~= seq!['/']);
            }
            if n < 3 {
                String::new()
            } else {
                join_text(&parts, n - 3, "/")
            }
        },
    };
    let raw: String = unescape_xml(relative_raw.as_str());
    let without_music: String = strip_leading_dir(raw.as_str(), "Music");
    let relative: String = strip_leading_dir(without_music.as_str(), "mp3");
    join_path(device_music_root, relative.as_str())
}

/// Strips a leading directory, with or without a slash in front of it.
pub fn strip_leading_dir(s: &str, dir: &str) -> (r: String)
    ensures
        r@ == without_leading_dir(s@, dir@),
{
    let mut pat_no_slash: String = dir.to_owned();
    pat_no_slash.push('/');
    let mut pat_slash = String::new();
    pat_slash.push('/');
    pat_slash.append(pat_no_slash.as_str());
    proof {
        assert(pat_no_slash@ =~= dir@ + seq!['/']);
        assert(pat_slash@ =~= seq!['/'] + dir@ + seq!['/']);
    }
    if let Some(rest) = after_prefix(s, pat_slash.as_str()) {
        return rest;
    }
    if let Some(rest) = after_prefix(s, pat_no_slash.as_str()) {
        return rest;
    }
    s.to_owned()
}

/// Joins two paths with one slash.
pub fn join_path(base: &str, rest: &str) -> (r: String)
    ensures
        r@ == path_joined(base@, rest@),
{
    let mut r: String = trim_end_char(base, '/');
    let rest_trimmed: String = trim_start_char(rest, '/');
    r.push('/');
    r.append(rest_trimmed.as_str());
    assert(r@ =~= path_joined(base@, rest@));
    r
}

/// Whether a music root ends in at most one slash.
pub open spec fn is_plain_root(root: Seq<char>) -> bool {
    root == trimmed_end(root, '/') || root == trimmed_end(root, '/').push('/')
}

/// What is left of a trim begins with no such character.
pub proof fn trimmed_start_is_trimmed(s: Seq<char>, c: char)
    ensures
        trimmed_start(s, c).len() > 0 ==> trimmed_start(s, c)[0] != c,
        trimmed_start(trimmed_start(s, c), c) == trimmed_start(s, c),
    decreases s.len(),
{
    if s.len() > 0 && s[0] == c {
        trimmed_start_is_trimmed(s.drop_first(), c);
    }
}

/// A path joined to a root is, relative to that root, the path again, without
/// leading slashes.
pub proof fn joined_path_is_relative_to_root(root: Seq<char>, rest: Seq<char>, t: TrackView)
    requires
        is_plain_root(root),
        t.device_path == path_joined(root, rest),
    ensures
        t.relative_path(root) == trimmed_start(rest, '/'),
{
    let base = trimmed_end(root, '/');
    let tail = trimmed_start(rest, '/');
    trimmed_start_is_trimmed(rest, '/');
    let p = t.device_path;
    assert(p.subrange(0, root.len() as int) =~= root);
    assert(has_prefix(p, root));
    let r = p.skip(root.len() as int);
    if root == base {
        assert(r =~= seq!['/'] + tail);
        assert(r.drop_first() =~= tail);
    } else {
        assert(r =~= tail);
    }
}

/// A track read from the library is named, relative to the device's music
/// root, by the path that it has below the music folder.
pub proof fn read_track_is_relative_to_root(
    id: Seq<char>,
    name: Seq<char>,
    artist: Seq<char>,
    size: u64,
    location: Seq<char>,
    music_folder: Seq<char>,
    root: Seq<char>,
)
    requires
        is_plain_root(root),
    ensures
        track_of_fields(id, name, artist, size, location, music_folder, root).relative_path(root)
            == trimmed_start(device_relative(location, music_folder), '/'),
{
    joined_path_is_relative_to_root(
        root,
        device_relative(location, music_folder),
        track_of_fields(id, name, artist, size, location, music_folder, root),
    );
}

/// A track below the old root has, after a rebase, the same path relative to
/// the new root as it had relative to the old one.
pub proof fn rebase_keeps_relative_path(t: TrackView, old_root: Seq<char>, new_root: Seq<char>)
    requires
        has_prefix(t.device_path, old_root),
        is_plain_root(new_root),
    ensures
        t.rebased(old_root, new_root).relative_path(new_root) == t.relative_path(old_root),
        t.rebased(old_root, new_root).marked(t.on_device) == t.rebased(old_root, new_root),
{
    joined_path_is_relative_to_root(
        new_root,
        t.device_path.skip(old_root.len() as int),
        t.rebased(old_root, new_root),
    );
}

/// The path on the device does not depend on whether the music root is
/// written with or without slashes at its end.
pub proof fn device_path_ignores_trailing_slash(
    location: Seq<char>,
    music_folder: Seq<char>,
    root: Seq<char>,
)
    ensures
        device_path_of(location, music_folder, root.push('/')) == device_path_of(
            location,
            music_folder,
            root,
        ),
{
    assert(root.push('/').drop_last() =~= root);
}

} // verus!
