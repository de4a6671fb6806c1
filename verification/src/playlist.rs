//! Playlists and their `.m3u` files.
use vstd::prelude::*;

use crate::text::{
    is_white, split_is_not_empty, split_on, split_text, texts, trim_end_white, white_trimmed_end,
};
use crate::track::{Track, TrackView};

verus! {

/// A playlist of the library.
#[derive(Debug, PartialEq, Eq)]
pub struct Playlist {
    pub name: String,
    pub playlist_id: String,
    pub track_ids: Vec<String>,
    /// Whether the user has chosen this playlist for the device.
    pub checked: bool,
}

/// A playlist, over characters.
#[verifier::ext_equal]
pub struct PlaylistModel {
    pub name: Seq<char>,
    pub playlist_id: Seq<char>,
    pub track_ids: Seq<Seq<char>>,
    pub checked: bool,
}

impl View for Playlist {
    type V = PlaylistModel;

    open spec fn view(&self) -> PlaylistModel {
        PlaylistModel {
            name: self.name@,
            playlist_id: self.playlist_id@,
            track_ids: texts(self.track_ids@),
            checked: self.checked,
        }
    }
}

/// The playlists of a list, over characters.
pub open spec fn playlist_models(v: Seq<Playlist>) -> Seq<PlaylistModel> {
    v.map_values(|p: Playlist| p@)
}

/// The lines of a playlist file for the tracks `ids`, of which `lookup` knows
/// some.
pub open spec fn m3u_lines(
    ids: Seq<Seq<char>>,
    root: Seq<char>,
    lookup: Map<Seq<char>, TrackView>,
) -> Seq<char>
    decreases ids.len(),
{
    if ids.len() == 0 {
        Seq::empty()
    } else {
        let before = m3u_lines(ids.drop_last(), root, lookup);
        let id = ids.last();
        if lookup.contains_key(id) {
            before + lookup[id].relative_path(root) + seq!['\n']
        } else {
            before
        }
    }
}

/// The content of a playlist file: the header, then one line for each known
/// track, by its path relative to the music root.
pub open spec fn m3u_text(
    ids: Seq<Seq<char>>,
    root: Seq<char>,
    lookup: Map<Seq<char>, TrackView>,
) -> Seq<char> {
    "#EXTM3U\n"@ + m3u_lines(ids, root, lookup)
}

/// The name of a playlist's file on the device.
pub open spec fn m3u_filename(name: Seq<char>) -> Seq<char> {
    name + ".m3u"@
}

/// The lines of a playlist file that count: without white space at their end,
/// and not blank.
pub open spec fn m3u_entries(s: Seq<char>) -> Seq<Seq<char>> {
    counting_lines(split_on(s, '\n'))
}

/// The lines among `parts` that count.
pub open spec fn counting_lines(parts: Seq<Seq<char>>) -> Seq<Seq<char>>
    decreases parts.len(),
{
    if parts.len() == 0 {
        Seq::empty()
    } else {
        let before = counting_lines(parts.drop_last());
        let line = white_trimmed_end(parts.last());
        if line.len() == 0 {
            before
        } else {
            before.push(line)
        }
    }
}

impl Playlist {
    /// The content of the playlist's file. Entries are relative to
    /// `device_music_root`. `lookup` finds the track of an ID; an ID that it
    /// does not know is left out.
    pub fn generate_m3u<'a, F: Fn(&str) -> Option<&'a Track>>(
        &self,
        device_music_root: &str,
        lookup: F,
    ) -> (r: String)
        requires
            forall|id: &str| call_requires(lookup, (id,)),
        ensures
            forall|m: Map<Seq<char>, TrackView>| #[trigger]
                is_lookup(lookup, m) ==> r@ == m3u_text(self@.track_ids, device_music_root@, m),
            exists|found: Seq<Option<TrackView>>| #[trigger]
                are_answers(lookup, self@.track_ids, found) && r@ == "#EXTM3U\n"@ + found_lines(
                    found,
                    device_music_root@,
                ),
    {
        let ghost mut found_seq: Seq<Option<TrackView>> = Seq::empty();
        let mut out = String::new();
        out.append("#EXTM3U\n");
        let n: usize = self.track_ids.len();
        let mut i: usize = 0;
        let ghost ids = self@.track_ids;
        proof {
            assert(ids.take(0) =~= Seq::empty());
            assert forall|m: Map<Seq<char>, TrackView>| #[trigger] is_lookup(lookup, m) implies out@
                == m3u_text(ids.take(0), device_music_root@, m) by {
                assert("#EXTM3U\n"@ + Seq::<char>::empty() =~= "#EXTM3U\n"@);
                assert(out@ =~= "#EXTM3U\n"@);
            }
            assert(out@ =~= "#EXTM3U\n"@ + found_lines(found_seq, device_music_root@));
        }
        while i < n
            invariant
                n == self.track_ids@.len(),
                i <= n,
                ids == texts(self.track_ids@),
                forall|id: &str| call_requires(lookup, (id,)),
                forall|m: Map<Seq<char>, TrackView>| #[trigger]
                    is_lookup(lookup, m) ==> out@ == m3u_text(
                        ids.take(i as int),
                        device_music_root@,
                        m,
                    ),
                are_answers(lookup, ids.take(i as int), found_seq),
                out@ == "#EXTM3U\n"@ + found_lines(found_seq, device_music_root@),
            decreases n - i,
        {
            let ghost before = out@;
            let id: &str = self.track_ids[i].as_str();
            let found: Option<&'a Track> = lookup(id);
            if let Some(track) = found {
                let path: String = track.playlist_path(device_music_root);
                out.append(path.as_str());
                out.push('\n');
            }
            proof {
                assert(ids.take(i + 1).drop_last() =~= ids.take(i as int));
                assert(ids.take(i + 1).last() == id@);
                let had = found_seq;
                let answer = track_of(found);
                found_seq = had.push(answer);
                assert(found_seq.drop_last() =~= had);
                assert(is_answer(lookup, id@, answer)) by {
                    assert(call_ensures(lookup, (id,), found));
                }
                assert forall|j: int| 0 <= j < found_seq.len() implies is_answer(
                    lookup,
                    #[trigger] ids.take(i + 1)[j],
                    found_seq[j],
                ) by {
                    if j < i {
                        assert(ids.take(i + 1)[j] == ids.take(i as int)[j]);
                    }
                }
                if let Some(t) = answer {
                    let p = t.relative_path(device_music_root@);
                    assert(out@ =~= "#EXTM3U\n"@ + (found_lines(had, device_music_root@) + p
                        + seq!['\n']));
                }
                assert forall|m: Map<Seq<char>, TrackView>| #[trigger]
                    is_lookup(lookup, m) implies out@ == m3u_text(
                    ids.take(i + 1),
                    device_music_root@,
                    m,
                ) by {
                    assert(before == m3u_text(ids.take(i as int), device_music_root@, m));
                    assert(call_ensures(lookup, (id,), found));
                    if m.contains_key(id@) {
                        let p = m[id@].relative_path(device_music_root@);
                        assert(out@ =~= "#EXTM3U\n"@ + (m3u_lines(
                            ids.take(i as int),
                            device_music_root@,
                            m,
                        ) + p + seq!['\n']));
                    }
                }
            }
            i = i + 1;
        }
        assert(ids.take(n as int) =~= ids);
        out
    }

    /// The name of the playlist's file on the device.
    pub fn device_filename(&self) -> (r: String)
        ensures
            r@ == m3u_filename(self@.name),
    {
        let mut r: String = self.name.clone();
        r.append(".m3u");
        r
    }
}

impl Clone for Playlist {
    fn clone(&self) -> (p: Self)
        ensures
            p@ == self@,
    {
        Playlist {
            name: self.name.clone(),
            playlist_id: self.playlist_id.clone(),
            track_ids: crate::text::clone_texts(&self.track_ids),
            checked: self.checked,
        }
    }
}

/// The track that a lookup found.
pub open spec fn track_of(o: Option<&Track>) -> Option<TrackView> {
    match o {
        Some(t) => Some(t@),
        None => None,
    }
}

/// Whether `lookup` may answer so for an ID.
pub open spec fn is_answer<'a, F: Fn(&str) -> Option<&'a Track>>(
    lookup: F,
    id: Seq<char>,
    found: Option<TrackView>,
) -> bool {
    exists|s: &str, r: Option<&'a Track>| #[trigger]
        call_ensures(lookup, (s,), r) && s@ == id && track_of(r) == found
}

/// Whether `lookup` may answer so for each ID of a list.
pub open spec fn are_answers<'a, F: Fn(&str) -> Option<&'a Track>>(
    lookup: F,
    ids: Seq<Seq<char>>,
    found: Seq<Option<TrackView>>,
) -> bool {
    &&& found.len() == ids.len()
    &&& forall|i: int| 0 <= i < found.len() ==> is_answer(lookup, #[trigger] ids[i], found[i])
}

/// The lines of a playlist file for the tracks that were found.
pub open spec fn found_lines(found: Seq<Option<TrackView>>, root: Seq<char>) -> Seq<char>
    decreases found.len(),
{
    if found.len() == 0 {
        Seq::empty()
    } else {
        let before = found_lines(found.drop_last(), root);
        match found.last() {
            Some(t) => before + t.relative_path(root) + seq!['\n'],
            None => before,
        }
    }
}

/// Whether every outcome of `lookup` is what the map `m` says.
pub open spec fn is_lookup<'a, F: Fn(&str) -> Option<&'a Track>>(
    lookup: F,
    m: Map<Seq<char>, TrackView>,
) -> bool {
    forall|id: &str, r: Option<&'a Track>| #[trigger]
        call_ensures(lookup, (id,), r) ==> match r {
            Some(t) => m.contains_key(id@) && t@ == m[id@],
            None => !m.contains_key(id@),
        }
}

/// The lines of a playlist file that count.
pub fn normalise_m3u(s: &str) -> (r: Vec<String>)
    ensures
        texts(r@) == m3u_entries(s@),
{
    let parts: Vec<String> = split_text(s, '\n');
    let n: usize = parts.len();
    let mut r: Vec<String> = Vec::new();
    let mut i: usize = 0;
    let ghost all = texts(parts@);
    assert(texts(r@) =~= counting_lines(all.take(0)));
    while i < n
        invariant
            n == parts@.len(),
            i <= n,
            all == texts(parts@),
            texts(r@) == counting_lines(all.take(i as int)),
        decreases n - i,
    {
        let line: String = trim_end_white(parts[i].as_str());
        let ghost before = texts(r@);
        let ghost lv = line@;
        proof {
            assert(all.take(i + 1).drop_last() =~= all.take(i as int));
            assert(all.take(i + 1).last() == parts@[i as int]@);
        }
        if !line.as_str().is_empty() {
            r.push(line);
            assert(texts(r@) =~= before.push(lv));
        }
        i = i + 1;
    }
    assert(all.take(n as int) =~= all);
    r
}

/// Whether two playlist files hold the same lines, whatever their line ends,
/// the white space at the end of their lines and their blank lines. A file
/// that differs from the generated one in these alone need not be sent again.
pub fn m3u_semantically_equal(a: &str, b: &str) -> (r: bool)
    ensures
        r == (m3u_entries(a@) == m3u_entries(b@)),
{
    let x: Vec<String> = normalise_m3u(a);
    let y: Vec<String> = normalise_m3u(b);
    crate::text::same_texts(&x, &y)
}

// ---------------------------------------------------------------------------
// Laws
// ---------------------------------------------------------------------------

/// A text with a carriage return in front of every line feed.
pub open spec fn with_returns(s: Seq<char>) -> Seq<char>
    decreases s.len(),
{
    if s.len() == 0 {
        s
    } else if s.last() == '\n' {
        with_returns(s.drop_last()) + seq!['\r', '\n']
    } else {
        with_returns(s.drop_last()).push(s.last())
    }
}

/// Lines that differ in white space at their ends alone count the same.
proof fn counting_lines_ignores_ends(a: Seq<Seq<char>>, b: Seq<Seq<char>>)
    requires
        a.len() == b.len(),
        forall|i: int|
            0 <= i < a.len() ==> white_trimmed_end(#[trigger] a[i]) == white_trimmed_end(b[i]),
    ensures
        counting_lines(a) == counting_lines(b),
    decreases a.len(),
{
    if a.len() > 0 {
        assert forall|i: int| 0 <= i < a.drop_last().len() implies white_trimmed_end(
            #[trigger] a.drop_last()[i],
        ) == white_trimmed_end(b.drop_last()[i]) by {
            assert(a.drop_last()[i] == a[i]);
        }
        counting_lines_ignores_ends(a.drop_last(), b.drop_last());
        assert(a[a.len() - 1] == a.last());
    }
}

/// The lines of a text with carriage returns are those of the text without,
/// each but the last with a carriage return.
proof fn lines_with_returns(s: Seq<char>)
    ensures
        ({
            let a = split_on(s, '\n');
            let b = split_on(with_returns(s), '\n');
            &&& a.len() == b.len()
            &&& a.len() > 0
            &&& a.last() == b.last()
            &&& forall|i: int| 0 <= i < a.len() - 1 ==> #[trigger] b[i] == a[i].push('\r')
        }),
    decreases s.len(),
{
    split_is_not_empty(s, '\n');
    if s.len() > 0 {
        let t = s.drop_last();
        lines_with_returns(t);
        let w = with_returns(t);
        let a = split_on(t, '\n');
        let b = split_on(w, '\n');
        if s.last() == '\n' {
            let mid = w.push('\r');
            let all = with_returns(s);
            assert(all =~= mid.push('\n'));
            assert(all.drop_last() =~= mid);
            assert(mid.drop_last() =~= w);
            let parts = split_on(mid, '\n');
            assert(parts == b.drop_last().push(b.last().push('\r')));
            assert(split_on(all, '\n') == parts.push(Seq::empty()));
            assert(split_on(s, '\n') == a.push(Seq::empty()));
        } else {
            assert(with_returns(s).drop_last() =~= w);
        }
    }
}

/// Line endings do not count: a playlist file written with carriage returns
/// holds the same entries.
pub proof fn line_endings_do_not_count(s: Seq<char>)
    ensures
        m3u_entries(with_returns(s)) == m3u_entries(s),
{
    lines_with_returns(s);
    let a = split_on(s, '\n');
    let b = split_on(with_returns(s), '\n');
    assert forall|i: int| 0 <= i < b.len() implies white_trimmed_end(#[trigger] b[i])
        == white_trimmed_end(a[i]) by {
        if i < a.len() - 1 {
            assert(b[i] == a[i].push('\r'));
            assert(b[i].drop_last() =~= a[i]);
            assert(is_white('\r'));
        } else {
            assert(b[i] == b.last());
        }
    }
    counting_lines_ignores_ends(b, a);
}

/// Blank lines at the end do not count.
pub proof fn blank_end_does_not_count(s: Seq<char>)
    ensures
        m3u_entries(s.push('\n')) == m3u_entries(s),
{
    let t = s.push('\n');
    assert(t.drop_last() =~= s);
    let a = split_on(s, '\n');
    let b = split_on(t, '\n');
    assert(b == a.push(Seq::empty()));
    assert(b.drop_last() =~= a);
    assert(white_trimmed_end(b.last()) =~= Seq::empty());
}

/// The paths of the known tracks among `ids`, relative to the music root.
pub open spec fn known_paths(
    ids: Seq<Seq<char>>,
    root: Seq<char>,
    lookup: Map<Seq<char>, TrackView>,
) -> Seq<Seq<char>> {
    ids.filter_map(
        |id: Seq<char>|
            if lookup.contains_key(id) {
                Some(lookup[id].relative_path(root))
            } else {
                None
            },
    )
}

/// A line behind a complete line is the next line.
proof fn next_line(a: Seq<char>, line: Seq<char>)
    requires
        split_on(a, '\n').last() == Seq::<char>::empty(),
        !line.contains('\n'),
    ensures
        split_on(a + line, '\n') == split_on(a, '\n').drop_last().push(line),
    decreases line.len(),
{
    split_is_not_empty(a, '\n');
    let parts = split_on(a, '\n');
    if line.len() == 0 {
        assert(a + line =~= a);
        assert(line =~= Seq::empty());
        assert(parts =~= parts.drop_last().push(parts.last()));
    } else {
        let t = line.drop_last();
        assert forall|x: char| t.contains(x) implies line.contains(x) by {
            let k = choose|k: int| 0 <= k < t.len() && t[k] == x;
            assert(line[k] == x);
        }
        next_line(a, t);
        let s = a + line;
        assert(s.drop_last() =~= a + t);
        assert(s.last() == line.last());
        assert(line.contains(line.last()));
        let before = split_on(a + t, '\n');
        assert(before.last() == t);
        assert(before.drop_last() =~= parts.drop_last());
        assert(t.push(line.last()) =~= line);
    }
}

/// A playlist file holds the header and then, one to a line, the paths of the
/// known tracks.
pub proof fn playlist_file_lists_tracks(
    ids: Seq<Seq<char>>,
    root: Seq<char>,
    lookup: Map<Seq<char>, TrackView>,
)
    requires
        forall|id: Seq<char>| #[trigger]
            lookup.contains_key(id) ==> !lookup[id].relative_path(root).contains('\n'),
    ensures
        split_on(m3u_text(ids, root, lookup), '\n') == (seq!["#EXTM3U"@] + known_paths(
            ids,
            root,
            lookup,
        )).push(Seq::empty()),
        m3u_entries(m3u_text(ids, root, lookup)) == counting_lines(
            seq!["#EXTM3U"@] + known_paths(ids, root, lookup),
        ),
    decreases ids.len(),
{
    let text = m3u_text(ids, root, lookup);
    let lines = seq!["#EXTM3U"@] + known_paths(ids, root, lookup);
    if ids.len() == 0 {
        reveal_strlit("#EXTM3U\n");
        reveal_strlit("#EXTM3U");
        let none = Seq::<char>::empty();
        assert(split_on(none, '\n').last() =~= Seq::<char>::empty());
        assert(!"#EXTM3U"@.contains('\n')) by {
            assert forall|k: int| 0 <= k < "#EXTM3U"@.len() implies "#EXTM3U"@[k] != '\n' by {
                let h = "#EXTM3U"@;
                assert(h[0] == '#' && h[1] == 'E' && h[2] == 'X' && h[3] == 'T' && h[4] == 'M'
                    && h[5] == '3' && h[6] == 'U');
                assert(h.len() == 7);
            }
        }
        next_line(none, "#EXTM3U"@);
        assert(none + "#EXTM3U"@ =~= "#EXTM3U"@);
        assert(text =~= "#EXTM3U"@.push('\n'));
        assert(text.drop_last() =~= "#EXTM3U"@);
        assert(split_on("#EXTM3U"@, '\n') =~= seq!["#EXTM3U"@]);
        assert(split_on(text, '\n') =~= lines.push(Seq::empty()));
    } else {
        let front = ids.drop_last();
        let id = ids.last();
        playlist_file_lists_tracks(front, root, lookup);
        let before = m3u_text(front, root, lookup);
        let front_lines = seq!["#EXTM3U"@] + known_paths(front, root, lookup);
        if lookup.contains_key(id) {
            let p = lookup[id].relative_path(root);
            assert(text =~= (before + p).push('\n'));
            next_line(before, p);
            assert(front_lines.push(Seq::empty()).drop_last() =~= front_lines);
            assert(split_on(before + p, '\n') == front_lines.push(p));
            assert(text.drop_last() =~= before + p);
            assert(lines =~= front_lines.push(p));
        } else {
            assert(text == before);
            assert(lines =~= front_lines);
        }
    }
    let parts = lines.push(Seq::<char>::empty());
    assert(parts.drop_last() =~= lines);
    assert(white_trimmed_end(parts.last()) =~= Seq::empty());
}

} // verus!
