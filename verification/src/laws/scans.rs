//! Laws on what a scan of the device finds.
use vstd::prelude::*;

use crate::laws::playlists::{one_line, split_behind_line};
use crate::laws::texts::{behind_last_is_exact, prefix_and_suffix_are_exact};
use crate::protocol::ManifestPlaylistView;
use crate::scan::{entry_count, is_entry, line_counts, playlist_basename};
use crate::settings::SettingsView;
use crate::text::{
    behind_last, has_suffix, is_white, split_on, white_trimmed_end, white_trimmed_start,
};

verus! {

/// The entries of two texts, one a line after the other, add up.
pub proof fn entries_add_up(s: Seq<char>, t: Seq<char>)
    ensures
        entry_count(s + seq!['\n'] + t) == entry_count(s) + entry_count(t),
{
    let f = |line: Seq<char>| is_entry(line);
    split_behind_line(s, t);
    filter_of_both(split_on(s, '\n'), split_on(t, '\n'), f);
}

pub(crate) proof fn filter_of_both<A>(a: Seq<A>, b: Seq<A>, f: spec_fn(A) -> bool)
    ensures
        (a + b).filter(f) == a.filter(f) + b.filter(f),
    decreases b.len(),
{
    reveal(Seq::filter);
    if b.len() == 0 {
        assert(a + b =~= a);
        assert(a.filter(f) + b.filter(f) =~= a.filter(f));
    } else {
        filter_of_both(a, b.drop_last(), f);
        assert((a + b).drop_last() =~= a + b.drop_last());
        assert((a + b).last() == b.last());
        if f(b.last()) {
            assert((a.filter(f) + b.drop_last().filter(f)).push(b.last()) =~= a.filter(f)
                + b.filter(f));
        }
    }
}

/// A line is an entry exactly where its first character that is no white space
/// is no `#`; a blank line is none.
pub proof fn line_is_an_entry(front: Seq<char>, body: Seq<char>)
    requires
        !(front + body).contains('\n'),
        forall|i: int| 0 <= i < front.len() ==> is_white(#[trigger] front[i]),
        body.len() > 0 ==> !is_white(body[0]),
    ensures
        entry_count(front + body) == (if body.len() > 0 && body[0] != '#' {
            1nat
        } else {
            0nat
        }),
{
    reveal(Seq::filter);
    let line = front + body;
    let f = |l: Seq<char>| is_entry(l);
    one_line(line);
    start_is_trimmed(front, body);
    assert(white_trimmed_start(line) == body);
    end_keeps_start(body);
    assert(seq![line].drop_last() =~= Seq::empty());
    assert(seq![line].drop_last().filter(f).len() == 0);
    assert(f(line) == (body.len() > 0 && body[0] != '#'));
}

proof fn start_is_trimmed(front: Seq<char>, body: Seq<char>)
    requires
        forall|i: int| 0 <= i < front.len() ==> is_white(#[trigger] front[i]),
        body.len() > 0 ==> !is_white(body[0]),
    ensures
        white_trimmed_start(front + body) == body,
    decreases front.len(),
{
    if front.len() > 0 {
        assert(is_white(front[0]));
        start_is_trimmed(front.drop_first(), body);
        assert((front + body).drop_first() =~= front.drop_first() + body);
    } else {
        assert(front + body =~= body);
    }
}

proof fn end_keeps_start(body: Seq<char>)
    requires
        body.len() > 0 ==> !is_white(body[0]),
    ensures
        body.len() > 0 ==> white_trimmed_end(body).len() > 0 && white_trimmed_end(body)[0]
            == body[0],
        body.len() == 0 ==> white_trimmed_end(body).len() == 0,
    decreases body.len(),
{
    if body.len() > 1 && is_white(body.last()) {
        end_keeps_start(body.drop_last());
        assert(body.drop_last()[0] == body[0]);
    }
}

/// The name of a playlist is its file's name without its directories and the
/// ending. A path of another form stands for itself.
pub proof fn playlist_is_named_by_its_file(dir: Seq<char>, name: Seq<char>, path: Seq<char>)
    requires
        !name.contains('/'),
    ensures
        playlist_basename(dir + seq!['/'] + (name + ".m3u"@)) == name,
        playlist_basename(name + ".m3u"@) == name,
        !has_suffix(path, ".m3u"@) ==> playlist_basename(path) == path,
{
    reveal_strlit(".m3u");
    let file = name + ".m3u"@;
    assert forall|i: int| 0 <= i < file.len() implies file[i] != '/' by {
        if i < name.len() {
            assert(name.contains(name[i]));
        } else {
            assert(file[i] == ".m3u"@[i - name.len()]);
        }
    }
    behind_last_is_exact(dir, file, '/');
    prefix_and_suffix_are_exact(file, ".m3u"@, name);
    assert(file.take(file.len() - 4) =~= name);
    if !has_suffix(path, ".m3u"@) {
        let last = behind_last(path, '/');
        last_part_is_suffix(path);
        if has_suffix(last, ".m3u"@) {
            assert(path.subrange(path.len() - 4, path.len() as int) =~= last.subrange(
                last.len() - 4,
                last.len() as int,
            ));
        }
    }
}

proof fn last_part_is_suffix(path: Seq<char>)
    ensures
        behind_last(path, '/').len() <= path.len(),
        behind_last(path, '/') == path.skip(
            path.len() - behind_last(path, '/').len(),
        ),
    decreases path.len(),
{
    let last = behind_last(path, '/');
    if path.len() > 0 && path.last() != '/' {
        last_part_is_suffix(path.drop_last());
        assert(last =~= path.skip(path.len() - last.len()));
    } else {
        assert(last =~= path.skip(path.len() - last.len()));
    }
}

/// The entries that the device has of a playlist are those of the last file of
/// the playlist, and there are none of a playlist without a file.
pub proof fn entries_are_those_of_the_last_file(
    files: Seq<ManifestPlaylistView>,
    f: ManifestPlaylistView,
    name: Seq<char>,
)
    ensures
        !line_counts(Seq::empty()).contains_key(name),
        playlist_basename(f.name) == name ==> line_counts(files.push(f)).contains_key(name)
            && line_counts(files.push(f))[name] == entry_count(f.content),
        playlist_basename(f.name) != name ==> line_counts(files.push(f)).contains_key(name)
            == line_counts(files).contains_key(name) && (line_counts(files).contains_key(name)
            ==> line_counts(files.push(f))[name] == line_counts(files)[name]),
{
    assert(files.push(f).drop_last() =~= files);
}

/// The music root has moved where another one was known before, and not where
/// none was.
pub proof fn moved_root_is_noticed(settings: SettingsView, root: Seq<char>)
    ensures
        settings.ftp_path is None ==> settings.moved_from(root) is None,
        settings.ftp_path == Some(Seq::<char>::empty()) ==> settings.moved_from(root) is None,
        settings.ftp_path == Some(root) ==> settings.moved_from(root) is None,
        settings.ftp_path matches Some(before) && before.len() > 0 && before != root
            ==> settings.moved_from(root) == settings.ftp_path,
{
}

} // verus!
