//! What the user is told when a sync is over.
use vstd::prelude::*;

use crate::numbers::{decimal, padded, push_decimal, push_padded};
use crate::run::{SyncReport, SyncReportView};
use crate::text::{join_text, joined, texts};

verus! {

/// A time span: milliseconds below a second, seconds below a minute, and then
/// `M:SS` or `H:MM:SS`.
pub open spec fn duration_text(secs: nat, millis: nat) -> Seq<char> {
    if secs < 1 {
        decimal(millis) + " ms"@
    } else if secs < 60 {
        decimal(secs) + "s"@
    } else if secs / 3600 > 0 {
        decimal(secs / 3600) + ":"@ + padded(secs % 3600 / 60, 2) + ":"@ + padded(secs % 60, 2)
    } else {
        decimal(secs / 60) + ":"@ + padded(secs % 60, 2)
    }
}

/// Writes a time span of whole seconds and the milliseconds of the last one.
pub fn format_duration(secs: u64, millis: u32) -> (r: String)
    ensures
        r@ == duration_text(secs as nat, millis as nat),
{
    let mut r = String::new();
    if secs < 1 {
        push_decimal(&mut r, millis as u64);
        r.append(" ms");
    } else if secs < 60 {
        push_decimal(&mut r, secs);
        r.append("s");
    } else {
        let h: u64 = secs / 3600;
        let m: u64 = (secs % 3600) / 60;
        let s: u64 = secs % 60;
        if h > 0 {
            push_decimal(&mut r, h);
            r.append(":");
            push_padded(&mut r, m, 2);
        } else {
            push_decimal(&mut r, m);
        }
        r.append(":");
        push_padded(&mut r, s, 2);
    }
    assert(r@ =~= duration_text(secs as nat, millis as nat));
    r
}

/// `n` things, with an `s` where it is not one.
pub open spec fn counted(n: nat, before: Seq<char>, thing: Seq<char>) -> Seq<char> {
    before + decimal(n) + thing + if n == 1 {
        Seq::<char>::empty()
    } else {
        "s"@
    }
}

/// Adds `n` things to a text.
fn push_counted(s: &mut String, n: usize, before: &str, thing: &str)
    ensures
        final(s)@ == old(s)@ + counted(n as nat, before@, thing@),
{
    s.append(before);
    push_decimal(s, n as u64);
    s.append(thing);
    if n != 1 {
        s.append("s");
    }
    assert(s@ =~= old(s)@ + counted(n as nat, before@, thing@));
}

/// `n` things as a text.
fn counted_text(n: usize, before: &str, thing: &str) -> (r: String)
    ensures
        r@ == counted(n as nat, before@, thing@),
{
    let mut r = String::new();
    push_counted(&mut r, n, before, thing);
    assert(r@ =~= counted(n as nat, before@, thing@));
    r
}

/// A list with one more text where a count is not 0.
pub open spec fn with_count(
    parts: Seq<Seq<char>>,
    n: nat,
    before: Seq<char>,
    thing: Seq<char>,
) -> Seq<Seq<char>> {
    if n > 0 {
        parts.push(counted(n, before, thing))
    } else {
        parts
    }
}

/// Adds one more text where a count is not 0.
fn push_count(parts: &mut Vec<String>, n: usize, before: &str, thing: &str)
    ensures
        texts(final(parts)@) == with_count(texts(old(parts)@), n as nat, before@, thing@),
{
    if n > 0 {
        let ghost had = texts(parts@);
        let t: String = counted_text(n, before, thing);
        let ghost tv = t@;
        parts.push(t);
        assert(texts(parts@) =~= had.push(tv));
    }
}

/// The parts of the summary in front of what was there already.
pub open spec fn done_parts(r: SyncReportView, duration: Seq<char>) -> Seq<Seq<char>> {
    with_count(
        with_count(
            with_count(
                seq!["Sync complete in "@ + duration + "."@],
                r.uploaded_tracks,
                "Copied "@,
                " track"@,
            ),
            r.uploaded_playlists,
            "wrote "@,
            " playlist"@,
        ),
        r.deleted_files,
        "deleted "@,
        " file"@,
    )
}

/// What the summary says of the tracks that were there already.
pub open spec fn present_part(r: SyncReportView) -> Seq<char> {
    if r.uploaded_tracks == 0 && r.uploaded_playlists == 0 && r.deleted_files == 0 {
        counted(r.already_present, "nothing to do — "@, " track"@) + " already on phone"@
    } else {
        decimal(r.already_present) + " already present"@
    }
}

/// What the summary says of errors.
pub open spec fn error_part(errors: Seq<Seq<char>>) -> Seq<char> {
    if errors.len() > 0 {
        counted(errors.len(), " "@, " error"@) + ": "@ + joined(errors, "; "@)
    } else {
        Seq::empty()
    }
}

/// The summary of a sync.
pub open spec fn summary_text(r: SyncReportView, duration: Seq<char>) -> Seq<char> {
    joined(done_parts(r, duration).push(present_part(r)), " · "@) + "."@ + error_part(r.errors)
}

/// Writes the summary of a sync that took the given time.
pub fn format_sync_summary(report: &SyncReport, secs: u64, millis: u32) -> (s: String)
    ensures
        s@ == summary_text(report@, duration_text(secs as nat, millis as nat)),
{
    let duration: String = format_duration(secs, millis);
    let mut first: String = "Sync complete in ".to_owned();
    first.append(duration.as_str());
    first.append(".");
    let mut parts: Vec<String> = Vec::new();
    let ghost fv = first@;
    parts.push(first);
    assert(texts(parts@) =~= seq![fv]);
    push_count(&mut parts, report.uploaded_tracks, "Copied ", " track");
    push_count(&mut parts, report.uploaded_playlists, "wrote ", " playlist");
    push_count(&mut parts, report.deleted_files, "deleted ", " file");
    let mut present = String::new();
    if report.uploaded_tracks == 0 && report.uploaded_playlists == 0 && report.deleted_files == 0 {
        push_counted(&mut present, report.already_present, "nothing to do — ", " track");
        present.append(" already on phone");
    } else {
        push_decimal(&mut present, report.already_present as u64);
        present.append(" already present");
    }
    assert(present@ =~= present_part(report@));
    let ghost had = texts(parts@);
    let ghost pv = present@;
    parts.push(present);
    assert(texts(parts@) =~= had.push(pv));
    let mut summary: String = join_text(&parts, 0, " · ");
    assert(texts(parts@).skip(0) =~= texts(parts@));
    summary.append(".");
    let n: usize = report.errors.len();
    if n > 0 {
        push_counted(&mut summary, n, " ", " error");
        summary.append(": ");
        let list: String = join_text(&report.errors, 0, "; ");
        assert(texts(report.errors@).skip(0) =~= texts(report.errors@));
        summary.append(list.as_str());
    }
    assert(summary@ =~= summary_text(report@, duration_text(secs as nat, millis as nat)));
    summary
}

} // verus!
