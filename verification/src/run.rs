//! The run of a sync: which step comes next, what it says to the user and to
//! the phone, and what is counted of its outcome.
use vstd::prelude::*;

use crate::numbers::{decimal, push_decimal};
use crate::protocol::{ClientMessage, ServerMessage};
use crate::matching::{has_own_file, mark_on_device_strict, remarked, DeviceFile};
use crate::playlist::{playlist_models, Playlist};
use crate::protocol::{
    manifest_file_views, manifest_playlist_views, ManifestFile, ManifestPlaylist,
};
use crate::session::{device_files_of, files_of_manifest};
use crate::sync::{op_views, plan_sync, planned_ops, SyncOp, SyncOpView};
use crate::text::{quote, quoted, texts};
use crate::track::TrackView;
use crate::tracks::TrackMap;

verus! {

/// What a sync did.
#[derive(Debug, PartialEq, Eq)]
pub struct SyncReport {
    pub uploaded_tracks: usize,
    pub uploaded_playlists: usize,
    /// How many tracks the device had before.
    pub already_present: usize,
    pub deleted_files: usize,
    pub errors: Vec<String>,
}

/// What a sync did, over characters.
#[verifier::ext_equal]
pub struct SyncReportView {
    pub uploaded_tracks: nat,
    pub uploaded_playlists: nat,
    pub already_present: nat,
    pub deleted_files: nat,
    pub errors: Seq<Seq<char>>,
}

impl View for SyncReport {
    type V = SyncReportView;

    open spec fn view(&self) -> SyncReportView {
        SyncReportView {
            uploaded_tracks: self.uploaded_tracks as nat,
            uploaded_playlists: self.uploaded_playlists as nat,
            already_present: self.already_present as nat,
            deleted_files: self.deleted_files as nat,
            errors: texts(self.errors@),
        }
    }
}

/// What came of a step.
#[derive(Debug, PartialEq, Eq)]
pub enum OpOutcome {
    Done,
    /// It failed, and why.
    Failed(String),
}

/// What came of a step, over characters.
#[verifier::ext_equal]
pub enum OpOutcomeView {
    Done,
    Failed(Seq<char>),
}

impl View for OpOutcome {
    type V = OpOutcomeView;

    open spec fn view(&self) -> OpOutcomeView {
        match self {
            OpOutcome::Done => OpOutcomeView::Done,
            OpOutcome::Failed(m) => OpOutcomeView::Failed(m@),
        }
    }
}

/// What a sync does next.
#[derive(Debug, Clone, Copy, PartialEq, Eq, Structural)]
pub enum SyncStep {
    /// Tell the user that copying begins.
    StartCopying,
    /// Tell the user that the rest of the run is off.
    Aborted,
    /// Perform the current step, which is number `step` of `total`.
    Perform { step: usize, total: usize },
    /// Say goodbye.
    Finished,
}

/// The state of a run: the steps, which of them is next, how many were
/// performed, whether the user was told that copying begins, whether the run
/// was aborted, and what is to be reported.
#[verifier::ext_equal]
pub struct RunState {
    pub ops: Seq<SyncOpView>,
    pub next: nat,
    pub completed: nat,
    pub copying: bool,
    pub aborted: bool,
    pub report: SyncReportView,
}

/// Whether a step deletes something.
pub open spec fn is_delete(op: SyncOpView) -> bool {
    op is DeletePlaylist || op is DeleteTrack
}

impl RunState {
    /// Whether the counters fit the steps.
    pub open spec fn is_valid(self) -> bool {
        &&& self.next <= self.ops.len()
        &&& self.completed <= self.next
        &&& self.report.uploaded_tracks + self.report.uploaded_playlists
            + self.report.deleted_files <= self.completed
    }

    /// What comes next, and the state then. An abort takes effect in front of
    /// the next step that sends a file: nothing more is performed.
    pub open spec fn advanced(self, abort: bool) -> (RunState, SyncStep) {
        if !self.copying && (self.next >= self.ops.len() || !is_delete(
            self.ops[self.next as int],
        )) {
            (RunState { copying: true, ..self }, SyncStep::StartCopying)
        } else if self.next >= self.ops.len() {
            (self, SyncStep::Finished)
        } else if abort && !is_delete(self.ops[self.next as int]) {
            (
                RunState {
                    next: self.ops.len(),
                    aborted: true,
                    report: SyncReportView {
                        errors: self.report.errors.push("aborted by user"@),
                        ..self.report
                    },
                    ..self
                },
                SyncStep::Aborted,
            )
        } else {
            (
                self,
                SyncStep::Perform {
                    step: (self.completed + 1) as usize,
                    total: self.ops.len() as usize,
                },
            )
        }
    }

    /// The state after the current step came out. A deletion that fails is not
    /// reported.
    pub open spec fn recorded(self, outcome: OpOutcomeView) -> RunState {
        let r = self.report;
        RunState {
            next: self.next + 1,
            completed: self.completed + 1,
            report: match (self.ops[self.next as int], outcome) {
                (SyncOpView::DeletePlaylist { .. }, OpOutcomeView::Done) => SyncReportView {
                    deleted_files: r.deleted_files + 1,
                    ..r
                },
                (SyncOpView::DeleteTrack { .. }, OpOutcomeView::Done) => SyncReportView {
                    deleted_files: r.deleted_files + 1,
                    ..r
                },
                (SyncOpView::CopyTrack { .. }, OpOutcomeView::Done) => SyncReportView {
                    uploaded_tracks: r.uploaded_tracks + 1,
                    ..r
                },
                (SyncOpView::CopyTrack { name, .. }, OpOutcomeView::Failed(m)) => SyncReportView {
                    errors: r.errors.push(name + ": "@ + m),
                    ..r
                },
                (SyncOpView::WritePlaylist { .. }, OpOutcomeView::Done) => SyncReportView {
                    uploaded_playlists: r.uploaded_playlists + 1,
                    ..r
                },
                (
                    SyncOpView::WritePlaylist { name, .. },
                    OpOutcomeView::Failed(m),
                ) => SyncReportView {
                    errors: r.errors.push("playlist "@ + name + ": "@ + m),
                    ..r
                },
                _ => r,
            },
            ..self
        }
    }
}

/// The run of a sync.
pub struct SyncRun {
    ops: Vec<SyncOp>,
    next: usize,
    completed: usize,
    copying: bool,
    aborted: bool,
    report: SyncReport,
}

impl View for SyncRun {
    type V = RunState;

    closed spec fn view(&self) -> RunState {
        RunState {
            ops: op_views(self.ops@),
            next: self.next as nat,
            completed: self.completed as nat,
            copying: self.copying,
            aborted: self.aborted,
            report: self.report@,
        }
    }
}

/// The state in which a run begins.
pub open spec fn initial_run(ops: Seq<SyncOpView>, already_present: nat) -> RunState {
    RunState {
        ops,
        next: 0,
        completed: 0,
        copying: false,
        aborted: false,
        report: SyncReportView {
            uploaded_tracks: 0,
            uploaded_playlists: 0,
            already_present,
            deleted_files: 0,
            errors: Seq::empty(),
        },
    }
}

impl SyncRun {
    #[verifier::type_invariant]
    spec fn counts_fit(self) -> bool {
        self@.is_valid()
    }

    /// The run of the given steps.
    pub fn new(ops: Vec<SyncOp>, already_present: usize) -> (r: Self)
        ensures
            r@ == initial_run(op_views(ops@), already_present as nat),
    {
        let r = SyncRun {
            ops,
            next: 0,
            completed: 0,
            copying: false,
            aborted: false,
            report: SyncReport {
                uploaded_tracks: 0,
                uploaded_playlists: 0,
                already_present,
                deleted_files: 0,
                errors: Vec::new(),
            },
        };
        assert(r@ =~= initial_run(op_views(ops@), already_present as nat));
        r
    }

    /// The current step.
    pub fn current(&self) -> (op: Option<&SyncOp>)
        ensures
            match op {
                Some(o) => self@.next < self@.ops.len() && o@ == self@.ops[self@.next as int],
                None => self@.next == self@.ops.len(),
            },
    {
        proof {
            use_type_invariant(self);
        }
        if self.next < self.ops.len() {
            Some(&self.ops[self.next])
        } else {
            None
        }
    }

    /// Decides what comes next. `abort` tells whether the user wants to stop.
    pub fn advance(&mut self, abort: bool) -> (step: SyncStep)
        ensures
            (final(self)@, step) == old(self)@.advanced(abort),
    {
        proof {
            use_type_invariant(&*self);
        }
        let n: usize = self.ops.len();
        let deleting: bool = match self.current() {
            Some(SyncOp::DeletePlaylist { .. }) => true,
            Some(SyncOp::DeleteTrack { .. }) => true,
            _ => false,
        };
        if !self.copying && !deleting {
            self.copying = true;
            return SyncStep::StartCopying;
        }
        if self.next >= n {
            return SyncStep::Finished;
        }
        if abort && !deleting {
            let mut taken = SyncRun::new(Vec::new(), 0);
            core::mem::swap(self, &mut taken);
            let SyncRun { ops, completed, copying, mut report, .. } = taken;
            let ghost errors = texts(report.errors@);
            report.errors.push("aborted by user".to_owned());
            assert(texts(report.errors@) =~= errors.push("aborted by user"@));
            *self = SyncRun { ops, next: n, completed, copying, aborted: true, report };
            return SyncStep::Aborted;
        }
        SyncStep::Perform { step: self.completed + 1, total: n }
    }

    /// Counts what came of the current step.
    pub fn record(&mut self, outcome: OpOutcome)
        requires
            old(self)@.next < old(self)@.ops.len(),
        ensures
            final(self)@ == old(self)@.recorded(outcome@),
    {
        let mut taken = SyncRun::new(Vec::new(), 0);
        core::mem::swap(self, &mut taken);
        proof {
            use_type_invariant(&taken);
        }
        let SyncRun { ops, next, completed, copying, aborted, mut report } = taken;
        let n: usize = ops.len();
        assert(next < n);
        let ghost errors = texts(report.errors@);
        match (&ops[next], outcome) {
            (SyncOp::DeletePlaylist { .. }, OpOutcome::Done) => {
                report.deleted_files = report.deleted_files + 1;
            },
            (SyncOp::DeleteTrack { .. }, OpOutcome::Done) => {
                report.deleted_files = report.deleted_files + 1;
            },
            (SyncOp::CopyTrack { .. }, OpOutcome::Done) => {
                report.uploaded_tracks = report.uploaded_tracks + 1;
            },
            (SyncOp::CopyTrack { name, .. }, OpOutcome::Failed(m)) => {
                let mut s: String = name.clone();
                s.append(": ");
                s.append(m.as_str());
                let ghost sv = s@;
                report.errors.push(s);
                assert(texts(report.errors@) =~= errors.push(sv));
            },
            (SyncOp::WritePlaylist { .. }, OpOutcome::Done) => {
                report.uploaded_playlists = report.uploaded_playlists + 1;
            },
            (SyncOp::WritePlaylist { name, .. }, OpOutcome::Failed(m)) => {
                let mut s: String = "playlist ".to_owned();
                s.append(name.as_str());
                s.append(": ");
                s.append(m.as_str());
                let ghost sv = s@;
                report.errors.push(s);
                assert(texts(report.errors@) =~= errors.push(sv));
            },
            _ => {},
        }
        *self = SyncRun {
            ops,
            next: next + 1,
            completed: completed + 1,
            copying,
            aborted,
            report,
        };
    }

    /// What the run did.
    pub fn into_report(self) -> (r: SyncReport)
        ensures
            r@ == self@.report,
    {
        let SyncRun { report, .. } = self;
        report
    }
}

/// Begins a sync when the manifest of the phone is there: marks the tracks that
/// the phone has, and plans what to do about the rest.
pub fn begin_sync(
    tracks: &mut TrackMap,
    playlists: &Vec<Playlist>,
    files: &Vec<ManifestFile>,
    device_playlists: &Vec<ManifestPlaylist>,
    music_root: &str,
    playlists_to_delete: &Vec<String>,
    tracks_to_delete: &Vec<String>,
) -> (r: SyncRun)
    ensures
        final(tracks).keys() == old(tracks).keys(),
        final(tracks)@ == remarked(
            old(tracks)@,
            |k: Seq<char>|
                has_own_file(
                    old(tracks)@,
                    old(tracks)@[k],
                    files_of_manifest(manifest_file_views(files@)),
                ),
        ),
        r@ == initial_run(
            planned_ops(
                playlist_models(playlists@),
                final(tracks)@,
                music_root@,
                manifest_playlist_views(device_playlists@),
                texts(playlists_to_delete@),
                texts(tracks_to_delete@),
            ),
            final(tracks).tracks().filter(|t: TrackView| t.on_device).len(),
        ),
{
    let device_files: Vec<DeviceFile> = device_files_of(files);
    mark_on_device_strict(tracks, device_files.as_slice());
    let already_present: usize = tracks.count_on_device();
    let ops: Vec<SyncOp> = plan_sync(
        tracks,
        playlists,
        device_playlists,
        music_root,
        playlists_to_delete,
        tracks_to_delete,
    );
    SyncRun::new(ops, already_present)
}

// ---------------------------------------------------------------------------
// What a step says
// ---------------------------------------------------------------------------

/// How far a run is, in front of the message of a step.
pub open spec fn step_label(step: nat, total: nat, percent: nat) -> Seq<char> {
    "["@ + decimal(step) + "/"@ + decimal(total) + ", "@ + decimal(percent) + "%] "@
}

impl SyncOpView {
    /// What a step tells the user.
    pub open spec fn description(self) -> Seq<char> {
        match self {
            SyncOpView::DeletePlaylist { name } => "Deleting playlist "@ + quoted(name),
            SyncOpView::DeleteTrack { path } => "Deleting unused "@ + quoted(path),
            SyncOpView::CopyTrack { local_path, dest, .. } => "Copying "@ + quoted(local_path)
                + " -> "@ + quoted(dest),
            SyncOpView::WritePlaylist { name, .. } => "Writing playlist "@ + name,
        }
    }
}

/// What the phone's answer to a step means.
#[derive(Debug, PartialEq, Eq)]
pub enum OpVerdict {
    Done,
    /// The phone could not do it, and why.
    Refused(String),
    /// The answer is none to this step.
    Unexpected,
}

impl SyncOp {
    /// What a step tells the user and the phone: number `step` of `total`,
    /// `percent` of the way.
    pub fn progress_message(&self, step: usize, total: usize, percent: u32) -> (s: String)
        ensures
            s@ == step_label(step as nat, total as nat, percent as nat) + self@.description(),
    {
        let mut s: String = "[".to_owned();
        push_decimal(&mut s, step as u64);
        s.append("/");
        push_decimal(&mut s, total as u64);
        s.append(", ");
        push_decimal(&mut s, percent as u64);
        s.append("%] ");
        let ghost label = s@;
        match self {
            SyncOp::DeletePlaylist { name } => {
                let q: String = quote(name.as_str());
                s.append("Deleting playlist ");
                s.append(q.as_str());
            },
            SyncOp::DeleteTrack { path } => {
                let q: String = quote(path.as_str());
                s.append("Deleting unused ");
                s.append(q.as_str());
            },
            SyncOp::CopyTrack { local_path, dest, .. } => {
                let from: String = quote(local_path.as_str());
                let to: String = quote(dest.as_str());
                s.append("Copying ");
                s.append(from.as_str());
                s.append(" -> ");
                s.append(to.as_str());
            },
            SyncOp::WritePlaylist { name, .. } => {
                s.append("Writing playlist ");
                s.append(name.as_str());
            },
        }
        assert(s@ =~= label + self@.description());
        s
    }

    /// The request of a step to the phone. For a file that is copied, `size` is
    /// the number of bytes that follow.
    pub fn request(&self, size: u64) -> (m: ClientMessage)
        ensures
            match self@ {
                SyncOpView::DeletePlaylist { name } => m matches ClientMessage::FileDelete {
                    path,
                } && path@ == name,
                SyncOpView::DeleteTrack { path: p } => m matches ClientMessage::FileDelete {
                    path,
                } && path@ == p,
                SyncOpView::CopyTrack { dest, .. } => m matches ClientMessage::FilePut {
                    path,
                    size: n,
                } && path@ == dest && n == size,
                SyncOpView::WritePlaylist {
                    filename,
                    content: c,
                    ..
                } => m matches ClientMessage::PlaylistPut { name, content } && name@ == filename
                    && content@ == c,
            },
    {
        match self {
            SyncOp::DeletePlaylist { name } => ClientMessage::FileDelete { path: name.clone() },
            SyncOp::DeleteTrack { path } => ClientMessage::FileDelete { path: path.clone() },
            SyncOp::CopyTrack { dest, .. } => ClientMessage::FilePut { path: dest.clone(), size },
            SyncOp::WritePlaylist { filename, content, .. } => ClientMessage::PlaylistPut {
                name: filename.clone(),
                content: content.clone(),
            },
        }
    }

    /// Reads the phone's answer to a step.
    pub fn verdict(&self, m: &ServerMessage) -> (v: OpVerdict)
        ensures
            match (self@, m) {
                (SyncOpView::DeletePlaylist { .. }, ServerMessage::FileDeleteOk { .. }) => v
                    == OpVerdict::Done,
                (SyncOpView::DeleteTrack { .. }, ServerMessage::FileDeleteOk { .. }) => v
                    == OpVerdict::Done,
                (SyncOpView::CopyTrack { .. }, ServerMessage::FileOk { .. }) => v
                    == OpVerdict::Done,
                (SyncOpView::CopyTrack { .. }, ServerMessage::FileErr { message, .. }) => v matches
                    OpVerdict::Refused(t) && t@ == message@,
                (SyncOpView::WritePlaylist { .. }, ServerMessage::PlaylistOk { .. }) => v
                    == OpVerdict::Done,
                (
                    SyncOpView::WritePlaylist { .. },
                    ServerMessage::PlaylistErr { message, .. },
                ) => v matches OpVerdict::Refused(t) && t@ == message@,
                _ => v == OpVerdict::Unexpected,
            },
    {
        match (self, m) {
            (SyncOp::DeletePlaylist { .. }, ServerMessage::FileDeleteOk { .. }) => OpVerdict::Done,
            (SyncOp::DeleteTrack { .. }, ServerMessage::FileDeleteOk { .. }) => OpVerdict::Done,
            (SyncOp::CopyTrack { .. }, ServerMessage::FileOk { .. }) => OpVerdict::Done,
            (SyncOp::CopyTrack { .. }, ServerMessage::FileErr { message, .. }) => {
                OpVerdict::Refused(message.clone())
            },
            (SyncOp::WritePlaylist { .. }, ServerMessage::PlaylistOk { .. }) => OpVerdict::Done,
            (SyncOp::WritePlaylist { .. }, ServerMessage::PlaylistErr { message, .. }) => {
                OpVerdict::Refused(message.clone())
            },
            _ => OpVerdict::Unexpected,
        }
    }
}

// ---------------------------------------------------------------------------
// Laws
// ---------------------------------------------------------------------------

/// How many of the steps send something.
pub open spec fn uploads_in(ops: Seq<SyncOpView>) -> nat
    decreases ops.len(),
{
    if ops.len() == 0 {
        0
    } else {
        uploads_in(ops.drop_last()) + if is_delete(ops.last()) {
            0nat
        } else {
            1nat
        }
    }
}

/// Whether the report accounts for every step performed: each step that sends
/// something is counted or reported as an error, an abort is reported as one
/// error more, and no more files are counted as deleted than there were to
/// delete.
pub open spec fn is_accounted(st: RunState) -> bool {
    let sent = uploads_in(st.ops.take(st.completed as int));
    &&& st.is_valid()
    &&& st.next == if st.aborted {
        st.ops.len()
    } else {
        st.completed
    }
    &&& st.report.uploaded_tracks + st.report.uploaded_playlists + st.report.errors.len() == sent
        + if st.aborted {
        1nat
    } else {
        0nat
    }
    &&& st.report.deleted_files + sent <= st.completed
}

/// A run begins with everything accounted for.
pub proof fn initial_run_is_accounted(ops: Seq<SyncOpView>, already_present: nat)
    ensures
        is_accounted(initial_run(ops, already_present)),
{
    assert(ops.take(0) =~= Seq::empty());
}

/// Deciding what comes next keeps everything accounted for.
pub proof fn advance_keeps_account(st: RunState, abort: bool)
    requires
        is_accounted(st),
    ensures
        is_accounted(st.advanced(abort).0),
{
}

/// Performing a step keeps everything accounted for.
pub proof fn record_keeps_account(st: RunState, outcome: OpOutcomeView)
    requires
        is_accounted(st),
        st.next < st.ops.len(),
    ensures
        is_accounted(st.recorded(outcome)),
{
    assert(st.ops.take(st.next as int + 1).drop_last() =~= st.ops.take(st.next as int));
    assert(st.ops.take(st.next as int + 1).last() == st.ops[st.next as int]);
}

/// A run that finishes without an abort has sent everything that was planned,
/// or reports the error.
pub proof fn finished_run_is_complete(st: RunState, abort: bool)
    requires
        is_accounted(st),
        !st.aborted,
        st.advanced(abort).1 is Finished,
    ensures
        st.report.uploaded_tracks + st.report.uploaded_playlists + st.report.errors.len()
            == uploads_in(st.ops),
{
    assert(st.ops.take(st.next as int) =~= st.ops);
}

/// Whether what is deleted comes first and what is written last.
pub open spec fn is_ordered(ops: Seq<SyncOpView>) -> bool {
    &&& forall|i: int, j: int|
        0 <= i < j < ops.len() && is_delete(#[trigger] ops[j]) ==> is_delete(#[trigger] ops[i])
    &&& forall|i: int, j: int|
        0 <= i < j < ops.len() && (#[trigger] ops[i]) is WritePlaylist ==> (
        #[trigger] ops[j]) is WritePlaylist
}

/// An abort ends the run: whatever is asked after it, no further step is
/// performed, and of the report nothing has changed but for the error that
/// tells of the abort.
pub proof fn abort_ends_the_run(st: RunState, abort: bool, later: bool)
    requires
        st.advanced(abort).1 is Aborted,
    ensures
        abort,
        st.advanced(abort).0.advanced(later) == (st.advanced(abort).0, SyncStep::Finished),
        st.advanced(abort).0.completed == st.completed,
        st.advanced(abort).0.report == (SyncReportView {
            errors: st.report.errors.push("aborted by user"@),
            ..st.report
        }),
{
}

/// An abort does not wait: where the user wants to stop, no step that sends a
/// file is performed.
pub proof fn abort_stops_sending(st: RunState)
    requires
        st.advanced(true).1 is Perform,
    ensures
        st.next < st.ops.len(),
        is_delete(st.ops[st.next as int]),
{
}

} // verus!
