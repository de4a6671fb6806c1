//! What the settings know of devices: the paired one, those of before and
//! those that the user turned down.
use vstd::prelude::*;

use crate::pair::PairOutcome;
use crate::settings::{recent_views, RecentDevice, RecentView, Settings, SettingsView};
use crate::text::{has_text, opt_text, same_text, texts};

verus! {

/// How many devices of before are kept.
pub const MAX_RECENT: usize = 10;

/// A list of devices with one that was just seen: it comes first, and the list
/// holds it once and is no longer than allowed.
pub open spec fn with_recent(devices: Seq<RecentView>, d: RecentView) -> Seq<RecentView> {
    let all = seq![d] + devices.filter(|x: RecentView| x.device_id != d.device_id);
    if all.len() > MAX_RECENT {
        all.take(MAX_RECENT as int)
    } else {
        all
    }
}

/// Whether no two devices have the same ID.
pub open spec fn ids_differ(devices: Seq<RecentView>) -> bool {
    forall|i: int, j: int|
        0 <= i < j < devices.len() ==> (#[trigger] devices[i]).device_id != (
        #[trigger] devices[j]).device_id
}

/// The settings after a device told its name. The name is taken from the paired
/// device alone; a paired device whose ID is not known yet is taken to be this
/// one. Whether the name is a new one is told beside.
pub open spec fn settings_after_rename(
    s: SettingsView,
    device_id: Seq<char>,
    device_name: Seq<char>,
) -> (SettingsView, bool) {
    if device_id.len() == 0 || device_name.len() == 0 {
        (s, false)
    } else if s.paired_device_id is Some && s.paired_device_id != Some(device_id) {
        (s, false)
    } else {
        let known = SettingsView { paired_device_id: Some(device_id), ..s };
        if s.paired_device_name == Some(device_name) {
            (known, false)
        } else {
            (SettingsView { paired_device_name: Some(device_name), ..known }, true)
        }
    }
}

/// The settings after a pairing.
pub open spec fn settings_after_pairing(
    s: SettingsView,
    token: Seq<char>,
    device_id: Seq<char>,
    device_name: Seq<char>,
    music_root: Seq<char>,
) -> SettingsView {
    SettingsView {
        device_token: Some(token),
        ftp_path: Some(music_root),
        paired_device_name: Some(device_name),
        paired_device_id: if device_id.len() > 0 {
            Some(device_id)
        } else {
            s.paired_device_id
        },
        ..s
    }
}

/// A list with a text that it may not have yet.
pub open spec fn with_text(v: Seq<Seq<char>>, t: Seq<char>) -> Seq<Seq<char>> {
    if v.contains(t) {
        v
    } else {
        v.push(t)
    }
}

/// Adds a text to a list that may not have it yet.
fn add_text(v: &mut Vec<String>, t: String)
    ensures
        texts(final(v)@) == with_text(texts(old(v)@), t@),
{
    if !has_text(v, t.as_str()) {
        let ghost had = texts(v@);
        let ghost tv = t@;
        v.push(t);
        assert(texts(v@) =~= had.push(tv));
    }
}

impl Settings {
    /// Notes that a device was seen. One without an ID is not noted.
    pub fn record_recent_device(
        &mut self,
        device_id: &str,
        device_name: &str,
        ws_url: &str,
        now_ms: u64,
    )
        ensures
            final(self)@ == (if device_id@.len() == 0 {
                old(self)@
            } else {
                SettingsView {
                    recent_devices: with_recent(
                        old(self)@.recent_devices,
                        RecentView {
                            device_id: device_id@,
                            device_name: device_name@,
                            ws_url: ws_url@,
                            last_seen_ms: now_ms,
                        },
                    ),
                    ..old(self)@
                }
            }),
    {
        if device_id.is_empty() {
            return;
        }
        let d = RecentDevice {
            device_id: device_id.to_owned(),
            device_name: device_name.to_owned(),
            ws_url: ws_url.to_owned(),
            last_seen_ms: now_ms,
        };
        let ghost dv = d@;
        let mut kept: Vec<RecentDevice> = Vec::new();
        kept.push(d);
        let n: usize = self.recent_devices.len();
        let mut i: usize = 0;
        let ghost all = recent_views(self.recent_devices@);
        let ghost keep = |x: RecentView| x.device_id != dv.device_id;
        proof {
            reveal(Seq::filter);
            assert(recent_views(kept@) =~= seq![dv] + all.take(0).filter(keep));
        }
        while i < n
            invariant
                n == self.recent_devices@.len(),
                *self == *old(self),
                dv.device_id == device_id@,
                all == recent_views(self.recent_devices@),
                keep == (|x: RecentView| x.device_id != dv.device_id),
                i <= n,
                recent_views(kept@) == seq![dv] + all.take(i as int).filter(keep),
            decreases n - i,
        {
            let ghost had = recent_views(kept@);
            let ghost before = all.take(i as int).filter(keep);
            let c: RecentDevice = self.recent_devices[i].clone();
            let ghost cv = c@;
            proof {
                reveal(Seq::filter);
                assert(all.take(i + 1).drop_last() =~= all.take(i as int));
                assert(all.take(i + 1).last() == cv);
            }
            if !same_text(c.device_id.as_str(), device_id) {
                kept.push(c);
                proof {
                    assert(recent_views(kept@) =~= had.push(cv));
                    assert(seq![dv] + before.push(cv) =~= had.push(cv));
                }
            }
            i = i + 1;
        }
        assert(all.take(n as int) =~= all);
        let ghost full = recent_views(kept@);
        kept.truncate(MAX_RECENT);
        proof {
            if full.len() > MAX_RECENT {
                assert(recent_views(kept@) =~= full.take(MAX_RECENT as int));
            } else {
                assert(recent_views(kept@) =~= full);
            }
        }
        self.recent_devices = kept;
    }

    /// Takes over the name that a device tells, and tells whether it is a new
    /// one.
    pub fn handle_device_renamed(&mut self, device_id: &str, device_name: &str) -> (changed: bool)
        ensures
            (final(self)@, changed) == settings_after_rename(
                old(self)@,
                device_id@,
                device_name@,
            ),
    {
        if device_id.is_empty() || device_name.is_empty() {
            return false;
        }
        let other: bool = match &self.paired_device_id {
            Some(existing) => !same_text(existing.as_str(), device_id),
            None => false,
        };
        if other {
            return false;
        }
        let same_name: bool = match &self.paired_device_name {
            Some(name) => same_text(name.as_str(), device_name),
            None => false,
        };
        self.paired_device_id = Some(device_id.to_owned());
        if same_name {
            return false;
        }
        self.paired_device_name = Some(device_name.to_owned());
        true
    }

    /// Takes over what a pairing yields.
    pub fn apply_pairing(&mut self, outcome: &PairOutcome)
        ensures
            final(self)@ == settings_after_pairing(
                old(self)@,
                outcome.token@,
                outcome.device_id@,
                outcome.device_name@,
                outcome.music_root@,
            ),
    {
        self.device_token = Some(outcome.token.clone());
        self.ftp_path = Some(outcome.music_root.clone());
        self.paired_device_name = Some(outcome.device_name.clone());
        if !outcome.device_id.as_str().is_empty() {
            self.paired_device_id = Some(outcome.device_id.clone());
        }
    }

    /// Forgets the paired device.
    pub fn forget_pairing(&mut self)
        ensures
            final(self)@ == (SettingsView {
                device_token: None,
                paired_device_name: None,
                paired_device_id: None,
                ..old(self)@
            }),
    {
        self.device_token = None;
        self.paired_device_name = None;
        self.paired_device_id = None;
    }

    /// Notes that the user turned a device down, by its name and by its ID if
    /// it has one.
    pub fn add_ignored_device(&mut self, device_name: String, device_id: Option<String>)
        ensures
            final(self)@ == (SettingsView {
                ignored_devices: with_text(old(self)@.ignored_devices, device_name@),
                ignored_device_ids: match opt_text(device_id) {
                    Some(id) => if id.len() > 0 {
                        with_text(old(self)@.ignored_device_ids, id)
                    } else {
                        old(self)@.ignored_device_ids
                    },
                    None => old(self)@.ignored_device_ids,
                },
                ..old(self)@
            }),
    {
        add_text(&mut self.ignored_devices, device_name);
        if let Some(id) = device_id {
            if !id.as_str().is_empty() {
                add_text(&mut self.ignored_device_ids, id);
            }
        }
    }

    /// The token that opens sessions, empty without a pairing.
    pub fn session_token(&self) -> (t: String)
        ensures
            t@ == match self@.device_token {
                Some(t) => t,
                None => Seq::empty(),
            },
    {
        match &self.device_token {
            Some(t) => t.clone(),
            None => String::new(),
        }
    }

    /// The music root of the device, as far as it is known.
    pub fn device_root(&self) -> (r: String)
        ensures
            r@ == match self@.ftp_path {
                Some(p) => p,
                None => "/sdcard/Music/"@,
            },
    {
        match &self.ftp_path {
            Some(p) => p.clone(),
            None => "/sdcard/Music/".to_owned(),
        }
    }

    /// Where the library is, or the message that it is not known.
    pub fn library_location(&self) -> (r: Result<String, String>)
        ensures
            match self@.library_path {
                Some(p) => r matches Ok(s) && s@ == p,
                None => r matches Err(m) && m@ == "library_path not set in settings"@,
            },
    {
        match &self.library_path {
            Some(p) => Ok(p.clone()),
            None => Err("library_path not set in settings".to_owned()),
        }
    }
}

/// The list of the devices of before is never longer than allowed, begins with
/// the device that was seen last, and holds each device once.
pub proof fn recent_list_is_tidy(devices: Seq<RecentView>, d: RecentView)
    requires
        ids_differ(devices),
    ensures
        with_recent(devices, d).len() <= MAX_RECENT,
        with_recent(devices, d)[0] == d,
        ids_differ(with_recent(devices, d)),
{
    let keep = |x: RecentView| x.device_id != d.device_id;
    let kept = devices.filter(keep);
    filter_keeps_differ(devices, keep);
    let all = seq![d] + kept;
    assert forall|i: int, j: int| 0 <= i < j < all.len() implies (#[trigger] all[i]).device_id != (
    #[trigger] all[j]).device_id by {
        devices.lemma_filter_pred(keep, j - 1);
        if i > 0 {
            assert(all[i] == kept[i - 1]);
        }
        assert(all[j] == kept[j - 1]);
    }
}

/// What is left of devices with different IDs has different IDs.
proof fn filter_keeps_differ(devices: Seq<RecentView>, keep: spec_fn(RecentView) -> bool)
    requires
        ids_differ(devices),
    ensures
        ids_differ(devices.filter(keep)),
        forall|i: int|
            0 <= i < devices.filter(keep).len() ==> devices.contains(
                #[trigger] devices.filter(keep)[i],
            ),
    decreases devices.len(),
{
    reveal(Seq::filter);
    if devices.len() > 0 {
        let front = devices.drop_last();
        let last = devices.last();
        assert forall|i: int, j: int| 0 <= i < j < front.len() implies (#[trigger] front[i]).device_id
            != (#[trigger] front[j]).device_id by {
            assert(front[i] == devices[i] && front[j] == devices[j]);
        }
        filter_keeps_differ(front, keep);
        let before = front.filter(keep);
        let all = devices.filter(keep);
        assert forall|i: int| 0 <= i < all.len() implies devices.contains(#[trigger] all[i]) by {
            if i < before.len() {
                assert(all[i] == before[i]);
                assert(front.contains(before[i]));
                let k = choose|k: int| 0 <= k < front.len() && front[k] == before[i];
                assert(devices[k] == before[i]);
            } else {
                assert(devices[devices.len() - 1] == all[i]);
            }
        }
        assert forall|i: int, j: int| 0 <= i < j < all.len() implies (#[trigger] all[i]).device_id
            != (#[trigger] all[j]).device_id by {
            assert(all[i] == before[i]);
            if j < before.len() {
                assert(all[j] == before[j]);
            } else {
                assert(front.contains(before[i]));
                let k = choose|k: int| 0 <= k < front.len() && front[k] == before[i];
                assert(devices[k].device_id != devices[devices.len() - 1].device_id);
            }
        }
    }
}

/// A device that is not the paired one cannot rename it.
pub proof fn strangers_rename_nothing(
    s: SettingsView,
    device_id: Seq<char>,
    device_name: Seq<char>,
)
    requires
        s.paired_device_id is Some,
        s.paired_device_id != Some(device_id),
    ensures
        settings_after_rename(s, device_id, device_name) == (s, false),
{
}

} // verus!
