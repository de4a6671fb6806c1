//! The user's settings, and the rules by which they change.
use vstd::prelude::*;

use crate::text::{clone_texts, has_text, opt_text, texts};

verus! {

/// What the next sync does about a remembered playlist that the library no
/// longer has.
#[derive(Debug, Clone, Copy, PartialEq, Eq, Structural)]
pub enum PlaylistAction {
    /// Leave its file on the device.
    Ignore,
    /// Delete its file from the device.
    Delete,
}

impl Default for PlaylistAction {
    fn default() -> (a: Self)
        ensures
            a == PlaylistAction::Ignore,
    {
        PlaylistAction::Ignore
    }
}

/// A playlist that was chosen once, by ID and last known name.
#[derive(Debug, PartialEq, Eq)]
pub struct RememberedPlaylist {
    pub id: String,
    pub name: String,
    pub action: PlaylistAction,
}

/// A remembered playlist, over characters.
#[verifier::ext_equal]
pub struct RememberedView {
    pub id: Seq<char>,
    pub name: Seq<char>,
    pub action: PlaylistAction,
}

impl View for RememberedPlaylist {
    type V = RememberedView;

    open spec fn view(&self) -> RememberedView {
        RememberedView { id: self.id@, name: self.name@, action: self.action }
    }
}

impl Clone for RememberedPlaylist {
    fn clone(&self) -> (r: Self)
        ensures
            r@ == self@,
    {
        RememberedPlaylist { id: self.id.clone(), name: self.name.clone(), action: self.action }
    }
}

/// The playlists of a list, over characters.
pub open spec fn remembered_views(v: Seq<RememberedPlaylist>) -> Seq<RememberedView> {
    v.map_values(|r: RememberedPlaylist| r@)
}

/// A device that answered before, and where.
#[derive(Debug, PartialEq, Eq)]
pub struct RecentDevice {
    pub device_id: String,
    pub device_name: String,
    pub ws_url: String,
    /// When it was last seen, in milliseconds since 1970.
    pub last_seen_ms: u64,
}

/// A recent device, over characters.
#[verifier::ext_equal]
pub struct RecentView {
    pub device_id: Seq<char>,
    pub device_name: Seq<char>,
    pub ws_url: Seq<char>,
    pub last_seen_ms: u64,
}

impl View for RecentDevice {
    type V = RecentView;

    open spec fn view(&self) -> RecentView {
        RecentView {
            device_id: self.device_id@,
            device_name: self.device_name@,
            ws_url: self.ws_url@,
            last_seen_ms: self.last_seen_ms,
        }
    }
}

impl Clone for RecentDevice {
    fn clone(&self) -> (r: Self)
        ensures
            r@ == self@,
    {
        RecentDevice {
            device_id: self.device_id.clone(),
            device_name: self.device_name.clone(),
            ws_url: self.ws_url.clone(),
            last_seen_ms: self.last_seen_ms,
        }
    }
}

/// The devices of a list, over characters.
pub open spec fn recent_views(v: Seq<RecentDevice>) -> Seq<RecentView> {
    v.map_values(|d: RecentDevice| d@)
}

/// The user's settings.
#[derive(Debug, PartialEq, Eq)]
pub struct Settings {
    pub library_path: Option<String>,
    /// The four fields of an FTP connection are kept, and not used.
    pub ftp_username: Option<String>,
    pub ftp_password: Option<String>,
    pub ftp_ip: Option<String>,
    pub ftp_port: Option<String>,
    /// The music root of the device.
    pub ftp_path: Option<String>,
    /// The playlists chosen for the device, each by ID or by name.
    pub checked_playlist_ids: Vec<String>,
    /// The secret by which a paired device knows this desktop.
    pub device_token: Option<String>,
    pub paired_device_name: Option<String>,
    /// The stable ID of the paired device, once it is known.
    pub paired_device_id: Option<String>,
    /// Every playlist that was ever chosen and not forgotten.
    pub remembered_playlists: Vec<RememberedPlaylist>,
    /// Whether a sync deletes files of the device that are no track's.
    pub delete_unused_songs: bool,
    /// The playlists whose tracks the next sync deletes from the device.
    pub cleanup_playlist_ids: Vec<String>,
    /// The names of devices that the user turned down.
    pub ignored_devices: Vec<String>,
    /// The IDs of devices that the user turned down.
    pub ignored_device_ids: Vec<String>,
    /// Devices that answered before, the last one first.
    pub recent_devices: Vec<RecentDevice>,
    pub verbose_logging: bool,
}

/// The settings, over characters.
#[verifier::ext_equal]
pub struct SettingsView {
    pub library_path: Option<Seq<char>>,
    pub ftp_username: Option<Seq<char>>,
    pub ftp_password: Option<Seq<char>>,
    pub ftp_ip: Option<Seq<char>>,
    pub ftp_port: Option<Seq<char>>,
    pub ftp_path: Option<Seq<char>>,
    pub checked_playlist_ids: Seq<Seq<char>>,
    pub device_token: Option<Seq<char>>,
    pub paired_device_name: Option<Seq<char>>,
    pub paired_device_id: Option<Seq<char>>,
    pub remembered_playlists: Seq<RememberedView>,
    pub delete_unused_songs: bool,
    pub cleanup_playlist_ids: Seq<Seq<char>>,
    pub ignored_devices: Seq<Seq<char>>,
    pub ignored_device_ids: Seq<Seq<char>>,
    pub recent_devices: Seq<RecentView>,
    pub verbose_logging: bool,
}

impl View for Settings {
    type V = SettingsView;

    open spec fn view(&self) -> SettingsView {
        SettingsView {
            library_path: opt_text(self.library_path),
            ftp_username: opt_text(self.ftp_username),
            ftp_password: opt_text(self.ftp_password),
            ftp_ip: opt_text(self.ftp_ip),
            ftp_port: opt_text(self.ftp_port),
            ftp_path: opt_text(self.ftp_path),
            checked_playlist_ids: texts(self.checked_playlist_ids@),
            device_token: opt_text(self.device_token),
            paired_device_name: opt_text(self.paired_device_name),
            paired_device_id: opt_text(self.paired_device_id),
            remembered_playlists: remembered_views(self.remembered_playlists@),
            delete_unused_songs: self.delete_unused_songs,
            cleanup_playlist_ids: texts(self.cleanup_playlist_ids@),
            ignored_devices: texts(self.ignored_devices@),
            ignored_device_ids: texts(self.ignored_device_ids@),
            recent_devices: recent_views(self.recent_devices@),
            verbose_logging: self.verbose_logging,
        }
    }
}

/// The settings of a first start.
pub open spec fn initial_settings() -> SettingsView {
    SettingsView {
        library_path: None,
        ftp_username: None,
        ftp_password: None,
        ftp_ip: None,
        ftp_port: None,
        ftp_path: None,
        checked_playlist_ids: Seq::empty(),
        device_token: None,
        paired_device_name: None,
        paired_device_id: None,
        remembered_playlists: Seq::empty(),
        delete_unused_songs: false,
        cleanup_playlist_ids: Seq::empty(),
        ignored_devices: Seq::empty(),
        ignored_device_ids: Seq::empty(),
        recent_devices: Seq::empty(),
        verbose_logging: false,
    }
}

impl Default for Settings {
    fn default() -> (s: Self)
        ensures
            s@ == initial_settings(),
    {
        let s = Settings {
            library_path: None,
            ftp_username: None,
            ftp_password: None,
            ftp_ip: None,
            ftp_port: None,
            ftp_path: None,
            checked_playlist_ids: Vec::new(),
            device_token: None,
            paired_device_name: None,
            paired_device_id: None,
            remembered_playlists: Vec::new(),
            delete_unused_songs: false,
            cleanup_playlist_ids: Vec::new(),
            ignored_devices: Vec::new(),
            ignored_device_ids: Vec::new(),
            recent_devices: Vec::new(),
            verbose_logging: false,
        };
        assert(s@ =~= initial_settings());
        s
    }
}

/// A copy of a string that may be absent.
pub fn clone_opt(o: &Option<String>) -> (r: Option<String>)
    ensures
        opt_text(r) == opt_text(*o),
{
    match o {
        Some(s) => Some(s.clone()),
        None => None,
    }
}

impl Clone for Settings {
    fn clone(&self) -> (s: Self)
        ensures
            s@ == self@,
    {
        let mut remembered: Vec<RememberedPlaylist> = Vec::new();
        let n: usize = self.remembered_playlists.len();
        let mut i: usize = 0;
        while i < n
            invariant
                n == self.remembered_playlists@.len(),
                i <= n,
                remembered_views(remembered@) == remembered_views(
                    self.remembered_playlists@,
                ).take(i as int),
            decreases n - i,
        {
            let ghost before = remembered_views(remembered@);
            let c: RememberedPlaylist = self.remembered_playlists[i].clone();
            let ghost cv = c@;
            remembered.push(c);
            assert(remembered_views(remembered@) =~= before.push(cv));
            assert(remembered_views(self.remembered_playlists@).take(i + 1) =~= before.push(cv));
            i = i + 1;
        }
        let mut recent: Vec<RecentDevice> = Vec::new();
        let m: usize = self.recent_devices.len();
        let mut j: usize = 0;
        while j < m
            invariant
                m == self.recent_devices@.len(),
                j <= m,
                recent_views(recent@) == recent_views(self.recent_devices@).take(j as int),
            decreases m - j,
        {
            let ghost before = recent_views(recent@);
            let c: RecentDevice = self.recent_devices[j].clone();
            let ghost cv = c@;
            recent.push(c);
            assert(recent_views(recent@) =~= before.push(cv));
            assert(recent_views(self.recent_devices@).take(j + 1) =~= before.push(cv));
            j = j + 1;
        }
        let s = Settings {
            library_path: clone_opt(&self.library_path),
            ftp_username: clone_opt(&self.ftp_username),
            ftp_password: clone_opt(&self.ftp_password),
            ftp_ip: clone_opt(&self.ftp_ip),
            ftp_port: clone_opt(&self.ftp_port),
            ftp_path: clone_opt(&self.ftp_path),
            checked_playlist_ids: clone_texts(&self.checked_playlist_ids),
            device_token: clone_opt(&self.device_token),
            paired_device_name: clone_opt(&self.paired_device_name),
            paired_device_id: clone_opt(&self.paired_device_id),
            remembered_playlists: remembered,
            delete_unused_songs: self.delete_unused_songs,
            cleanup_playlist_ids: clone_texts(&self.cleanup_playlist_ids),
            ignored_devices: clone_texts(&self.ignored_devices),
            ignored_device_ids: clone_texts(&self.ignored_device_ids),
            recent_devices: recent,
            verbose_logging: self.verbose_logging,
        };
        assert(s@ =~= self@);
        s
    }
}

/// Where the settings of a start come from.
#[derive(Debug, Clone, Copy, PartialEq, Eq, Structural)]
pub enum SettingsSource {
    /// The settings file.
    Current,
    /// The older file with this number, which is then saved as the settings
    /// file.
    Legacy(usize),
    /// No file: the settings of a first start, which are not saved.
    Initial,
}

/// Where the settings come from, given which files there are: from the
/// settings file, else from the first older file.
pub open spec fn settings_source(current: bool, legacy: Seq<bool>) -> SettingsSource {
    if current {
        SettingsSource::Current
    } else if legacy.contains(true) {
        SettingsSource::Legacy(first_true(legacy) as usize)
    } else {
        SettingsSource::Initial
    }
}

/// The first place at which `true` stands, for a list that has one.
pub open spec fn first_true(v: Seq<bool>) -> int {
    choose|i: int| 0 <= i < v.len() && v[i] && forall|j: int| 0 <= j < i ==> !v[j]
}

/// Whether a playlist is chosen, by its ID or by its name.
pub open spec fn is_checked(ids: Seq<Seq<char>>, id: Seq<char>, name: Seq<char>) -> bool {
    ids.contains(id) || ids.contains(name)
}

impl Settings {
    /// Decides from which file the settings are loaded. `current` tells
    /// whether the settings file exists, `legacy` which of the older files do.
    pub fn load_with_migration(current: bool, legacy: &[bool]) -> (r: SettingsSource)
        ensures
            r == settings_source(current, legacy@),
    {
        if current {
            return SettingsSource::Current;
        }
        let n: usize = legacy.len();
        let mut i: usize = 0;
        while i < n
            invariant
                n == legacy@.len(),
                i <= n,
                !current,
                forall|j: int| 0 <= j < i ==> !legacy@[j],
            decreases n - i,
        {
            if legacy[i] {
                proof {
                    assert(legacy@.contains(legacy@[i as int]));
                    let f = first_true(legacy@);
                    assert(0 <= f < legacy@.len() && legacy@[f] && forall|j: int|
                        0 <= j < f ==> !legacy@[j]) by {
                        assert(0 <= i < legacy@.len() && legacy@[i as int] && forall|j: int|
                            0 <= j < i ==> !legacy@[j]);
                    }
                    assert(f == i);
                }
                return SettingsSource::Legacy(i);
            }
            i = i + 1;
        }
        SettingsSource::Initial
    }

    /// Whether a playlist is chosen.
    pub fn is_playlist_checked(&self, id: &str, name: &str) -> (r: bool)
        ensures
            r == is_checked(self@.checked_playlist_ids, id@, name@),
    {
        has_text(&self.checked_playlist_ids, id) || has_text(&self.checked_playlist_ids, name)
    }

    /// Chooses just the given playlists.
    pub fn set_checked_playlist_ids(&mut self, ids: Vec<String>)
        ensures
            final(self)@ == (SettingsView {
                checked_playlist_ids: texts(ids@),
                ..old(self)@
            }),
    {
        self.checked_playlist_ids = ids;
    }
}

} // verus!
