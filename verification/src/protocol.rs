//! The messages between the desktop and the phone.
//!
//! One WebSocket connection carries a session. Control messages are text
//! frames; the content of a file is one binary frame.
//!
//! ```text
//! desktop: HELLO            phone: HELLO_OK
//! desktop: MANIFEST_REQUEST phone: MANIFEST
//! desktop: FILE_PUT, then one binary frame
//!                           phone: FILE_OK or FILE_ERR
//! desktop: PLAYLIST_PUT     phone: PLAYLIST_OK or PLAYLIST_ERR
//! desktop: FILE_DELETE      phone: FILE_DELETE_OK or FILE_DELETE_ERR
//! desktop: BYE              phone: BYE
//! ```
//!
//! The phone may send PROGRESS at any time after HELLO_OK.
use vstd::prelude::*;

verus! {

/// The version of the protocol.
pub const PROTOCOL_VERSION: u32 = 1;

/// The port that the phone listens on, unless it says otherwise.
pub const DEFAULT_PORT: u16 = 7800;

/// The service that the phone announces.
pub const MDNS_SERVICE_TYPE: &'static str = "_musicsync._tcp.local.";

/// A message of the desktop.
#[derive(Debug, PartialEq, Eq)]
pub enum ClientMessage {
    /// Opens a session.
    Hello { token: String, protocol_version: u32, desktop_user: String, desktop_host: String },
    /// Asks for a pairing, in place of a `Hello`, by a desktop without a token.
    PairRequest { protocol_version: u32, desktop_user: String, desktop_host: String },
    /// The user of the desktop has seen the same code.
    PairConfirm,
    /// The user of the desktop has not.
    PairCancel,
    /// Asks for what the phone has.
    ManifestRequest,
    /// Announces a binary frame of `size` bytes that is to become the file
    /// `path` below the music root.
    FilePut { path: String, size: u64 },
    /// Gives the content of a playlist file.
    PlaylistPut { name: String, content: String },
    /// Asks for a file below the music root to be deleted.
    FileDelete { path: String },
    /// Tells the phone how far a sync is. The fraction is that of a 32 bit
    /// floating point number, by its bits.
    Progress { message: String, fraction_bits: Option<u32> },
    /// Closes a session.
    Bye,
}

/// A message of the phone.
#[derive(Debug, PartialEq, Eq)]
pub enum ServerMessage {
    /// The session is open. The ID is empty where the phone has none.
    HelloOk {
        device_id: String,
        device_name: String,
        music_root: String,
        protocol_version: u32,
    },
    /// The code that both screens show.
    PairChallenge { code: String, device_name: String },
    /// What the desktop said of itself.
    PairPeerInfo { desktop_user: String, desktop_host: String },
    /// The pairing is done; the token opens sessions from now on.
    PairOk { token: String, device_id: String, device_name: String, music_root: String },
    /// The pairing is off.
    PairCancelled { reason: String },
    /// What the phone has.
    Manifest { files: Vec<ManifestFile>, playlists: Vec<ManifestPlaylist> },
    FileOk { path: String },
    FileErr { path: String, message: String },
    PlaylistOk { name: String },
    PlaylistErr { name: String, message: String },
    FileDeleteOk { path: String },
    FileDeleteErr { path: String, message: String },
    /// What the phone is doing. The fraction is that of a 32 bit floating
    /// point number, by its bits.
    Progress { message: String, fraction_bits: Option<u32> },
    /// The phone has another name.
    DeviceRenamed { device_id: String, device_name: String },
    Bye,
    Error { message: String },
}

/// A file of the phone, below its music root.
#[derive(Debug, PartialEq, Eq)]
pub struct ManifestFile {
    pub path: String,
    pub size: u64,
    /// In seconds since 1970.
    pub mtime: i64,
}

/// A playlist file of the phone with its content.
#[derive(Debug, PartialEq, Eq)]
pub struct ManifestPlaylist {
    pub name: String,
    /// In seconds since 1970.
    pub mtime: i64,
    pub content: String,
}

/// A file of the phone, over characters.
#[verifier::ext_equal]
pub struct ManifestFileView {
    pub path: Seq<char>,
    pub size: u64,
    pub mtime: i64,
}

/// A playlist file of the phone, over characters.
#[verifier::ext_equal]
pub struct ManifestPlaylistView {
    pub name: Seq<char>,
    pub mtime: i64,
    pub content: Seq<char>,
}

impl View for ManifestFile {
    type V = ManifestFileView;

    open spec fn view(&self) -> ManifestFileView {
        ManifestFileView { path: self.path@, size: self.size, mtime: self.mtime }
    }
}

impl View for ManifestPlaylist {
    type V = ManifestPlaylistView;

    open spec fn view(&self) -> ManifestPlaylistView {
        ManifestPlaylistView { name: self.name@, mtime: self.mtime, content: self.content@ }
    }
}

/// The files of a list, over characters.
pub open spec fn manifest_file_views(v: Seq<ManifestFile>) -> Seq<ManifestFileView> {
    v.map_values(|f: ManifestFile| f@)
}

/// The playlist files of a list, over characters.
pub open spec fn manifest_playlist_views(v: Seq<ManifestPlaylist>) -> Seq<ManifestPlaylistView> {
    v.map_values(|p: ManifestPlaylist| p@)
}

} // verus!
