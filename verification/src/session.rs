//! The opening of a session with the phone: HELLO, then the manifest.
use vstd::prelude::*;

use crate::matching::{file_views, DeviceFile, DeviceFileView};
use crate::numbers::{decimal, push_decimal};
use crate::protocol::{
    manifest_file_views, ClientMessage, ManifestFile, ManifestFileView, ManifestPlaylist,
    ServerMessage, PROTOCOL_VERSION,
};

verus! {

/// The message that opens a session.
pub fn hello_message(token: &str, desktop_user: String, desktop_host: String) -> (m: ClientMessage)
    ensures
        m matches ClientMessage::Hello {
            token: t,
            protocol_version: v,
            desktop_user: u,
            desktop_host: h,
        } && t@ == token@ && v == PROTOCOL_VERSION && u@ == desktop_user@ && h@ == desktop_host@,
{
    ClientMessage::Hello {
        token: token.to_owned(),
        protocol_version: PROTOCOL_VERSION,
        desktop_user,
        desktop_host,
    }
}

/// What the answer to HELLO means.
#[derive(Debug, PartialEq, Eq)]
pub enum HelloReply {
    /// The session is open.
    Accepted { device_id: String, device_name: String, music_root: String },
    /// The phone speaks another version of the protocol.
    WrongVersion { server: u32 },
    /// The answer is none to HELLO.
    Unexpected,
}

/// Reads the answer to HELLO. A sync checks the version of the protocol; a
/// scan does not.
pub fn hello_reply(m: ServerMessage, check_version: bool) -> (r: HelloReply)
    ensures
        match m {
            ServerMessage::HelloOk { device_id, device_name, music_root, protocol_version } => if check_version
                && protocol_version != PROTOCOL_VERSION {
                r == (HelloReply::WrongVersion { server: protocol_version })
            } else {
                r == (HelloReply::Accepted { device_id, device_name, music_root })
            },
            _ => r == HelloReply::Unexpected,
        },
{
    match m {
        ServerMessage::HelloOk { device_id, device_name, music_root, protocol_version } => {
            if check_version && protocol_version != PROTOCOL_VERSION {
                HelloReply::WrongVersion { server: protocol_version }
            } else {
                HelloReply::Accepted { device_id, device_name, music_root }
            }
        },
        _ => HelloReply::Unexpected,
    }
}

/// The message for the user about another version of the protocol.
pub fn version_mismatch_message(server: u32) -> (s: String)
    ensures
        s@ == "protocol version mismatch: server="@ + decimal(server as nat) + " client="@
            + decimal(PROTOCOL_VERSION as nat),
{
    let mut s: String = "protocol version mismatch: server=".to_owned();
    push_decimal(&mut s, server as u64);
    s.append(" client=");
    push_decimal(&mut s, PROTOCOL_VERSION as u64);
    s
}

/// What an answer to MANIFEST_REQUEST means.
#[derive(Debug, PartialEq, Eq)]
pub enum ManifestReply {
    /// The phone is still looking; another answer follows.
    Working { message: String, fraction_bits: Option<u32> },
    /// What the phone has.
    Complete { files: Vec<ManifestFile>, playlists: Vec<ManifestPlaylist> },
    /// The answer is none to MANIFEST_REQUEST.
    Unexpected,
}

/// Reads an answer to MANIFEST_REQUEST.
pub fn manifest_reply(m: ServerMessage) -> (r: ManifestReply)
    ensures
        match m {
            ServerMessage::Progress { message, fraction_bits } => r == (ManifestReply::Working {
                message,
                fraction_bits,
            }),
            ServerMessage::Manifest { files, playlists } => r == (ManifestReply::Complete {
                files,
                playlists,
            }),
            _ => r == ManifestReply::Unexpected,
        },
{
    match m {
        ServerMessage::Progress { message, fraction_bits } => {
            ManifestReply::Working { message, fraction_bits }
        },
        ServerMessage::Manifest { files, playlists } => {
            ManifestReply::Complete { files, playlists }
        },
        _ => ManifestReply::Unexpected,
    }
}

/// The message for the user when the manifest is there.
pub fn scan_complete_message(files: usize, playlists: usize) -> (s: String)
    ensures
        s@ == "Scan complete, ready to copy. ("@ + decimal(files as nat) + " tracks, "@ + decimal(
            playlists as nat,
        ) + " playlists)"@,
{
    let mut s: String = "Scan complete, ready to copy. (".to_owned();
    push_decimal(&mut s, files as u64);
    s.append(" tracks, ");
    push_decimal(&mut s, playlists as u64);
    s.append(" playlists)");
    s
}

/// The files of a manifest as files of the device.
pub open spec fn files_of_manifest(v: Seq<ManifestFileView>) -> Seq<DeviceFileView> {
    v.map_values(|f: ManifestFileView| DeviceFileView { path: f.path, size: f.size })
}

/// The files of a manifest as files of the device.
pub fn device_files_of(files: &Vec<ManifestFile>) -> (r: Vec<DeviceFile>)
    ensures
        file_views(r@) == files_of_manifest(manifest_file_views(files@)),
{
    let mut r: Vec<DeviceFile> = Vec::new();
    let n: usize = files.len();
    let mut i: usize = 0;
    let ghost all = files_of_manifest(manifest_file_views(files@));
    assert(file_views(r@) =~= all.take(0));
    while i < n
        invariant
            n == files@.len(),
            i <= n,
            all == files_of_manifest(manifest_file_views(files@)),
            file_views(r@) == all.take(i as int),
        decreases n - i,
    {
        let ghost before = file_views(r@);
        let f = DeviceFile { path: files[i].path.clone(), size: files[i].size };
        let ghost fv = f@;
        r.push(f);
        assert(file_views(r@) =~= before.push(fv));
        assert(all.take(i + 1) =~= before.push(fv));
        i = i + 1;
    }
    assert(all.take(n as int) =~= all);
    r
}

} // verus!
