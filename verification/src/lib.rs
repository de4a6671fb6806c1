//! The verified core of a desktop application that copies an iTunes / Apple
//! Music library to an Android phone.
pub mod choices;
pub mod cleanup;
pub mod clock;
pub mod devices;
pub mod discovery;
pub mod heartbeat;
pub mod laws;
pub mod library;
pub mod logs;
pub mod matching;
pub mod numbers;
pub mod order;
pub mod pair;
pub mod playlist;
pub mod plist;
pub mod preview;
pub mod protocol;
pub mod run;
pub mod scan;
pub mod scan_log;
pub mod session;
pub mod settings;
pub mod summary;
pub mod sync;
pub mod text;
pub mod track;
pub mod tracks;
pub mod views;
pub mod watch;
pub mod xml;
pub mod xml_helpers;
