//! Client side of the Android Debug Bridge (adb) host protocol.
//!
//! The library is organised around the pure protocol logic, all of it
//! verified: the `SocketSpec` address grammar, the hex-length-prefixed
//! framing of the host service dialogue, the `host:devices-l` device-list
//! grammar, and the shell v2 packet framing.  Performing the actual socket
//! I/O is left to the embedding program, which feeds complete byte
//! transcripts (or single frames) to the functions here.

pub mod client;
pub mod devices;
pub mod digits;
pub mod error;
pub mod framing;
pub mod host;
pub mod shell;
pub mod socketspec;
pub mod util;
