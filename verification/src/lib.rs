//! A typed clipboard data exchange protocol over a global, host-owned
//! clipboard resource: exclusive acquisition with bounded retries, named
//! format registration, transfer of text payloads through lockable global
//! memory blocks, and two-pass text conversion between the process's UTF-8
//! representation and the host's UTF-16 representation.
//!
//! The host side of the protocol (format table, clipboard slots, global
//! memory, contention and failure injection) is modelled explicitly by
//! [`host::HostClipboard`], so that every rule of the protocol — bounded
//! retry, measure-then-convert sizing, terminator handling, and the
//! free-exactly-once discipline for unpublished blocks — is stated in
//! contracts and proved.

pub mod codec;
pub mod error;
pub mod host;
pub mod nop_clipboard;
pub mod registry;
pub mod session;
pub mod transfer;
pub mod windows_clipboard;

pub use error::ClipboardError;
pub use nop_clipboard::NopClipboardContext;
pub use windows_clipboard::WindowsClipboardContext;
