use vstd::prelude::*;

verus! {

/// The failure taxonomy of the clipboard exchange protocol.
///
/// Every operation reports its failure to the immediate caller as one of
/// these values; nothing is retried internally beyond the bounded
/// acquisition retries of the session guard.
#[derive(Clone, Copy, Debug, PartialEq, Eq, Structural)]
pub enum ClipboardError {
    /// Clipboard acquisition exceeded its retry ceiling.
    ClipboardUnavailable,
    /// The host refused to register or resolve a format name.
    FormatRegistration,
    /// A global memory allocation failed.
    Allocation,
    /// A conversion pass reported zero required units for a non-empty source.
    Encoding,
    /// Hand-off of a written block to the clipboard failed.
    Publish,
    /// The clipboard holds no data under the requested format.
    FormatNotPresent,
    /// The write path rejects empty payloads.
    EmptyPayload,
}

} // verus!
