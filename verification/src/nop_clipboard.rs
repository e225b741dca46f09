//! The no-op provider for platforms without clipboard support. By design it
//! never fails: every operation succeeds with an empty result and surfaces
//! a human-readable notice through a side diagnostic channel.

use crate::error::ClipboardError;
use vstd::prelude::*;
use vstd::string::*;

verus! {

/// A provider that does nothing, uniformly and without error.
pub struct NopClipboardContext {
    /// The diagnostic side channel: one notice per attempted operation.
    pub notices: Vec<String>,
}

impl NopClipboardContext {
    pub fn new() -> (r: Result<NopClipboardContext, ClipboardError>)
        ensures
            r.is_ok(),
            r.unwrap().notices@.len() == 0,
    {
        Ok(NopClipboardContext { notices: Vec::new() })
    }

    /// Succeeds with an empty text; never an error.
    pub fn get_contents(&mut self) -> (r: Result<String, ClipboardError>)
        ensures
            r.is_ok(),
            r.unwrap()@.len() == 0,
            final(self).notices@.len() == old(self).notices@.len() + 1,
            final(self).notices@.last()@
                == "reading the clipboard is not supported on this platform"@,
    {
        self.notices.push(
            String::from_str("reading the clipboard is not supported on this platform"),
        );
        Ok(String::new())
    }

    /// Accepts and discards the payload; never an error.
    pub fn set_contents(&mut self, _data: String) -> (r: Result<(), ClipboardError>)
        ensures
            r.is_ok(),
            final(self).notices@.len() == old(self).notices@.len() + 1,
            final(self).notices@.last()@
                == "writing the clipboard is not supported on this platform"@,
    {
        self.notices.push(
            String::from_str("writing the clipboard is not supported on this platform"),
        );
        Ok(())
    }

    /// Succeeds with an empty set of format names; never an error.
    pub fn get_mime_types(&mut self) -> (r: Result<Vec<String>, ClipboardError>)
        ensures
            r.is_ok(),
            r.unwrap()@.len() == 0,
            final(self).notices@.len() == old(self).notices@.len() + 1,
            final(self).notices@.last()@
                == "listing clipboard formats is not supported on this platform"@,
    {
        self.notices.push(
            String::from_str("listing clipboard formats is not supported on this platform"),
        );
        Ok(Vec::new())
    }

    /// Succeeds with an empty text for every format name; never an error.
    pub fn get_mime_contents(&mut self, _mime: &str) -> (r: Result<String, ClipboardError>)
        ensures
            r.is_ok(),
            r.unwrap()@.len() == 0,
            final(self).notices@.len() == old(self).notices@.len() + 1,
            final(self).notices@.last()@
                == "reading the clipboard is not supported on this platform"@,
    {
        self.notices.push(
            String::from_str("reading the clipboard is not supported on this platform"),
        );
        Ok(String::new())
    }

    /// Accepts and discards the payload for every format name; never an
    /// error.
    pub fn set_mime_contents(&mut self, _data: String, _mime: &str) -> (r: Result<
        (),
        ClipboardError,
    >)
        ensures
            r.is_ok(),
            final(self).notices@.len() == old(self).notices@.len() + 1,
            final(self).notices@.last()@
                == "writing the clipboard is not supported on this platform"@,
    {
        self.notices.push(
            String::from_str("writing the clipboard is not supported on this platform"),
        );
        Ok(())
    }

    /// How many notices the diagnostic channel holds.
    pub fn notice_count(&self) -> (n: usize)
        ensures
            n == self.notices@.len(),
    {
        self.notices.len()
    }
}

} // verus!
