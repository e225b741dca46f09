//! The host-backed provider: the public operation set — get and set the
//! default text, get and set a payload by MIME-type name — each call
//! composing format resolution, the session guard and global memory
//! transfer against the modelled host.

use crate::codec::{decode_wide, spec_trim, wide_of};
use crate::error::ClipboardError;
use crate::host::{
    find_board, find_reg, lemma_no_locks_transfer, BlockState, HostClipboard, RegModel,
    FORMAT_ID_END, FORMAT_UNICODE_TEXT,
};
use crate::registry::resolve_format;
use crate::session::{acquire, release, DEFAULT_ACQUIRE_ATTEMPTS};
use crate::transfer::{
    blocks_written, get_data_at_format, lemma_blocks_written_stable, set_data_at_format,
    wide_payload,
};
use vstd::prelude::*;

verus! {

/// The host refuses to resolve this name: it is not registered yet and is
/// either empty or past the identifier space.
pub open spec fn resolution_refused(h: HostClipboard, mime: Seq<char>) -> bool {
    find_reg(h.reg_m(), mime).is_none() && (mime.len() == 0 || h.next_id == FORMAT_ID_END)
}

/// The identifier a resolvable name maps to: its registered identifier, or
/// the next free one when it is new.
pub open spec fn resolved_id(h: HostClipboard, mime: Seq<char>) -> u32 {
    match find_reg(h.reg_m(), mime) {
        Some(id) => id,
        None => h.next_id,
    }
}

/// How one successful resolution changes the registration table.
pub open spec fn registry_after_resolve(
    pre: HostClipboard,
    post: HostClipboard,
    mime: Seq<char>,
) -> bool {
    match find_reg(pre.reg_m(), mime) {
        Some(id) => post.same_registry(&pre),
        None => post.reg_m() == pre.reg_m().push((RegModel { name: mime, id: pre.next_id }))
            && post.next_id == pre.next_id + 1,
    }
}

/// What a completed write left behind, given the state the operation found.
pub open spec fn write_outcome(
    pre: HostClipboard,
    post: HostClipboard,
    data: Seq<char>,
    format: u32,
    r: Result<(), ClipboardError>,
) -> bool {
    &&& data.len() == 0 ==> r == Err::<(), ClipboardError>(ClipboardError::EmptyPayload)
        && post.same_memory(&pre) && post.same_flags(&pre)
    &&& data.len() > 0 ==> !post.fail_next_convert
    &&& data.len() > 0 && pre.fail_next_convert ==> r == Err::<(), ClipboardError>(
        ClipboardError::Encoding,
    ) && post.same_memory(&pre)
    &&& data.len() > 0 && !pre.fail_next_convert && wide_of(data).len() >= usize::MAX ==> r
        == Err::<(), ClipboardError>(ClipboardError::Allocation) && post.same_memory(&pre)
    &&& data.len() > 0 && !pre.fail_next_convert && wide_of(data).len() < usize::MAX
        && pre.fail_next_alloc ==> r == Err::<(), ClipboardError>(ClipboardError::Allocation)
        && post.same_memory(&pre) && !post.fail_next_alloc
    &&& data.len() > 0 && !pre.fail_next_convert && wide_of(data).len() < usize::MAX
        && !pre.fail_next_alloc && pre.fail_next_publish ==> r == Err::<(), ClipboardError>(
        ClipboardError::Publish,
    ) && blocks_written(pre, post, wide_payload(data), BlockState::Freed) && post.board@.len() == 0
        && !post.fail_next_publish
    &&& data.len() > 0 && !pre.fail_next_convert && wide_of(data).len() < usize::MAX
        && !pre.fail_next_alloc && !pre.fail_next_publish ==> r == Ok::<(), ClipboardError>(())
        && blocks_written(pre, post, wide_payload(data), BlockState::Published)
        && post.board@.len() == 1 && post.board@[0].format == format && post.board@[0].handle
        == pre.blocks_m().len() && !post.fail_next_publish
}

/// What a completed read returned, given the state the operation found. A
/// read leaves the memory exactly as it found it.
pub open spec fn read_outcome(
    pre: HostClipboard,
    format: u32,
    flag_cleared: bool,
    r: Result<String, ClipboardError>,
) -> bool {
    match find_board(pre.board@, format) {
        None => r == Err::<String, ClipboardError>(ClipboardError::FormatNotPresent),
        Some(h) => {
            let d = pre.blocks_m()[h as int].data;
            &&& flag_cleared
            &&& pre.fail_next_convert ==> r == Err::<String, ClipboardError>(
                ClipboardError::Encoding,
            )
            &&& !pre.fail_next_convert ==> match decode_wide(d) {
                None => r == Err::<String, ClipboardError>(ClipboardError::Encoding),
                Some(cs) => if cs.len() == 0 {
                    r == Err::<String, ClipboardError>(ClipboardError::Encoding)
                } else {
                    r.is_ok() && r.unwrap()@ == spec_trim(cs)
                },
            }
        },
    }
}

/// Idempotent format resolution: after one resolution of a name, the name
/// is registered under the identifier that resolution returned, so every
/// later resolution in the same session yields the same identifier and
/// changes nothing.
pub proof fn lemma_resolution_idempotent(pre: HostClipboard, post: HostClipboard, mime: Seq<char>)
    requires
        registry_after_resolve(pre, post, mime),
    ensures
        find_reg(post.reg_m(), mime) == Some(resolved_id(pre, mime)),
        resolved_id(post, mime) == resolved_id(pre, mime),
{
    match find_reg(pre.reg_m(), mime) {
        Some(id) => {
            assert(post.reg_m() == pre.reg_m());
        },
        None => {
            crate::host::lemma_find_reg_push(
                pre.reg_m(),
                (RegModel { name: mime, id: pre.next_id }),
                mime,
            );
        },
    }
}

/// Round trip: for every non-empty text without terminator characters,
/// what a successful write publishes, an undisturbed read of the same
/// format returns — exactly the original text.
pub proof fn lemma_write_then_read(
    pre: HostClipboard,
    mid: HostClipboard,
    data: Seq<char>,
    format: u32,
    flag_cleared: bool,
    r: Result<String, ClipboardError>,
)
    requires
        data.len() > 0,
        forall|i: int| 0 <= i < data.len() ==> data[i] != '\0',
        blocks_written(pre, mid, wide_payload(data), BlockState::Published),
        mid.board@.len() == 1,
        mid.board@[0].format == format,
        mid.board@[0].handle == pre.blocks_m().len(),
        !mid.fail_next_convert,
        read_outcome(mid, format, flag_cleared, r),
    ensures
        r.is_ok(),
        r.unwrap()@ == data,
{
    assert(mid.board@.skip(1) =~= Seq::<crate::host::BoardEntry>::empty());
    assert(find_board(mid.board@, format) == Some(mid.board@[0].handle));
    let h = pre.blocks_m().len() as int;
    assert(mid.blocks_m()[h] == (crate::host::BlockModel {
        data: wide_payload(data),
        state: BlockState::Published,
        locked: false,
    }));
    crate::transfer::lemma_payload_round_trip(data);
}

/// The provider over the modelled host.
pub struct WindowsClipboardContext {
    /// The host this provider operates against.
    pub host: HostClipboard,
}

impl WindowsClipboardContext {
    /// The provider between operations: a well-formed host, no session
    /// held, no locked view outstanding.
    pub open spec fn wf(&self) -> bool {
        self.host.inv() && self.host.no_locks() && !self.host.opened
    }

    pub fn new() -> (r: Result<WindowsClipboardContext, ClipboardError>)
        ensures
            r.is_ok(),
            r.unwrap().wf(),
            r.unwrap().host.is_fresh(),
    {
        Ok(WindowsClipboardContext { host: HostClipboard::new() })
    }

    /// Write the default-format text: acquire the session with bounded
    /// retries, run the write path, release on every path.
    pub fn set_contents(&mut self, data: String) -> (r: Result<(), ClipboardError>)
        requires
            old(self).wf(),
        ensures
            final(self).wf(),
            final(self).host.same_registry(&old(self).host),
            old(self).host.busy_pending >= DEFAULT_ACQUIRE_ATTEMPTS ==> r == Err::<
                (),
                ClipboardError,
            >(ClipboardError::ClipboardUnavailable) && final(self).host.same_memory(&old(self).host) && final(self).host.same_flags(&old(self).host) && final(self).host.busy_pending
                == old(self).host.busy_pending - DEFAULT_ACQUIRE_ATTEMPTS,
            old(self).host.busy_pending < DEFAULT_ACQUIRE_ATTEMPTS ==> final(self).host.busy_pending == 0 && write_outcome(
                old(self).host,
                final(self).host,
                data@,
                FORMAT_UNICODE_TEXT,
                r,
            ),
    {
        match acquire(&mut self.host, DEFAULT_ACQUIRE_ATTEMPTS) {
            Err(e) => {
                return Err(e);
            },
            Ok(()) => {},
        }
        proof {
            lemma_no_locks_transfer(old(self).host, self.host);
        }
        let ghost s1 = self.host;
        let r = set_data_at_format(&mut self.host, data.as_str(), FORMAT_UNICODE_TEXT);
        let ghost s2 = self.host;
        release(&mut self.host);
        proof {
            lemma_no_locks_transfer(s2, self.host);
            if old(self).host.busy_pending < DEFAULT_ACQUIRE_ATTEMPTS && data@.len() > 0
                && !old(self).host.fail_next_convert && wide_of(data@).len() < usize::MAX && !old(self).host.fail_next_alloc {
                if old(self).host.fail_next_publish {
                    lemma_blocks_written_stable(
                        s1,
                        old(self).host,
                        s2,
                        self.host,
                        wide_payload(data@),
                        BlockState::Freed,
                    );
                } else {
                    lemma_blocks_written_stable(
                        s1,
                        old(self).host,
                        s2,
                        self.host,
                        wide_payload(data@),
                        BlockState::Published,
                    );
                }
            }
        }
        r
    }

    /// Read the default-format text: acquire, run the read path, release.
    pub fn get_contents(&mut self) -> (r: Result<String, ClipboardError>)
        requires
            old(self).wf(),
        ensures
            final(self).wf(),
            final(self).host.same_registry(&old(self).host),
            final(self).host.same_memory(&old(self).host),
            old(self).host.busy_pending >= DEFAULT_ACQUIRE_ATTEMPTS ==> r == Err::<
                String,
                ClipboardError,
            >(ClipboardError::ClipboardUnavailable) && final(self).host.same_flags(&old(self).host) && final(self).host.busy_pending == old(self).host.busy_pending
                - DEFAULT_ACQUIRE_ATTEMPTS,
            old(self).host.busy_pending < DEFAULT_ACQUIRE_ATTEMPTS ==> final(self).host.busy_pending == 0 && read_outcome(
                old(self).host,
                FORMAT_UNICODE_TEXT,
                !final(self).host.fail_next_convert,
                r,
            ),
    {
        match acquire(&mut self.host, DEFAULT_ACQUIRE_ATTEMPTS) {
            Err(e) => {
                return Err(e);
            },
            Ok(()) => {},
        }
        proof {
            lemma_no_locks_transfer(old(self).host, self.host);
        }
        let r = get_data_at_format(&mut self.host, FORMAT_UNICODE_TEXT);
        let ghost s2 = self.host;
        release(&mut self.host);
        proof {
            lemma_no_locks_transfer(s2, self.host);
        }
        r
    }

    /// Read the payload published under a MIME-type name: resolve the
    /// format, acquire, run the read path, release.
    pub fn get_mime_contents(&mut self, mime: &str) -> (r: Result<String, ClipboardError>)
        requires
            old(self).wf(),
        ensures
            final(self).wf(),
            final(self).host.same_memory(&old(self).host),
            resolution_refused(old(self).host, mime@) ==> r == Err::<String, ClipboardError>(
                ClipboardError::FormatRegistration,
            ) && final(self).host.same_registry(&old(self).host) && final(self).host.same_flags(&old(self).host) && final(self).host.busy_pending == old(self).host.busy_pending,
            !resolution_refused(old(self).host, mime@) ==> registry_after_resolve(
                old(self).host,
                final(self).host,
                mime@,
            ) && {
                &&& old(self).host.busy_pending >= DEFAULT_ACQUIRE_ATTEMPTS ==> r == Err::<
                    String,
                    ClipboardError,
                >(ClipboardError::ClipboardUnavailable) && final(self).host.same_flags(&old(self).host) && final(self).host.busy_pending == old(self).host.busy_pending
                    - DEFAULT_ACQUIRE_ATTEMPTS
                &&& old(self).host.busy_pending < DEFAULT_ACQUIRE_ATTEMPTS ==> final(self).host.busy_pending == 0 && read_outcome(
                    old(self).host,
                    resolved_id(old(self).host, mime@),
                    !final(self).host.fail_next_convert,
                    r,
                )
            },
    {
        let format = match resolve_format(&mut self.host, mime) {
            Ok(f) => f,
            Err(e) => {
                return Err(e);
            },
        };
        proof {
            lemma_no_locks_transfer(old(self).host, self.host);
        }
        match acquire(&mut self.host, DEFAULT_ACQUIRE_ATTEMPTS) {
            Err(e) => {
                return Err(e);
            },
            Ok(()) => {},
        }
        let r = get_data_at_format(&mut self.host, format);
        let ghost s2 = self.host;
        release(&mut self.host);
        proof {
            lemma_no_locks_transfer(s2, self.host);
        }
        r
    }

    /// Write a payload under a MIME-type name: resolve the format, acquire,
    /// run the write path, release.
    pub fn set_mime_contents(&mut self, data: String, mime: &str) -> (r: Result<
        (),
        ClipboardError,
    >)
        requires
            old(self).wf(),
        ensures
            final(self).wf(),
            resolution_refused(old(self).host, mime@) ==> r == Err::<(), ClipboardError>(
                ClipboardError::FormatRegistration,
            ) && final(self).host.same_registry(&old(self).host) && final(self).host.same_memory(&old(self).host) && final(self).host.same_flags(&old(self).host) && final(self).host.busy_pending
                == old(self).host.busy_pending,
            !resolution_refused(old(self).host, mime@) ==> registry_after_resolve(
                old(self).host,
                final(self).host,
                mime@,
            ) && {
                &&& old(self).host.busy_pending >= DEFAULT_ACQUIRE_ATTEMPTS ==> r == Err::<
                    (),
                    ClipboardError,
                >(ClipboardError::ClipboardUnavailable) && final(self).host.same_memory(&old(self).host) && final(self).host.same_flags(&old(self).host) && final(self).host.busy_pending
                    == old(self).host.busy_pending - DEFAULT_ACQUIRE_ATTEMPTS
                &&& old(self).host.busy_pending < DEFAULT_ACQUIRE_ATTEMPTS ==> final(self).host.busy_pending == 0 && write_outcome(
                    old(self).host,
                    final(self).host,
                    data@,
                    resolved_id(old(self).host, mime@),
                    r,
                )
            },
    {
        let format = match resolve_format(&mut self.host, mime) {
            Ok(f) => f,
            Err(e) => {
                return Err(e);
            },
        };
        proof {
            lemma_no_locks_transfer(old(self).host, self.host);
        }
        match acquire(&mut self.host, DEFAULT_ACQUIRE_ATTEMPTS) {
            Err(e) => {
                return Err(e);
            },
            Ok(()) => {},
        }
        let ghost s1 = self.host;
        let r = set_data_at_format(&mut self.host, data.as_str(), format);
        let ghost s2 = self.host;
        release(&mut self.host);
        proof {
            lemma_no_locks_transfer(s2, self.host);
            if old(self).host.busy_pending < DEFAULT_ACQUIRE_ATTEMPTS && data@.len() > 0
                && !old(self).host.fail_next_convert && wide_of(data@).len() < usize::MAX && !old(self).host.fail_next_alloc {
                if old(self).host.fail_next_publish {
                    lemma_blocks_written_stable(
                        s1,
                        old(self).host,
                        s2,
                        self.host,
                        wide_payload(data@),
                        BlockState::Freed,
                    );
                } else {
                    lemma_blocks_written_stable(
                        s1,
                        old(self).host,
                        s2,
                        self.host,
                        wide_payload(data@),
                        BlockState::Published,
                    );
                }
            }
        }
        r
    }
}

} // verus!
