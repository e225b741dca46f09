//! The format registry: resolution of human-readable MIME-type names to
//! host format identifiers, registering a name on first use. Resolution is
//! idempotent — within one host session the same name always resolves to
//! the same identifier.

use crate::codec::chars_of;
use crate::error::ClipboardError;
use crate::host::{find_reg, HostClipboard, RegModel, FORMAT_ID_END};
use vstd::prelude::*;

verus! {

/// Resolve a MIME-type name to a format identifier, registering it when it
/// is new. Fails with `FormatRegistration` exactly when the host refuses
/// the name: it is empty, or the identifier space is exhausted.
pub fn resolve_format(host: &mut HostClipboard, mime: &str) -> (r: Result<u32, ClipboardError>)
    requires
        old(host).inv(),
    ensures
        final(host).inv(),
        final(host).same_memory(old(host)),
        final(host).same_session(old(host)),
        final(host).same_flags(old(host)),
        match find_reg(old(host).reg_m(), mime@) {
            Some(id) => r == Ok::<u32, ClipboardError>(id) && final(host).same_registry(old(host))
                && find_reg(final(host).reg_m(), mime@) == Some(id),
            None => {
                if mime@.len() == 0 || old(host).next_id == FORMAT_ID_END {
                    r == Err::<u32, ClipboardError>(ClipboardError::FormatRegistration) && final(host).same_registry(old(host))
                } else {
                    r == Ok::<u32, ClipboardError>(old(host).next_id) && final(host).reg_m()
                        == old(host).reg_m().push(
                        (RegModel { name: mime@, id: old(host).next_id }),
                    ) && final(host).next_id == old(host).next_id + 1 && find_reg(
                        final(host).reg_m(),
                        mime@,
                    ) == Some(old(host).next_id)
                }
            },
        },
{
    let name = chars_of(mime);
    match host.register_format(name) {
        Some(id) => Ok(id),
        None => Err(ClipboardError::FormatRegistration),
    }
}

} // verus!
