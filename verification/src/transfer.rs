//! Global memory transfer: the byte/text payload exchange with the
//! clipboard. The write path measures, allocates, locks, converts, writes a
//! terminator, publishes — and frees the block exactly once if the hand-off
//! fails. The read path locks the clipboard-owned block, measures, converts
//! and trims, and never frees what it only borrowed.

use crate::codec::{
    chars_of, decode_wide, decode_wide_units, encode_wide, lemma_trim_at_terminator,
    lemma_wide_len, lemma_wide_terminated_round_trip, spec_trim, string_from_chars,
    trim_terminator, wide_of,
};
use crate::error::ClipboardError;
use crate::host::{
    board_refs, find_board, lemma_find_board_props, BlockModel, BlockState, BoardEntry,
    HostClipboard,
};
use vstd::prelude::*;

verus! {

/// The wide payload a text is published as: its UTF-16 encoding followed by
/// one terminator unit.
pub open spec fn wide_payload(s: Seq<char>) -> Seq<u16> {
    wide_of(s).push(0u16)
}

/// The memory state after a write: every block the clipboard previously
/// owned has been reclaimed by the clearing step, every other old block is
/// untouched, and one new block holds the payload in the given ownership
/// state.
pub open spec fn blocks_written(
    pre: HostClipboard,
    post: HostClipboard,
    payload: Seq<u16>,
    state: BlockState,
) -> bool {
    &&& post.blocks_m().len() == pre.blocks_m().len() + 1
    &&& forall|i: int|
        0 <= i < pre.blocks_m().len() ==> #[trigger] post.blocks_m()[i] == (BlockModel {
            data: pre.blocks_m()[i].data,
            state: if board_refs(pre.board@, i) {
                BlockState::Freed
            } else {
                pre.blocks_m()[i].state
            },
            locked: pre.blocks_m()[i].locked,
        })
    &&& post.blocks_m()[pre.blocks_m().len() as int] == (BlockModel {
        data: payload,
        state,
        locked: false,
    })
}

/// Write a text payload to the clipboard under a format identifier.
///
/// The hand-off discipline is part of the contract: on success the new
/// block is `Published` (owned by the clipboard, never freed here); on a
/// failed hand-off it is `Freed` — freed exactly once, and the host's
/// ownership states rule out any later access to it.
pub fn set_data_at_format(host: &mut HostClipboard, data: &str, format: u32) -> (r: Result<
    (),
    ClipboardError,
>)
    requires
        old(host).inv(),
        old(host).opened,
        old(host).no_locks(),
    ensures
        final(host).inv(),
        final(host).opened,
        final(host).no_locks(),
        final(host).busy_pending == old(host).busy_pending,
        final(host).same_registry(old(host)),
        data@.len() == 0 ==> r == Err::<(), ClipboardError>(ClipboardError::EmptyPayload) && final(host).same_memory(old(host)) && final(host).same_flags(old(host)),
        data@.len() > 0 ==> !final(host).fail_next_convert,
        data@.len() > 0 && old(host).fail_next_convert ==> r == Err::<(), ClipboardError>(ClipboardError::Encoding) && final(host).same_memory(old(host)) && final(host).fail_next_alloc == old(host).fail_next_alloc && final(host).fail_next_publish == old(host).fail_next_publish,
        data@.len() > 0 && !old(host).fail_next_convert && wide_of(data@).len() >= usize::MAX ==> r == Err::<(), ClipboardError>(ClipboardError::Allocation) && final(host).same_memory(old(host)) && final(host).fail_next_alloc == old(host).fail_next_alloc && final(host).fail_next_publish == old(host).fail_next_publish,
        data@.len() > 0 && !old(host).fail_next_convert && wide_of(data@).len() < usize::MAX && old(host).fail_next_alloc ==> r == Err::<(), ClipboardError>(ClipboardError::Allocation) && final(host).same_memory(old(host)) && !final(host).fail_next_alloc && final(host).fail_next_publish == old(host).fail_next_publish,
        data@.len() > 0 && !old(host).fail_next_convert && wide_of(data@).len() < usize::MAX && !old(host).fail_next_alloc && old(host).fail_next_publish ==> r == Err::<(), ClipboardError>(ClipboardError::Publish) && blocks_written(*old(host), *final(host), wide_payload(data@), BlockState::Freed) && final(host).board@ == Seq::<BoardEntry>::empty() && !final(host).fail_next_alloc && !final(host).fail_next_publish,
        data@.len() > 0 && !old(host).fail_next_convert && wide_of(data@).len() < usize::MAX && !old(host).fail_next_alloc && !old(host).fail_next_publish ==> r == Ok::<(), ClipboardError>(()) && blocks_written(*old(host), *final(host), wide_payload(data@), BlockState::Published) && final(host).board@.len() == 1 && final(host).board@[0].format == format && final(host).board@[0].handle == old(host).blocks_m().len() && !final(host).fail_next_alloc && !final(host).fail_next_publish,
{
    // Step 1: empty payloads are rejected before anything is touched.
    if data.unicode_len() == 0 {
        return Err(ClipboardError::EmptyPayload);
    }
    let text = chars_of(data);
    // Step 2: measuring pass. A zero unit count for a non-empty payload is
    // a conversion-layer defect.
    let units = host.measure_to_wide(&text);
    proof {
        lemma_wide_len(data@);
    }
    if units == 0 {
        return Err(ClipboardError::Encoding);
    }
    // Step 3: allocate a zero-initialised block with room for one
    // terminator unit beyond the measured payload.
    if units == usize::MAX {
        // the allocator cannot serve a request of this size
        return Err(ClipboardError::Allocation);
    }
    let ghost s_measured = *host;
    let h = match host.alloc_block(units + 1) {
        Some(h) => h,
        None => {
            return Err(ClipboardError::Allocation);
        },
    };
    let ghost s_alloc = *host;
    let ghost zeros = Seq::new((units + 1) as nat, |i: int| 0u16);
    proof {
        assert(s_alloc.blocks_m() == s_measured.blocks_m().push(
            (BlockModel { data: zeros, state: BlockState::Allocated, locked: false }),
        ));
        assert(h as int == s_measured.blocks_m().len());
        assert(s_alloc.blocks_m()[h as int] == (BlockModel {
            data: zeros,
            state: BlockState::Allocated,
            locked: false,
        }));
    }
    // Step 4: lock the block, convert into the locked view (the writing
    // pass, sized by the measuring pass), then write the terminator
    // explicitly after the converted content.
    host.lock(h);
    proof {
        assert(host.blocks_m()[h as int] == (BlockModel {
            data: zeros,
            state: BlockState::Allocated,
            locked: true,
        }));
    }
    let buf = encode_wide(&text);
    host.write_block(h, &buf);
    proof {
        assert(host.blocks_m()[h as int] == (BlockModel {
            data: buf@ + zeros.skip(units as int),
            state: BlockState::Allocated,
            locked: true,
        }));
    }
    host.store_unit(h, units, 0u16);
    host.unlock(h);
    proof {
        assert(buf@ + zeros.skip(units as int) =~= wide_of(data@) + zeros.skip(units as int));
        assert((wide_of(data@) + zeros.skip(units as int)).update(units as int, 0u16)
            =~= wide_payload(data@));
        assert(host.blocks_m()[h as int] == (BlockModel {
            data: wide_payload(data@),
            state: BlockState::Allocated,
            locked: false,
        }));
        assert forall|i: int| 0 <= i < old(host).blocks_m().len() implies #[trigger] host.blocks_m()[i]
            == old(host).blocks_m()[i] by {
            assert(s_alloc.blocks_m()[i] == old(host).blocks_m()[i]);
        }
        assert(host.board@ == old(host).board@);
    }
    let ghost s_written = *host;
    // Step 5: clear the clipboard, then hand the block off.
    host.empty_clipboard();
    proof {
        assert(!board_refs(old(host).board@, h as int)) by {
            if board_refs(old(host).board@, h as int) {
                let jj = choose|jj: int|
                    0 <= jj < old(host).board@.len() && (#[trigger] old(host).board@[jj]).handle
                        == h as int;
                assert(crate::host::slot_ok(old(host).blocks_m(), old(host).board@[jj]));
            }
        }
        assert forall|i: int| 0 <= i < old(host).blocks_m().len() implies #[trigger] host.blocks_m()[i]
            == (BlockModel {
            data: old(host).blocks_m()[i].data,
            state: if board_refs(old(host).board@, i) {
                BlockState::Freed
            } else {
                old(host).blocks_m()[i].state
            },
            locked: old(host).blocks_m()[i].locked,
        }) by {
            assert(s_written.blocks_m()[i] == old(host).blocks_m()[i]);
        }
        assert(host.blocks_m()[h as int] == s_written.blocks_m()[h as int]);
        assert(find_board(Seq::<BoardEntry>::empty(), format).is_none());
    }
    if host.set_clipboard_data(format, h) {
        proof {
            assert(host.board@ =~= seq![BoardEntry { format, handle: h }]);
            assert forall|i: int|
                0 <= i < host.blocks_m().len() implies !(#[trigger] host.blocks_m()[i]).locked by {
                if i < old(host).blocks_m().len() {
                    assert(!old(host).blocks_m()[i].locked);
                }
            }
        }
        Ok(())
    } else {
        // Step 6: the hand-off failed; this side still owns the block and
        // frees it, exactly once. The Freed state bars any further use.
        host.free(h);
        proof {
            assert forall|i: int|
                0 <= i < host.blocks_m().len() implies !(#[trigger] host.blocks_m()[i]).locked by {
                if i < old(host).blocks_m().len() {
                    assert(!old(host).blocks_m()[i].locked);
                }
            }
        }
        Err(ClipboardError::Publish)
    }
}

/// Read the text payload the clipboard holds under a format identifier.
///
/// The read path only borrows: it locks the clipboard-owned block for
/// reading and returns the lock on every path; the memory state it leaves
/// behind is exactly the one it found.
pub fn get_data_at_format(host: &mut HostClipboard, format: u32) -> (r: Result<
    String,
    ClipboardError,
>)
    requires
        old(host).inv(),
        old(host).opened,
        old(host).no_locks(),
    ensures
        final(host).inv(),
        final(host).opened,
        final(host).no_locks(),
        final(host).busy_pending == old(host).busy_pending,
        final(host).same_registry(old(host)),
        final(host).same_memory(old(host)),
        final(host).fail_next_alloc == old(host).fail_next_alloc,
        final(host).fail_next_publish == old(host).fail_next_publish,
        match find_board(old(host).board@, format) {
            None => r == Err::<String, ClipboardError>(ClipboardError::FormatNotPresent) && final(host).same_flags(old(host)),
            Some(h) => {
                let d = old(host).blocks_m()[h as int].data;
                &&& !final(host).fail_next_convert
                &&& old(host).fail_next_convert ==> r == Err::<String, ClipboardError>(ClipboardError::Encoding)
                &&& !old(host).fail_next_convert ==> match decode_wide(d) {
                    None => r == Err::<String, ClipboardError>(ClipboardError::Encoding),
                    Some(cs) => if cs.len() == 0 {
                        r == Err::<String, ClipboardError>(ClipboardError::Encoding)
                    } else {
                        r.is_ok() && r.unwrap()@ == spec_trim(cs)
                    },
                }
            },
        },
{
    // Step 1: the clipboard's current handle for this format.
    let h = match host.get_clipboard_data(format) {
        Some(h) => h,
        None => {
            return Err(ClipboardError::FormatNotPresent);
        },
    };
    proof {
        lemma_find_board_props(host.board@, format);
        let jj = choose|jj: int|
            0 <= jj < host.board@.len() && (#[trigger] host.board@[jj]).format == format
                && host.board@[jj].handle == h;
        assert(crate::host::slot_ok(host.blocks_m(), host.board@[jj]));
    }
    // Step 2: lock the clipboard-owned block for reading.
    host.lock(h);
    let units = host.read_block(h);
    // Steps 3 and 4: source unit count and measuring pass.
    let n = host.measure_to_text(&units);
    if n == 0 {
        host.unlock(h);
        proof {
            assert(host.blocks_m() =~~= old(host).blocks_m());
        }
        return Err(ClipboardError::Encoding);
    }
    // Step 5: the converting pass, into exactly the measured size.
    let decoded = match decode_wide_units(&units) {
        Some(c) => c,
        None => {
            host.unlock(h);
            proof {
                assert(host.blocks_m() =~~= old(host).blocks_m());
            }
            return Err(ClipboardError::Encoding);
        },
    };
    // Step 6: defensive trim at the first terminator character.
    let mut text = decoded;
    trim_terminator(&mut text);
    host.unlock(h);
    proof {
        assert(host.blocks_m() =~~= old(host).blocks_m());
    }
    Ok(string_from_chars(&text))
}

/// A written memory state is insensitive to which equal snapshots describe
/// it.
pub proof fn lemma_blocks_written_stable(
    a: HostClipboard,
    a2: HostClipboard,
    b: HostClipboard,
    b2: HostClipboard,
    payload: Seq<u16>,
    st: BlockState,
)
    requires
        blocks_written(a, b, payload, st),
        a2.blocks_m() == a.blocks_m(),
        a2.board@ == a.board@,
        b2.blocks_m() == b.blocks_m(),
    ensures
        blocks_written(a2, b2, payload, st),
{
    assert forall|i: int| 0 <= i < a2.blocks_m().len() implies #[trigger] b2.blocks_m()[i]
        == (BlockModel {
        data: a2.blocks_m()[i].data,
        state: if board_refs(a2.board@, i) {
            BlockState::Freed
        } else {
            a2.blocks_m()[i].state
        },
        locked: a2.blocks_m()[i].locked,
    }) by {
        assert(b.blocks_m()[i] == (BlockModel {
            data: a.blocks_m()[i].data,
            state: if board_refs(a.board@, i) {
                BlockState::Freed
            } else {
                a.blocks_m()[i].state
            },
            locked: a.blocks_m()[i].locked,
        }));
    }
}

/// The round-trip law of the transfer layer: for a non-empty text without
/// terminator characters, the published payload decodes to a non-empty
/// character sequence whose trim is exactly the original text — what a
/// write hands the clipboard, a read hands back.
pub proof fn lemma_payload_round_trip(s: Seq<char>)
    requires
        s.len() > 0,
        forall|i: int| 0 <= i < s.len() ==> s[i] != '\0',
    ensures
        decode_wide(wide_payload(s)) == Some(s.push('\0')),
        decode_wide(wide_payload(s)).unwrap().len() == s.len() + 1,
        spec_trim(decode_wide(wide_payload(s)).unwrap()) == s,
{
    lemma_wide_terminated_round_trip(s);
    assert forall|i: int| 0 <= i < (s.len() as int) implies s.push('\0')[i] != '\0' by {
        assert(s.push('\0')[i] == s[i]);
    }
    lemma_trim_at_terminator(s.push('\0'), s.len() as int);
    assert(s.push('\0').take(s.len() as int) =~= s);
}

} // verus!
