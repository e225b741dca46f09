//! The host side of the clipboard protocol, modelled explicitly: the format
//! registration table, the clipboard slots, the global memory blocks with
//! their lock and ownership states, the contention another process may cause
//! on acquisition, and the failure modes of the host services (allocation,
//! conversion, hand-off) as injectable faults.
//!
//! Every operation of this module is verified; the model is what the
//! transfer, session and registry layers are proved against.

use crate::codec::{decode_wide, decode_wide_units, encode_wide, wide_of};
use vstd::prelude::*;

verus! {

/// The predefined identifier of the default (wide text) format.
pub const FORMAT_UNICODE_TEXT: u32 = 13;

/// The first identifier handed out for a registered custom format.
pub const FIRST_CUSTOM_FORMAT: u32 = 0xC000;

/// The identifier space for custom formats ends here; registration past it
/// is refused (resource exhaustion).
pub const FORMAT_ID_END: u32 = 0x10000;

/// Ownership state of a global memory block.
#[derive(Clone, Copy, Debug, PartialEq, Eq, Structural)]
pub enum BlockState {
    /// Owned by the caller that allocated it.
    Allocated,
    /// Handed to the clipboard; the caller must never free it.
    Published,
    /// Returned to the host; no access of any kind is left.
    Freed,
}

/// A global memory block: host-allocated, movable, lockable.
pub struct Block {
    pub data: Vec<u16>,
    pub state: BlockState,
    pub locked: bool,
}

/// The mathematical value of a block.
#[verifier::ext_equal]
pub struct BlockModel {
    pub data: Seq<u16>,
    pub state: BlockState,
    pub locked: bool,
}

impl View for Block {
    type V = BlockModel;

    open spec fn view(&self) -> BlockModel {
        BlockModel { data: self.data@, state: self.state, locked: self.locked }
    }
}

/// One row of the format registration table.
pub struct RegEntry {
    pub name: Vec<char>,
    pub id: u32,
}

/// The mathematical value of a registration row.
#[verifier::ext_equal]
pub struct RegModel {
    pub name: Seq<char>,
    pub id: u32,
}

impl View for RegEntry {
    type V = RegModel;

    open spec fn view(&self) -> RegModel {
        RegModel { name: self.name@, id: self.id }
    }
}

/// One clipboard slot: the block currently published under a format.
#[derive(Clone, Copy, Debug, PartialEq, Eq, Structural)]
pub struct BoardEntry {
    pub format: u32,
    pub handle: usize,
}

/// The identifier a name resolves to, by the first matching row.
pub open spec fn find_reg(reg: Seq<RegModel>, name: Seq<char>) -> Option<u32>
    decreases reg.len(),
{
    if reg.len() == 0 {
        None
    } else if reg[0].name == name {
        Some(reg[0].id)
    } else {
        find_reg(reg.skip(1), name)
    }
}

/// The handle published under a format, if any.
pub open spec fn find_board(board: Seq<BoardEntry>, format: u32) -> Option<usize>
    decreases board.len(),
{
    if board.len() == 0 {
        None
    } else if board[0].format == format {
        Some(board[0].handle)
    } else {
        find_board(board.skip(1), format)
    }
}

/// Whether some slot among the first `n` references handle `h`.
pub open spec fn board_refs_prefix(board: Seq<BoardEntry>, n: int, h: int) -> bool {
    exists|j: int| 0 <= j < n && (#[trigger] board[j]).handle == h
}

/// Whether some slot references handle `h`.
pub open spec fn board_refs(board: Seq<BoardEntry>, h: int) -> bool {
    board_refs_prefix(board, board.len() as int, h)
}

/// A well-formed registration row: identifier in range, name non-empty.
pub open spec fn reg_row_ok(e: RegModel, next_id: u32) -> bool {
    FIRST_CUSTOM_FORMAT <= e.id < next_id && e.name.len() > 0
}

/// A well-formed clipboard slot: its handle names a published block.
pub open spec fn slot_ok(blocks: Seq<BlockModel>, e: BoardEntry) -> bool {
    e.handle < blocks.len() && blocks[e.handle as int].state == BlockState::Published
}

pub proof fn lemma_find_reg_push(reg: Seq<RegModel>, e: RegModel, name: Seq<char>)
    requires
        find_reg(reg, name).is_none(),
    ensures
        find_reg(reg.push(e), name) == (if e.name == name {
            Some(e.id)
        } else {
            None::<u32>
        }),
    decreases reg.len(),
{
    if reg.len() == 0 {
        assert(reg.push(e)[0] == e);
        assert(reg.push(e).len() == 1);
        assert(reg.push(e).skip(1) =~= Seq::<RegModel>::empty());
        assert(find_reg(Seq::<RegModel>::empty(), name).is_none());
        assert(find_reg(reg.push(e), name) == (if e.name == name {
            Some(e.id)
        } else {
            find_reg(reg.push(e).skip(1), name)
        }));
    } else {
        assert(reg[0].name != name);
        assert(find_reg(reg.skip(1), name).is_none());
        assert(reg.push(e)[0] == reg[0]);
        assert(reg.push(e).skip(1) =~= reg.skip(1).push(e));
        assert(reg.push(e).len() > 0);
        assert(find_reg(reg.push(e), name) == find_reg(reg.skip(1).push(e), name));
        lemma_find_reg_push(reg.skip(1), e, name);
    }
}

/// What a registry lookup means row by row.
pub proof fn lemma_find_reg_props(reg: Seq<RegModel>, name: Seq<char>)
    ensures
        find_reg(reg, name).is_some() ==> exists|i: int|
            0 <= i < reg.len() && (#[trigger] reg[i]).name == name && reg[i].id == find_reg(
                reg,
                name,
            ).unwrap(),
        find_reg(reg, name).is_none() ==> forall|i: int|
            0 <= i < reg.len() ==> (#[trigger] reg[i]).name != name,
    decreases reg.len(),
{
    if reg.len() > 0 && reg[0].name != name {
        lemma_find_reg_props(reg.skip(1), name);
        if find_reg(reg, name).is_some() {
            let i = choose|i: int|
                0 <= i < reg.skip(1).len() && (#[trigger] reg.skip(1)[i]).name == name
                    && reg.skip(1)[i].id == find_reg(reg.skip(1), name).unwrap();
            assert(reg[i + 1] == reg.skip(1)[i]);
        } else {
            assert forall|i: int| 0 <= i < reg.len() implies (#[trigger] reg[i]).name != name by {
                if i > 0 {
                    assert(reg[i] == reg.skip(1)[i - 1]);
                }
            }
        }
    }
}

/// What a board lookup means slot by slot.
pub proof fn lemma_find_board_props(board: Seq<BoardEntry>, format: u32)
    ensures
        find_board(board, format).is_some() ==> exists|j: int|
            0 <= j < board.len() && (#[trigger] board[j]).format == format && board[j].handle
                == find_board(board, format).unwrap(),
        find_board(board, format).is_none() ==> forall|j: int|
            0 <= j < board.len() ==> (#[trigger] board[j]).format != format,
    decreases board.len(),
{
    if board.len() > 0 {
        lemma_find_board_props(board.skip(1), format);
        if board[0].format != format {
            if find_board(board, format).is_some() {
                let j = choose|j: int|
                    0 <= j < board.skip(1).len() && (#[trigger] board.skip(1)[j]).format == format
                        && board.skip(1)[j].handle == find_board(board.skip(1), format).unwrap();
                assert(board[j + 1] == board.skip(1)[j]);
            } else {
                assert forall|j: int| 0 <= j < board.len() implies (#[trigger] board[j]).format
                    != format by {
                    if j > 0 {
                        assert(board[j] == board.skip(1)[j - 1]);
                    }
                }
            }
        }
    }
}

/// The global clipboard host: one per operating session of the model.
pub struct HostClipboard {
    /// The format registration table.
    pub registry: Vec<RegEntry>,
    /// The next custom format identifier to hand out.
    pub next_id: u32,
    /// Every global memory block ever allocated, by handle.
    pub blocks: Vec<Block>,
    /// The clipboard slots: what is currently published.
    pub board: Vec<BoardEntry>,
    /// Whether this process currently holds the clipboard open.
    pub opened: bool,
    /// How many upcoming open attempts find the clipboard held elsewhere.
    pub busy_pending: u64,
    /// Injected fault: the next conversion pass reports zero units.
    pub fail_next_convert: bool,
    /// Injected fault: the next allocation returns nothing.
    pub fail_next_alloc: bool,
    /// Injected fault: the next hand-off to the clipboard is refused.
    pub fail_next_publish: bool,
}

impl HostClipboard {
    /// The registration table as mathematical rows.
    pub open spec fn reg_m(&self) -> Seq<RegModel> {
        self.registry@.map_values(|e: RegEntry| e@)
    }

    /// The memory blocks as mathematical values.
    pub open spec fn blocks_m(&self) -> Seq<BlockModel> {
        self.blocks@.map_values(|b: Block| b@)
    }

    /// Well-formedness of the registration table.
    pub open spec fn reg_inv(&self) -> bool {
        &&& FIRST_CUSTOM_FORMAT <= self.next_id <= FORMAT_ID_END
        &&& forall|i: int|
            0 <= i < self.reg_m().len() ==> reg_row_ok(#[trigger] self.reg_m()[i], self.next_id)
        &&& forall|i: int, j: int|
            0 <= i < j < self.reg_m().len() ==> (#[trigger] self.reg_m()[i]).name
                != (#[trigger] self.reg_m()[j]).name
    }

    /// Well-formedness of the clipboard slots.
    pub open spec fn board_inv(&self) -> bool {
        &&& forall|i: int, j: int|
            0 <= i < j < self.board@.len() ==> (#[trigger] self.board@[i]).format
                != (#[trigger] self.board@[j]).format
        &&& forall|i: int|
            0 <= i < self.board@.len() ==> slot_ok(self.blocks_m(), #[trigger] self.board@[i])
    }

    /// Well-formedness of the host.
    pub open spec fn inv(&self) -> bool {
        self.reg_inv() && self.board_inv()
    }

    /// A fresh host: empty registry and clipboard, no contention, no
    /// injected faults.
    pub open spec fn is_fresh(&self) -> bool {
        &&& self.reg_m().len() == 0
        &&& self.next_id == FIRST_CUSTOM_FORMAT
        &&& self.blocks_m().len() == 0
        &&& self.board@.len() == 0
        &&& !self.opened
        &&& self.busy_pending == 0
        &&& !self.fail_next_convert
        &&& !self.fail_next_alloc
        &&& !self.fail_next_publish
    }

    /// No locked view is outstanding: the state between operations, when
    /// every lock has been returned on every path.
    pub open spec fn no_locks(&self) -> bool {
        forall|i: int| 0 <= i < self.blocks_m().len() ==> !(#[trigger] self.blocks_m()[i]).locked
    }

    /// The registration state is unchanged.
    pub open spec fn same_registry(&self, other: &Self) -> bool {
        self.reg_m() == other.reg_m() && self.next_id == other.next_id
    }

    /// The memory and clipboard state is unchanged.
    pub open spec fn same_memory(&self, other: &Self) -> bool {
        self.blocks_m() == other.blocks_m() && self.board@ == other.board@
    }

    /// The session state is unchanged.
    pub open spec fn same_session(&self, other: &Self) -> bool {
        self.opened == other.opened && self.busy_pending == other.busy_pending
    }

    /// The injected-fault state is unchanged.
    pub open spec fn same_flags(&self, other: &Self) -> bool {
        &&& self.fail_next_convert == other.fail_next_convert
        &&& self.fail_next_alloc == other.fail_next_alloc
        &&& self.fail_next_publish == other.fail_next_publish
    }
}

/// The registration invariant carries over to an equal registration state.
pub proof fn lemma_reg_inv_transfer(a: HostClipboard, b: HostClipboard)
    requires
        a.reg_inv(),
        b.reg_m() == a.reg_m(),
        b.next_id == a.next_id,
    ensures
        b.reg_inv(),
{
    assert forall|i: int| 0 <= i < b.reg_m().len() implies reg_row_ok(
        #[trigger] b.reg_m()[i],
        b.next_id,
    ) by {
        assert(reg_row_ok(a.reg_m()[i], a.next_id));
    }
    assert forall|i: int, j: int| 0 <= i < j < b.reg_m().len() implies (
    #[trigger] b.reg_m()[i]).name != (#[trigger] b.reg_m()[j]).name by {
        assert(a.reg_m()[i].name != a.reg_m()[j].name);
    }
}

/// The lock discipline carries over to an equal memory state.
pub proof fn lemma_no_locks_transfer(a: HostClipboard, b: HostClipboard)
    requires
        a.no_locks(),
        b.blocks_m() == a.blocks_m(),
    ensures
        b.no_locks(),
{
    assert forall|i: int| 0 <= i < b.blocks_m().len() implies !(#[trigger] b.blocks_m()[i]).locked by {
        assert(!a.blocks_m()[i].locked);
    }
}

/// The board invariant carries over when the slots are unchanged and no
/// published block loses that state.
pub proof fn lemma_board_inv_preserved(a: HostClipboard, b: HostClipboard)
    requires
        a.board_inv(),
        b.board@ == a.board@,
        a.blocks_m().len() <= b.blocks_m().len(),
        forall|i: int|
            0 <= i < a.blocks_m().len() && (#[trigger] a.blocks_m()[i]).state
                == BlockState::Published ==> b.blocks_m()[i].state == BlockState::Published,
    ensures
        b.board_inv(),
{
    assert forall|i: int, j: int| 0 <= i < j < b.board@.len() implies (
    #[trigger] b.board@[i]).format != (#[trigger] b.board@[j]).format by {
        assert(a.board@[i].format != a.board@[j].format);
    }
    assert forall|i: int| 0 <= i < b.board@.len() implies slot_ok(
        b.blocks_m(),
        #[trigger] b.board@[i],
    ) by {
        assert(slot_ok(a.blocks_m(), a.board@[i]));
        assert(a.blocks_m()[a.board@[i].handle as int].state == BlockState::Published);
    }
}

impl HostClipboard {
    pub fn new() -> (r: HostClipboard)
        ensures
            r.inv(),
            r.is_fresh(),
    {
        HostClipboard {
            registry: Vec::new(),
            next_id: FIRST_CUSTOM_FORMAT,
            blocks: Vec::new(),
            board: Vec::new(),
            opened: false,
            busy_pending: 0,
            fail_next_convert: false,
            fail_next_alloc: false,
            fail_next_publish: false,
        }
    }

    /// Model that the clipboard is held by another process for the next
    /// `n` open attempts.
    pub fn inject_busy(&mut self, n: u64)
        requires
            old(self).inv(),
        ensures
            final(self).inv(),
            final(self).busy_pending == n,
            final(self).opened == old(self).opened,
            final(self).same_registry(old(self)),
            final(self).same_memory(old(self)),
            final(self).same_flags(old(self)),
    {
        self.busy_pending = n;
        proof {
            lemma_reg_inv_transfer(*old(self), *self);
            lemma_board_inv_preserved(*old(self), *self);
        }
    }

    /// Inject a conversion-service defect into the next measuring pass.
    pub fn inject_convert_failure(&mut self)
        requires
            old(self).inv(),
        ensures
            final(self).inv(),
            final(self).fail_next_convert,
            final(self).fail_next_alloc == old(self).fail_next_alloc,
            final(self).fail_next_publish == old(self).fail_next_publish,
            final(self).same_registry(old(self)),
            final(self).same_memory(old(self)),
            final(self).same_session(old(self)),
    {
        self.fail_next_convert = true;
        proof {
            lemma_reg_inv_transfer(*old(self), *self);
            lemma_board_inv_preserved(*old(self), *self);
        }
    }

    /// Make the next allocation fail.
    pub fn inject_alloc_failure(&mut self)
        requires
            old(self).inv(),
        ensures
            final(self).inv(),
            final(self).fail_next_alloc,
            final(self).fail_next_convert == old(self).fail_next_convert,
            final(self).fail_next_publish == old(self).fail_next_publish,
            final(self).same_registry(old(self)),
            final(self).same_memory(old(self)),
            final(self).same_session(old(self)),
    {
        self.fail_next_alloc = true;
        proof {
            lemma_reg_inv_transfer(*old(self), *self);
            lemma_board_inv_preserved(*old(self), *self);
        }
    }

    /// Make the next hand-off to the clipboard fail.
    pub fn inject_publish_failure(&mut self)
        requires
            old(self).inv(),
        ensures
            final(self).inv(),
            final(self).fail_next_publish,
            final(self).fail_next_convert == old(self).fail_next_convert,
            final(self).fail_next_alloc == old(self).fail_next_alloc,
            final(self).same_registry(old(self)),
            final(self).same_memory(old(self)),
            final(self).same_session(old(self)),
    {
        self.fail_next_publish = true;
        proof {
            lemma_reg_inv_transfer(*old(self), *self);
            lemma_board_inv_preserved(*old(self), *self);
        }
    }

    /// How many blocks were ever allocated.
    pub fn block_count(&self) -> (n: usize)
        ensures
            n == self.blocks_m().len(),
    {
        self.blocks.len()
    }

    /// The ownership state of a block.
    pub fn block_state(&self, h: usize) -> (s: BlockState)
        requires
            h < self.blocks_m().len(),
        ensures
            s == self.blocks_m()[h as int].state,
    {
        self.blocks[h].state
    }

    /// How many busy responses are still pending.
    pub fn busy_left(&self) -> (n: u64)
        ensures
            n == self.busy_pending,
    {
        self.busy_pending
    }

    /// One attempt to open the clipboard for exclusive use.
    pub fn try_open(&mut self) -> (ok: bool)
        requires
            old(self).inv(),
        ensures
            final(self).inv(),
            final(self).same_registry(old(self)),
            final(self).same_memory(old(self)),
            final(self).same_flags(old(self)),
            old(self).busy_pending > 0 ==> !ok && final(self).busy_pending == old(self).busy_pending - 1 && final(self).opened == old(self).opened,
            old(self).busy_pending == 0 && old(self).opened ==> !ok && final(self).same_session(
                old(self),
            ),
            old(self).busy_pending == 0 && !old(self).opened ==> ok && final(self).opened && final(self).busy_pending == 0,
    {
        let ok: bool;
        if self.busy_pending > 0 {
            self.busy_pending = self.busy_pending - 1;
            ok = false;
        } else if self.opened {
            ok = false;
        } else {
            self.opened = true;
            ok = true;
        }
        proof {
            lemma_reg_inv_transfer(*old(self), *self);
            lemma_board_inv_preserved(*old(self), *self);
        }
        ok
    }

    /// Close the clipboard, ending this process's exclusive use.
    pub fn close(&mut self)
        requires
            old(self).inv(),
            old(self).opened,
        ensures
            final(self).inv(),
            !final(self).opened,
            final(self).busy_pending == old(self).busy_pending,
            final(self).same_registry(old(self)),
            final(self).same_memory(old(self)),
            final(self).same_flags(old(self)),
    {
        self.opened = false;
        proof {
            lemma_reg_inv_transfer(*old(self), *self);
            lemma_board_inv_preserved(*old(self), *self);
        }
    }

    /// Resolve a format name to its identifier, registering it when new.
    /// Resolution is idempotent: a registered name keeps its identifier,
    /// and resolving it again changes nothing. An empty name, or an
    /// exhausted identifier space, is refused.
    pub fn register_format(&mut self, name: Vec<char>) -> (r: Option<u32>)
        requires
            old(self).inv(),
        ensures
            final(self).inv(),
            final(self).same_memory(old(self)),
            final(self).same_session(old(self)),
            final(self).same_flags(old(self)),
            match find_reg(old(self).reg_m(), name@) {
                Some(id) => r == Some(id) && final(self).same_registry(old(self)),
                None => {
                    if name@.len() == 0 || old(self).next_id == FORMAT_ID_END {
                        r.is_none() && final(self).same_registry(old(self))
                    } else {
                        r == Some(old(self).next_id) && final(self).reg_m() == old(self).reg_m().push((RegModel { name: name@, id: old(self).next_id })) && final(self).next_id == old(self).next_id + 1
                    }
                },
            },
            r.is_some() ==> find_reg(final(self).reg_m(), name@) == r,
    {
        if name.len() == 0 {
            proof {
                lemma_find_reg_props(self.reg_m(), name@);
                lemma_reg_inv_transfer(*old(self), *self);
                lemma_board_inv_preserved(*old(self), *self);
            }
            return None;
        }
        let mut j: usize = 0;
        proof {
            assert(self.reg_m().skip(0) =~= self.reg_m());
        }
        while j < self.registry.len()
            invariant
                j <= self.registry@.len(),
                find_reg(self.reg_m(), name@) == find_reg(self.reg_m().skip(j as int), name@),
                old(self).inv(),
                self.registry@ == old(self).registry@,
                self.next_id == old(self).next_id,
                self.blocks@ == old(self).blocks@,
                self.board@ == old(self).board@,
                self.opened == old(self).opened,
                self.busy_pending == old(self).busy_pending,
                self.same_flags(old(self)),
            decreases self.registry@.len() - j,
        {
            proof {
                assert(self.reg_m().skip(j as int)[0] == self.reg_m()[j as int]);
                assert(self.reg_m().skip(j as int).skip(1) =~= self.reg_m().skip(j as int + 1));
            }
            if eq_chars(&self.registry[j].name, &name) {
                proof {
                    lemma_reg_inv_transfer(*old(self), *self);
                    lemma_board_inv_preserved(*old(self), *self);
                }
                return Some(self.registry[j].id);
            }
            j += 1;
        }
        proof {
            assert(self.reg_m().skip(self.registry@.len() as int) =~= Seq::<RegModel>::empty());
        }
        if self.next_id == FORMAT_ID_END {
            proof {
                lemma_reg_inv_transfer(*old(self), *self);
                lemma_board_inv_preserved(*old(self), *self);
            }
            return None;
        }
        let id = self.next_id;
        self.next_id = self.next_id + 1;
        let ghost old_m = self.reg_m();
        proof {
            lemma_find_reg_props(old_m, name@);
        }
        self.registry.push(RegEntry { name, id });
        proof {
            assert(self.reg_m() =~~= old_m.push((RegModel { name: name@, id: id })));
            lemma_find_reg_push(old_m, (RegModel { name: name@, id: id }), name@);
            assert forall|i: int| 0 <= i < self.reg_m().len() implies reg_row_ok(
                #[trigger] self.reg_m()[i],
                self.next_id,
            ) by {
                if i < old_m.len() {
                    assert(self.reg_m()[i] == old_m[i]);
                    assert(reg_row_ok(old_m[i], id));
                }
            }
            assert forall|i: int, j2: int| 0 <= i < j2 < self.reg_m().len() implies (
            #[trigger] self.reg_m()[i]).name != (#[trigger] self.reg_m()[j2]).name by {
                if j2 < old_m.len() {
                    assert(old_m[i].name != old_m[j2].name);
                } else {
                    assert(self.reg_m()[i] == old_m[i]);
                    assert(old_m[i].name != name@);
                }
            }
            lemma_board_inv_preserved(*old(self), *self);
        }
        Some(id)
    }

    /// Measuring pass of the write direction: how many code units the text
    /// requires; zero when the conversion service fails.
    pub fn measure_to_wide(&mut self, text: &Vec<char>) -> (n: usize)
        requires
            old(self).inv(),
        ensures
            final(self).inv(),
            final(self).same_registry(old(self)),
            final(self).same_memory(old(self)),
            final(self).same_session(old(self)),
            final(self).fail_next_alloc == old(self).fail_next_alloc,
            final(self).fail_next_publish == old(self).fail_next_publish,
            !final(self).fail_next_convert,
            old(self).fail_next_convert ==> n == 0,
            !old(self).fail_next_convert ==> n == wide_of(text@).len(),
    {
        if self.fail_next_convert {
            self.fail_next_convert = false;
            proof {
                lemma_reg_inv_transfer(*old(self), *self);
                lemma_board_inv_preserved(*old(self), *self);
            }
            return 0;
        }
        let units = encode_wide(text);
        units.len()
    }

    /// Measuring pass of the read direction: how many characters the unit
    /// sequence decodes to; zero when it is ill-formed or the conversion
    /// service fails.
    pub fn measure_to_text(&mut self, units: &Vec<u16>) -> (n: usize)
        requires
            old(self).inv(),
        ensures
            final(self).inv(),
            final(self).same_registry(old(self)),
            final(self).same_memory(old(self)),
            final(self).same_session(old(self)),
            final(self).fail_next_alloc == old(self).fail_next_alloc,
            final(self).fail_next_publish == old(self).fail_next_publish,
            !final(self).fail_next_convert,
            old(self).fail_next_convert ==> n == 0,
            !old(self).fail_next_convert ==> match decode_wide(units@) {
                Some(cs) => n == cs.len(),
                None => n == 0,
            },
    {
        if self.fail_next_convert {
            self.fail_next_convert = false;
            proof {
                lemma_reg_inv_transfer(*old(self), *self);
                lemma_board_inv_preserved(*old(self), *self);
            }
            return 0;
        }
        match decode_wide_units(units) {
            Some(cs) => cs.len(),
            None => 0,
        }
    }

    /// A zero-initialised, movable block of `n` units; nothing when the
    /// allocation fails.
    pub fn alloc_block(&mut self, n: usize) -> (r: Option<usize>)
        requires
            old(self).inv(),
        ensures
            final(self).inv(),
            final(self).same_registry(old(self)),
            final(self).same_session(old(self)),
            final(self).board@ == old(self).board@,
            final(self).fail_next_convert == old(self).fail_next_convert,
            final(self).fail_next_publish == old(self).fail_next_publish,
            !final(self).fail_next_alloc,
            old(self).fail_next_alloc ==> r.is_none() && final(self).blocks_m() == old(self).blocks_m(),
            !old(self).fail_next_alloc ==> r.is_some() && r.unwrap() == old(self).blocks_m().len() && final(self).blocks_m() == old(self).blocks_m().push(
                (BlockModel {
                    data: Seq::new(n as nat, |i: int| 0u16),
                    state: BlockState::Allocated,
                    locked: false,
                }),
            ),
    {
        if self.fail_next_alloc {
            self.fail_next_alloc = false;
            proof {
                lemma_reg_inv_transfer(*old(self), *self);
                lemma_board_inv_preserved(*old(self), *self);
            }
            return None;
        }
        let mut data: Vec<u16> = Vec::new();
        let mut j: usize = 0;
        while j < n
            invariant
                j <= n,
                data@.len() == j,
                forall|k: int| 0 <= k < j ==> data@[k] == 0u16,
            decreases n - j,
        {
            data.push(0u16);
            j += 1;
        }
        let h = self.blocks.len();
        let ghost old_m = self.blocks_m();
        self.blocks.push(Block { data, state: BlockState::Allocated, locked: false });
        proof {
            assert(self.blocks_m() =~~= old_m.push(
                (BlockModel {
                    data: Seq::new(n as nat, |i: int| 0u16),
                    state: BlockState::Allocated,
                    locked: false,
                }),
            ));
            lemma_reg_inv_transfer(*old(self), *self);
            lemma_board_inv_preserved(*old(self), *self);
        }
        Some(h)
    }

    /// Take the exclusive lock of a block, making its contents accessible.
    pub fn lock(&mut self, h: usize)
        requires
            old(self).inv(),
            h < old(self).blocks_m().len(),
            old(self).blocks_m()[h as int].state != BlockState::Freed,
            !old(self).blocks_m()[h as int].locked,
        ensures
            final(self).inv(),
            final(self).same_registry(old(self)),
            final(self).same_session(old(self)),
            final(self).same_flags(old(self)),
            final(self).board@ == old(self).board@,
            final(self).blocks_m() == old(self).blocks_m().update(
                h as int,
                (BlockModel {
                    data: old(self).blocks_m()[h as int].data,
                    state: old(self).blocks_m()[h as int].state,
                    locked: true,
                }),
            ),
    {
        self.blocks[h].locked = true;
        proof {
            assert(self.blocks_m() =~~= old(self).blocks_m().update(
                h as int,
                (BlockModel {
                    data: old(self).blocks_m()[h as int].data,
                    state: old(self).blocks_m()[h as int].state,
                    locked: true,
                }),
            ));
            lemma_reg_inv_transfer(*old(self), *self);
            lemma_board_inv_preserved(*old(self), *self);
        }
    }

    /// Return the exclusive lock of a block.
    pub fn unlock(&mut self, h: usize)
        requires
            old(self).inv(),
            h < old(self).blocks_m().len(),
            old(self).blocks_m()[h as int].locked,
        ensures
            final(self).inv(),
            final(self).same_registry(old(self)),
            final(self).same_session(old(self)),
            final(self).same_flags(old(self)),
            final(self).board@ == old(self).board@,
            final(self).blocks_m() == old(self).blocks_m().update(
                h as int,
                (BlockModel {
                    data: old(self).blocks_m()[h as int].data,
                    state: old(self).blocks_m()[h as int].state,
                    locked: false,
                }),
            ),
    {
        self.blocks[h].locked = false;
        proof {
            assert(self.blocks_m() =~~= old(self).blocks_m().update(
                h as int,
                (BlockModel {
                    data: old(self).blocks_m()[h as int].data,
                    state: old(self).blocks_m()[h as int].state,
                    locked: false,
                }),
            ));
            lemma_reg_inv_transfer(*old(self), *self);
            lemma_board_inv_preserved(*old(self), *self);
        }
    }

    /// The allocated size of a block, in units.
    pub fn block_len(&self, h: usize) -> (n: usize)
        requires
            h < self.blocks_m().len(),
        ensures
            n == self.blocks_m()[h as int].data.len(),
    {
        self.blocks[h].data.len()
    }

    /// Read the whole contents of a block through its locked view.
    pub fn read_block(&self, h: usize) -> (r: Vec<u16>)
        requires
            h < self.blocks_m().len(),
            self.blocks_m()[h as int].locked,
            self.blocks_m()[h as int].state != BlockState::Freed,
        ensures
            r@ == self.blocks_m()[h as int].data,
    {
        let mut r: Vec<u16> = Vec::new();
        let len = self.blocks[h].data.len();
        let mut j: usize = 0;
        while j < len
            invariant
                j <= len,
                h < self.blocks_m().len(),
                len == self.blocks_m()[h as int].data.len(),
                r@ == self.blocks_m()[h as int].data.take(j as int),
            decreases len - j,
        {
            r.push(self.blocks[h].data[j]);
            proof {
                assert(self.blocks_m()[h as int].data.take(j as int).push(
                    self.blocks_m()[h as int].data[j as int],
                ) =~= self.blocks_m()[h as int].data.take(j as int + 1));
            }
            j += 1;
        }
        proof {
            assert(self.blocks_m()[h as int].data.take(len as int) =~= self.blocks_m()[h
                as int].data);
        }
        r
    }

    /// Store the converted payload into a locked, caller-owned block,
    /// through its locked view.
    pub fn write_block(&mut self, h: usize, content: &Vec<u16>)
        requires
            old(self).inv(),
            h < old(self).blocks_m().len(),
            old(self).blocks_m()[h as int].locked,
            old(self).blocks_m()[h as int].state == BlockState::Allocated,
            content@.len() <= old(self).blocks_m()[h as int].data.len(),
        ensures
            final(self).inv(),
            final(self).same_registry(old(self)),
            final(self).same_session(old(self)),
            final(self).same_flags(old(self)),
            final(self).board@ == old(self).board@,
            final(self).blocks_m() == old(self).blocks_m().update(
                h as int,
                (BlockModel {
                    data: content@ + old(self).blocks_m()[h as int].data.skip(
                        content@.len() as int,
                    ),
                    state: BlockState::Allocated,
                    locked: true,
                }),
            ),
    {
        let len = content.len();
        let mut j: usize = 0;
        while j < len
            invariant
                j <= len,
                h < self.blocks_m().len(),
                self.blocks_m().len() == old(self).blocks_m().len(),
                len == content@.len(),
                len <= self.blocks_m()[h as int].data.len(),
                self.blocks_m()[h as int].data.len() == old(self).blocks_m()[h as int].data.len(),
                forall|k: int|
                    len <= k < self.blocks_m()[h as int].data.len() ==> self.blocks_m()[h
                        as int].data[k] == old(self).blocks_m()[h as int].data[k],
                self.blocks_m()[h as int].state == BlockState::Allocated,
                self.blocks_m()[h as int].locked,
                forall|b: int|
                    0 <= b < self.blocks_m().len() && b != h ==> #[trigger] self.blocks_m()[b]
                        == old(self).blocks_m()[b],
                forall|k: int| 0 <= k < j ==> self.blocks_m()[h as int].data[k] == content@[k],
                self.registry@ == old(self).registry@,
                self.next_id == old(self).next_id,
                self.board@ == old(self).board@,
                self.opened == old(self).opened,
                self.busy_pending == old(self).busy_pending,
                self.same_flags(old(self)),
            decreases len - j,
        {
            let ghost pre = *self;
            self.blocks[h].data[j] = content[j];
            proof {
                assert forall|b: int|
                    0 <= b < self.blocks_m().len() && b != h implies #[trigger] self.blocks_m()[b]
                    == old(self).blocks_m()[b] by {
                    assert(self.blocks@[b] == pre.blocks@[b]);
                    assert(pre.blocks_m()[b] == old(self).blocks_m()[b]);
                }
                assert forall|k: int| 0 <= k < j + 1 implies self.blocks_m()[h as int].data[k]
                    == content@[k] by {
                    if k < j {
                        assert(pre.blocks_m()[h as int].data[k] == content@[k]);
                    }
                }
                assert forall|k: int|
                    len <= k < self.blocks_m()[h as int].data.len() implies self.blocks_m()[h
                        as int].data[k] == old(self).blocks_m()[h as int].data[k] by {
                    assert(pre.blocks_m()[h as int].data[k] == old(self).blocks_m()[h
                        as int].data[k]);
                }
            }
            j += 1;
        }
        proof {
            assert(self.blocks_m()[h as int].data =~= content@ + old(self).blocks_m()[h
                as int].data.skip(content@.len() as int));
            assert(self.blocks_m() =~~= old(self).blocks_m().update(
                h as int,
                (BlockModel {
                    data: content@ + old(self).blocks_m()[h as int].data.skip(
                        content@.len() as int,
                    ),
                    state: BlockState::Allocated,
                    locked: true,
                }),
            ));
            lemma_reg_inv_transfer(*old(self), *self);
            lemma_board_inv_preserved(*old(self), *self);
        }
    }

    /// Store one unit at a position of a locked, caller-owned block (the
    /// explicit terminator write of the protocol).
    pub fn store_unit(&mut self, h: usize, at: usize, unit: u16)
        requires
            old(self).inv(),
            h < old(self).blocks_m().len(),
            old(self).blocks_m()[h as int].locked,
            old(self).blocks_m()[h as int].state == BlockState::Allocated,
            at < old(self).blocks_m()[h as int].data.len(),
        ensures
            final(self).inv(),
            final(self).same_registry(old(self)),
            final(self).same_session(old(self)),
            final(self).same_flags(old(self)),
            final(self).board@ == old(self).board@,
            final(self).blocks_m() == old(self).blocks_m().update(
                h as int,
                (BlockModel {
                    data: old(self).blocks_m()[h as int].data.update(at as int, unit),
                    state: BlockState::Allocated,
                    locked: true,
                }),
            ),
    {
        self.blocks[h].data[at] = unit;
        proof {
            assert(self.blocks_m() =~~= old(self).blocks_m().update(
                h as int,
                (BlockModel {
                    data: old(self).blocks_m()[h as int].data.update(at as int, unit),
                    state: BlockState::Allocated,
                    locked: true,
                }),
            ));
            lemma_reg_inv_transfer(*old(self), *self);
            lemma_board_inv_preserved(*old(self), *self);
        }
    }

    /// The handle currently published under a format, if any.
    pub fn get_clipboard_data(&self, format: u32) -> (r: Option<usize>)
        requires
            self.inv(),
            self.opened,
        ensures
            r == find_board(self.board@, format),
    {
        let mut j: usize = 0;
        proof {
            assert(self.board@.skip(0) =~= self.board@);
        }
        while j < self.board.len()
            invariant
                j <= self.board@.len(),
                find_board(self.board@, format) == find_board(self.board@.skip(j as int), format),
            decreases self.board@.len() - j,
        {
            proof {
                assert(self.board@.skip(j as int)[0] == self.board@[j as int]);
                assert(self.board@.skip(j as int).skip(1) =~= self.board@.skip(j as int + 1));
            }
            let e = self.board[j];
            if e.format == format {
                return Some(e.handle);
            }
            j += 1;
        }
        proof {
            assert(self.board@.skip(self.board@.len() as int) =~= Seq::<BoardEntry>::empty());
        }
        None
    }

    /// Clear the clipboard: every slot is dropped and its published block
    /// reclaimed by the host.
    pub fn empty_clipboard(&mut self)
        requires
            old(self).inv(),
            old(self).opened,
        ensures
            final(self).inv(),
            final(self).same_registry(old(self)),
            final(self).same_session(old(self)),
            final(self).same_flags(old(self)),
            final(self).board@ == Seq::<BoardEntry>::empty(),
            final(self).blocks_m().len() == old(self).blocks_m().len(),
            forall|i: int|
                0 <= i < old(self).blocks_m().len() ==> #[trigger] final(self).blocks_m()[i]
                    == (BlockModel {
                    data: old(self).blocks_m()[i].data,
                    state: if board_refs(old(self).board@, i) {
                        BlockState::Freed
                    } else {
                        old(self).blocks_m()[i].state
                    },
                    locked: old(self).blocks_m()[i].locked,
                }),
    {
        let n = self.board.len();
        let mut j: usize = 0;
        while j < n
            invariant
                j <= n,
                old(self).inv(),
                n == self.board@.len(),
                self.board@ == old(self).board@,
                self.blocks_m().len() == old(self).blocks_m().len(),
                forall|i: int|
                    0 <= i < old(self).blocks_m().len() ==> #[trigger] self.blocks_m()[i]
                        == (BlockModel {
                        data: old(self).blocks_m()[i].data,
                        state: if board_refs_prefix(old(self).board@, j as int, i) {
                            BlockState::Freed
                        } else {
                            old(self).blocks_m()[i].state
                        },
                        locked: old(self).blocks_m()[i].locked,
                    }),
                self.registry@ == old(self).registry@,
                self.next_id == old(self).next_id,
                self.opened == old(self).opened,
                self.busy_pending == old(self).busy_pending,
                self.same_flags(old(self)),
            decreases n - j,
        {
            let h = self.board[j].handle;
            proof {
                assert(slot_ok(old(self).blocks_m(), old(self).board@[j as int]));
            }
            let ghost pre = *self;
            self.blocks[h].state = BlockState::Freed;
            proof {
                assert forall|i: int|
                    0 <= i < old(self).blocks_m().len() implies #[trigger] self.blocks_m()[i]
                    == (BlockModel {
                    data: old(self).blocks_m()[i].data,
                    state: if board_refs_prefix(old(self).board@, j as int + 1, i) {
                        BlockState::Freed
                    } else {
                        old(self).blocks_m()[i].state
                    },
                    locked: old(self).blocks_m()[i].locked,
                }) by {
                    if i == h {
                        assert(board_refs_prefix(old(self).board@, j as int + 1, i));
                        assert(pre.blocks_m()[i].data == old(self).blocks_m()[i].data);
                        assert(pre.blocks_m()[i].locked == old(self).blocks_m()[i].locked);
                        assert(self.blocks_m()[i].data == pre.blocks_m()[i].data);
                        assert(self.blocks_m()[i].locked == pre.blocks_m()[i].locked);
                        assert(self.blocks_m()[i].state == BlockState::Freed);
                    } else {
                        assert(self.blocks@[i] == pre.blocks@[i]);
                        assert(self.blocks_m()[i] == pre.blocks_m()[i]);
                        if board_refs_prefix(old(self).board@, j as int + 1, i) {
                            let jj = choose|jj: int|
                                0 <= jj < j + 1 && (#[trigger] old(self).board@[jj]).handle == i;
                            assert(jj < j);
                            assert(board_refs_prefix(old(self).board@, j as int, i));
                        }
                        if board_refs_prefix(old(self).board@, j as int, i) {
                            assert(board_refs_prefix(old(self).board@, j as int + 1, i));
                        }
                    }
                }
            }
            j += 1;
        }
        self.board.clear();
        proof {
            assert(self.board@ =~= Seq::<BoardEntry>::empty());
            lemma_reg_inv_transfer(*old(self), *self);
        }
    }

    /// Hand a written block to the clipboard under a format. On success the
    /// clipboard owns the block from then on; on failure the caller still
    /// owns it and must free it.
    pub fn set_clipboard_data(&mut self, format: u32, h: usize) -> (ok: bool)
        requires
            old(self).inv(),
            old(self).opened,
            h < old(self).blocks_m().len(),
            old(self).blocks_m()[h as int].state == BlockState::Allocated,
            !old(self).blocks_m()[h as int].locked,
            find_board(old(self).board@, format).is_none(),
        ensures
            final(self).inv(),
            final(self).same_registry(old(self)),
            final(self).same_session(old(self)),
            final(self).fail_next_convert == old(self).fail_next_convert,
            final(self).fail_next_alloc == old(self).fail_next_alloc,
            !final(self).fail_next_publish,
            old(self).fail_next_publish ==> !ok && final(self).same_memory(old(self)),
            !old(self).fail_next_publish ==> ok && final(self).blocks_m() == old(self).blocks_m().update(
                h as int,
                (BlockModel {
                    data: old(self).blocks_m()[h as int].data,
                    state: BlockState::Published,
                    locked: false,
                }),
            ) && final(self).board@ == old(self).board@.push((BoardEntry { format, handle: h })),
    {
        if self.fail_next_publish {
            self.fail_next_publish = false;
            proof {
                lemma_reg_inv_transfer(*old(self), *self);
                lemma_board_inv_preserved(*old(self), *self);
            }
            return false;
        }
        self.blocks[h].state = BlockState::Published;
        self.board.push(BoardEntry { format, handle: h });
        proof {
            assert(self.blocks_m() =~~= old(self).blocks_m().update(
                h as int,
                (BlockModel {
                    data: old(self).blocks_m()[h as int].data,
                    state: BlockState::Published,
                    locked: false,
                }),
            ));
            lemma_reg_inv_transfer(*old(self), *self);
            lemma_find_board_props(old(self).board@, format);
            assert forall|i: int, j: int| 0 <= i < j < self.board@.len() implies (
            #[trigger] self.board@[i]).format != (#[trigger] self.board@[j]).format by {
                if j == self.board@.len() - 1 {
                    assert(self.board@[i] == old(self).board@[i]);
                } else {
                    assert(self.board@[i] == old(self).board@[i]);
                    assert(self.board@[j] == old(self).board@[j]);
                    assert(old(self).board@[i].format != old(self).board@[j].format);
                }
            }
            assert forall|i: int| 0 <= i < self.board@.len() implies slot_ok(
                self.blocks_m(),
                #[trigger] self.board@[i],
            ) by {
                if i < self.board@.len() - 1 {
                    assert(self.board@[i] == old(self).board@[i]);
                    assert(slot_ok(old(self).blocks_m(), old(self).board@[i]));
                }
            }
        }
        true
    }

    /// Release a caller-owned block that was never published. Freeing
    /// demands sole ownership — a block the clipboard owns, or one already
    /// freed, is not accepted — which is the discipline that rules out a
    /// double free.
    pub fn free(&mut self, h: usize)
        requires
            old(self).inv(),
            h < old(self).blocks_m().len(),
            old(self).blocks_m()[h as int].state == BlockState::Allocated,
            !old(self).blocks_m()[h as int].locked,
        ensures
            final(self).inv(),
            final(self).same_registry(old(self)),
            final(self).same_session(old(self)),
            final(self).same_flags(old(self)),
            final(self).board@ == old(self).board@,
            final(self).blocks_m() == old(self).blocks_m().update(
                h as int,
                (BlockModel {
                    data: old(self).blocks_m()[h as int].data,
                    state: BlockState::Freed,
                    locked: false,
                }),
            ),
    {
        self.blocks[h].state = BlockState::Freed;
        proof {
            assert(self.blocks_m() =~~= old(self).blocks_m().update(
                h as int,
                (BlockModel {
                    data: old(self).blocks_m()[h as int].data,
                    state: BlockState::Freed,
                    locked: false,
                }),
            ));
            lemma_reg_inv_transfer(*old(self), *self);
            lemma_board_inv_preserved(*old(self), *self);
        }
    }
}

/// Character-sequence equality.
fn eq_chars(a: &Vec<char>, b: &Vec<char>) -> (r: bool)
    ensures
        r == (a@ == b@),
{
    if a.len() != b.len() {
        return false;
    }
    let mut i: usize = 0;
    while i < a.len()
        invariant
            i <= a@.len(),
            a@.len() == b@.len(),
            forall|k: int| 0 <= k < i ==> a@[k] == b@[k],
        decreases a@.len() - i,
    {
        if a[i] != b[i] {
            return false;
        }
        i += 1;
    }
    proof {
        assert(a@ =~= b@);
    }
    true
}

} // verus!
