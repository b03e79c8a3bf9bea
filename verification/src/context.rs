//! The trap context: the fixed-layout record at the top of each user
//! address space that the trampoline assembly reads and writes by byte
//! offset.
//!
//! Word `k` of the record sits at byte offset `8 * k`, little endian:
//! the 32 general-purpose registers first, then `sstatus`, `sepc`, the
//! kernel page-table token, the kernel stack top, and the trap handler
//! address.  Serialising and deserialising the record is the identity.

use vstd::prelude::*;
use crate::elf::{le_u64, read_u64};

verus! {

/// Number of 64-bit words in the record.
pub const TRAP_CONTEXT_WORDS: u64 = 37;
/// Number of bytes in the record.
pub const TRAP_CONTEXT_BYTES: u64 = TRAP_CONTEXT_WORDS * 8;
/// The SPIE bit of `sstatus`: interrupts enabled after `sret`.
pub const SSTATUS_SPIE: u64 = 32;

/// The registers and kernel entry data saved across a user trap.
pub struct TrapContext {
    /// The 32 general-purpose registers; `x[2]` is the stack pointer.
    pub x: Vec<u64>,
    /// The saved `sstatus` CSR.
    pub sstatus: u64,
    /// The saved user program counter.
    pub sepc: u64,
    /// The kernel's `satp` token, switched to on trap entry.
    pub kernel_satp: u64,
    /// Top of this process's kernel stack.
    pub kernel_sp: u64,
    /// Address of the kernel's trap handler.
    pub trap_handler: u64,
}

impl TrapContext {
    pub open spec fn wf(self) -> bool {
        self.x.len() == 32
    }

    /// Word `k` of the fixed layout.
    pub open spec fn word(self, k: int) -> u64 {
        if 0 <= k < 32 {
            self.x[k]
        } else if k == 32 {
            self.sstatus
        } else if k == 33 {
            self.sepc
        } else if k == 34 {
            self.kernel_satp
        } else if k == 35 {
            self.kernel_sp
        } else {
            self.trap_handler
        }
    }

    /// The context a fresh user process starts from: empty registers but
    /// the stack pointer, `sepc` at the entry address, SPIE set so that
    /// `sret` enables interrupts in user mode.
    pub fn app_init_context(
        entry: u64,
        sp: u64,
        kernel_satp: u64,
        kernel_sp: u64,
        trap_handler: u64,
    ) -> (r: TrapContext)
        ensures
            r.wf(),
            r.x[2] == sp,
            forall|k: int| 0 <= k < 32 && k != 2 ==> r.x[k] == 0,
            r.sstatus == SSTATUS_SPIE,
            r.sepc == entry,
            r.kernel_satp == kernel_satp,
            r.kernel_sp == kernel_sp,
            r.trap_handler == trap_handler,
    {
        let mut x: Vec<u64> = Vec::new();
        let mut i: usize = 0;
        while i < 32
            invariant
                i == x.len(),
                i <= 32,
                forall|k: int| 0 <= k < i ==> x[k] == 0,
            decreases 32 - i,
        {
            x.push(0);
            i = i + 1;
        }
        x.set(2, sp);
        TrapContext { x, sstatus: SSTATUS_SPIE, sepc: entry, kernel_satp, kernel_sp, trap_handler }
    }

    /// Read word `k` of the fixed layout.
    pub fn get_word(&self, k: usize) -> (r: u64)
        requires
            self.wf(),
            k < TRAP_CONTEXT_WORDS,
        ensures
            r == self.word(k as int),
    {
        if k < 32 {
            self.x[k]
        } else if k == 32 {
            self.sstatus
        } else if k == 33 {
            self.sepc
        } else if k == 34 {
            self.kernel_satp
        } else if k == 35 {
            self.kernel_sp
        } else {
            self.trap_handler
        }
    }

    /// Serialise the record as the trampoline lays it out: word `k` at
    /// byte offset `8 * k`, little endian.
    pub fn to_bytes(&self) -> (r: Vec<u8>)
        requires
            self.wf(),
        ensures
            r@.len() == TRAP_CONTEXT_BYTES,
            forall|k: int| 0 <= k < TRAP_CONTEXT_WORDS
                ==> #[trigger] le_u64(r@, 8 * k) == self.word(k),
    {
        let mut out: Vec<u8> = Vec::new();
        let mut k: usize = 0;
        while k < 37
            invariant
                self.wf(),
                out.len() == 8 * k,
                k <= 37,
                forall|j: int| 0 <= j < k ==> #[trigger] le_u64(out@, 8 * j) == self.word(j),
            decreases 37 - k,
        {
            let ghost out0 = out@;
            push_word(&mut out, self.get_word(k));
            proof {
                assert forall|j: int| 0 <= j < k + 1
                    implies #[trigger] le_u64(out@, 8 * j) == self.word(j) by {
                    if j < k {
                        assert(le_u64(out0, 8 * j) == self.word(j));
                        assert(le_u64(out@, 8 * j) == le_u64(out0, 8 * j));
                    }
                };
            }
            k = k + 1;
        }
        out
    }

    /// Rebuild a record from its serialised bytes.
    pub fn from_bytes(bytes: &[u8]) -> (r: TrapContext)
        requires
            bytes@.len() == TRAP_CONTEXT_BYTES,
        ensures
            r.wf(),
            forall|k: int| 0 <= k < TRAP_CONTEXT_WORDS
                ==> #[trigger] r.word(k) == le_u64(bytes@, 8 * k),
    {
        let mut x: Vec<u64> = Vec::new();
        let mut k: usize = 0;
        while k < 32
            invariant
                bytes@.len() == TRAP_CONTEXT_BYTES,
                x.len() == k,
                k <= 32,
                forall|j: int| 0 <= j < k ==> #[trigger] x[j] == le_u64(bytes@, 8 * j),
            decreases 32 - k,
        {
            x.push(read_u64(bytes, 8 * k));
            k = k + 1;
        }
        let sstatus = read_u64(bytes, 256);
        let sepc = read_u64(bytes, 264);
        let kernel_satp = read_u64(bytes, 272);
        let kernel_sp = read_u64(bytes, 280);
        let trap_handler = read_u64(bytes, 288);
        TrapContext { x, sstatus, sepc, kernel_satp, kernel_sp, trap_handler }
    }
}

/// Append one word, little endian, to the byte buffer.
fn push_word(out: &mut Vec<u8>, w: u64)
    ensures
        final(out)@.len() == old(out)@.len() + 8,
        final(out)@.subrange(0, old(out)@.len() as int) == old(out)@,
        le_u64(final(out)@, old(out)@.len() as int) == w,
{
    let ghost n = out@.len() as int;
    out.push((w % 0x100) as u8);
    out.push(((w / 0x100) % 0x100) as u8);
    out.push(((w / 0x10000) % 0x100) as u8);
    out.push(((w / 0x1000000) % 0x100) as u8);
    out.push(((w / 0x100000000) % 0x100) as u8);
    out.push(((w / 0x10000000000) % 0x100) as u8);
    out.push(((w / 0x1000000000000) % 0x100) as u8);
    out.push(((w / 0x100000000000000) % 0x100) as u8);
    proof {
        assert(final(out)@.subrange(0, n) =~= old(out)@);
        lemma_word_unfold(w);
        assert(le_u64(out@, n) == w);
    }
}

/// A 64-bit word is the little-endian sum of its eight bytes.
proof fn lemma_word_unfold(w: u64)
    ensures
        w == (w % 0x100)
            + ((w / 0x100) % 0x100) * 0x100
            + ((w / 0x10000) % 0x100) * 0x10000
            + ((w / 0x1000000) % 0x100) * 0x1000000
            + ((w / 0x100000000) % 0x100) * 0x100000000
            + ((w / 0x10000000000) % 0x100) * 0x10000000000
            + ((w / 0x1000000000000) % 0x100) * 0x1000000000000
            + ((w / 0x100000000000000) % 0x100) * 0x100000000000000,
{
    assert(w == (w % 0x100)
        + ((w / 0x100) % 0x100) * 0x100
        + ((w / 0x10000) % 0x100) * 0x10000
        + ((w / 0x1000000) % 0x100) * 0x1000000
        + ((w / 0x100000000) % 0x100) * 0x100000000
        + ((w / 0x10000000000) % 0x100) * 0x10000000000
        + ((w / 0x1000000000000) % 0x100) * 0x1000000000000
        + ((w / 0x100000000000000) % 0x100) * 0x100000000000000) by (bit_vector);
}

/// Serialising a trap context and reading the bytes back is the identity:
/// in particular the 32 general-purpose registers, `sstatus`, and `sepc`
/// come back unchanged when the handler writes nothing in between.
pub proof fn lemma_trap_context_round_trip(cx: TrapContext, bytes: Seq<u8>, cx2: TrapContext)
    requires
        cx.wf(),
        cx2.wf(),
        bytes.len() == TRAP_CONTEXT_BYTES,
        forall|k: int| 0 <= k < TRAP_CONTEXT_WORDS
            ==> #[trigger] le_u64(bytes, 8 * k) == cx.word(k),
        forall|k: int| 0 <= k < TRAP_CONTEXT_WORDS
            ==> #[trigger] cx2.word(k) == le_u64(bytes, 8 * k),
    ensures
        cx2.x@ =~= cx.x@,
        cx2.sstatus == cx.sstatus,
        cx2.sepc == cx.sepc,
        cx2.kernel_satp == cx.kernel_satp,
        cx2.kernel_sp == cx.kernel_sp,
        cx2.trap_handler == cx.trap_handler,
{
    assert forall|k: int| 0 <= k < 32 implies cx2.x@[k] == cx.x@[k] by {
        assert(cx2.word(k) == le_u64(bytes, 8 * k));
        assert(le_u64(bytes, 8 * k) == cx.word(k));
    };
    assert(cx2.word(32) == cx.word(32));
    assert(cx2.word(33) == cx.word(33));
    assert(cx2.word(34) == cx.word(34));
    assert(cx2.word(35) == cx.word(35));
    assert(cx2.word(36) == cx.word(36));
}

} // verus!
