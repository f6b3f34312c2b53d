//! A general-purpose register file: a fixed-size, indexed array of
//! word-sized storage cells plus a program counter. It is an explicitly
//! passed, explicitly owned value, so several independent instances (for
//! example, several simulated cores) can coexist.

use vstd::prelude::*;

verus! {

/// Indexed word-sized storage of a fixed size, with a program counter.
/// The size is fixed at construction and never changes.
pub struct RegisterFile {
    pc: u32,
    regs: Vec<u32>,
}

impl RegisterFile {
    /// The registers' contents, in index order.
    pub closed spec fn spec_regs(&self) -> Seq<u32> {
        self.regs@
    }

    /// The program counter.
    pub closed spec fn spec_pc(&self) -> u32 {
        self.pc
    }

    /// A register file of `count` registers, all zero, with a zero program
    /// counter.
    pub fn new(count: usize) -> (rf: RegisterFile)
        ensures
            rf.spec_regs().len() == count,
            forall|i: int| 0 <= i < count ==> rf.spec_regs()[i] == 0,
            rf.spec_pc() == 0,
    {
        let mut regs: Vec<u32> = Vec::new();
        let mut j: usize = 0;
        while j < count
            invariant
                j <= count,
                regs@.len() == j,
                forall|i: int| 0 <= i < j ==> regs@[i] == 0,
            decreases count - j,
        {
            regs.push(0);
            j += 1;
        }
        RegisterFile { pc: 0, regs }
    }

    /// The number of registers.
    pub fn len(&self) -> (n: usize)
        ensures
            n == self.spec_regs().len(),
    {
        self.regs.len()
    }

    /// Read register `i`.
    pub fn read(&self, i: usize) -> (v: u32)
        requires
            i < self.spec_regs().len(),
        ensures
            v == self.spec_regs()[i as int],
    {
        self.regs[i]
    }

    /// Write `v` to register `i`, leaving every other register and the
    /// program counter unchanged.
    pub fn write(&mut self, i: usize, v: u32)
        requires
            i < old(self).spec_regs().len(),
        ensures
            final(self).spec_regs() == old(self).spec_regs().update(i as int, v),
            final(self).spec_pc() == old(self).spec_pc(),
    {
        self.regs[i] = v;
    }

    /// Read the program counter.
    pub fn pc(&self) -> (v: u32)
        ensures
            v == self.spec_pc(),
    {
        self.pc
    }

    /// Set the program counter, leaving the registers unchanged.
    pub fn set_pc(&mut self, v: u32)
        ensures
            final(self).spec_pc() == v,
            final(self).spec_regs() == old(self).spec_regs(),
    {
        self.pc = v;
    }
}

/// The register file of the base 32-bit integer instruction set: thirty-two
/// general-purpose registers and the program counter. By convention x0 is
/// hardwired to zero, x1 holds the return address and x2 the stack pointer;
/// the storage itself attaches no behaviour to any index.
pub fn base_register_file() -> (rf: RegisterFile)
    ensures
        rf.spec_regs().len() == 32,
        forall|i: int| 0 <= i < 32 ==> rf.spec_regs()[i] == 0,
        rf.spec_pc() == 0,
{
    RegisterFile::new(32)
}

} // verus!
