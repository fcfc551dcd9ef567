//! Register state saved on a trap.

use vstd::prelude::*;

verus! {

/// Special registers state for interrupt frames.
#[derive(Clone, Copy, Debug, PartialEq, Eq, Structural)]
pub struct SpRegfile {
    /// Supervisor status register.
    pub sstatus: usize,
    /// Trap cause; negative for interrupts.
    pub scause: isize,
    /// Trap value, such as the faulting address.
    pub stval: usize,
    /// Frame pointer of the trapped code, for backtraces.
    pub fake_fp: usize,
}

/// The general-purpose registers for interrupt frames.
#[derive(Clone, Copy, Debug, PartialEq, Eq, Structural)]
pub struct GpRegfile {
    /// Register `pc`.
    pub pc: usize,
    /// Register `ra`.
    pub ra: usize,
    /// Register `sp`.
    pub sp: usize,
    /// Register `gp`.
    pub gp: usize,
    /// Register `tp`.
    pub tp: usize,
    /// Register `t0`.
    pub t0: usize,
    /// Register `t1`.
    pub t1: usize,
    /// Register `t2`.
    pub t2: usize,
    /// Register `s0`.
    pub s0: usize,
    /// Register `s1`.
    pub s1: usize,
    /// Register `a0`.
    pub a0: usize,
    /// Register `a1`.
    pub a1: usize,
    /// Register `a2`.
    pub a2: usize,
    /// Register `a3`.
    pub a3: usize,
    /// Register `a4`.
    pub a4: usize,
    /// Register `a5`.
    pub a5: usize,
    /// Register `a6`.
    pub a6: usize,
    /// Register `a7`.
    pub a7: usize,
    /// Register `s2`.
    pub s2: usize,
    /// Register `s3`.
    pub s3: usize,
    /// Register `s4`.
    pub s4: usize,
    /// Register `s5`.
    pub s5: usize,
    /// Register `s6`.
    pub s6: usize,
    /// Register `s7`.
    pub s7: usize,
    /// Register `s8`.
    pub s8: usize,
    /// Register `s9`.
    pub s9: usize,
    /// Register `s10`.
    pub s10: usize,
    /// Register `s11`.
    pub s11: usize,
    /// Register `t3`.
    pub t3: usize,
    /// Register `t4`.
    pub t4: usize,
    /// Register `t5`.
    pub t5: usize,
    /// Register `t6`.
    pub t6: usize,
}

/// Interrupt frame.
#[derive(Clone, Copy, Debug, PartialEq, Eq, Structural)]
pub struct IrqFrame {
    /// Special registers.
    pub sregs: SpRegfile,
    /// General-purpose registers.
    pub regs: GpRegfile,
}

/// The name of a synchronous trap cause, if it has one.
pub open spec fn fault_name_spec(scause: int) -> Option<Seq<char>> {
    if scause == 0 {
        Some("Instruction address misaligned"@)
    } else if scause == 1 {
        Some("Instruction access fault"@)
    } else if scause == 2 {
        Some("Illegal instruction"@)
    } else if scause == 3 {
        Some("Breakpoint"@)
    } else if scause == 4 {
        Some("Load address misaligned"@)
    } else if scause == 5 {
        Some("Load access fault"@)
    } else if scause == 6 {
        Some("Store address misaligned"@)
    } else if scause == 7 {
        Some("Store access fault"@)
    } else if scause == 8 {
        Some("E-call from U-mode"@)
    } else if scause == 9 {
        Some("E-call from S-mode"@)
    } else if scause == 12 {
        Some("Instruction page fault"@)
    } else if scause == 13 {
        Some("Load page fault"@)
    } else if scause == 15 {
        Some("Store page fault"@)
    } else if scause == 18 {
        Some("Software check"@)
    } else if scause == 19 {
        Some("Hardware error"@)
    } else {
        None
    }
}

/// The address a trap concerns, if it is a memory trap: `stval` for access
/// and page faults and misalignment, the `pc` for illegal instructions and
/// breakpoints.
pub open spec fn mem_trap_addr(f: IrqFrame) -> Option<usize> {
    let c = f.sregs.scause;
    if c == 0 || c == 1 || c == 4 || c == 5 || c == 6 || c == 7 || c == 12 || c == 13 || c == 15 {
        Some(f.sregs.stval)
    } else if c == 2 || c == 3 {
        Some(f.regs.pc)
    } else {
        None
    }
}

impl IrqFrame {
    /// Set the return value register.
    pub fn set_retval(&mut self, val: usize)
        ensures
            final(self).sregs == old(self).sregs,
            final(self).regs == (GpRegfile { a0: val, ..old(self).regs }),
    {
        self.regs.a0 = val;
    }

    /// Set the two-register return value.
    pub fn set_big_retval(&mut self, val: [usize; 2])
        ensures
            final(self).sregs == old(self).sregs,
            final(self).regs == (GpRegfile { a0: val@[0], a1: val@[1], ..old(self).regs }),
    {
        self.regs.a0 = val[0];
        self.regs.a1 = val[1];
    }

    /// Set the program counter.
    pub fn set_pc(&mut self, val: usize)
        ensures
            final(self).sregs == old(self).sregs,
            final(self).regs == (GpRegfile { pc: val, ..old(self).regs }),
    {
        self.regs.pc = val;
    }

    /// Set the stack pointer.
    pub fn set_stack(&mut self, val: usize)
        ensures
            final(self).sregs == old(self).sregs,
            final(self).regs == (GpRegfile { sp: val, ..old(self).regs }),
    {
        self.regs.sp = val;
    }

    /// The program counter.
    pub fn get_pc(&self) -> (r: usize)
        ensures
            r == self.regs.pc,
    {
        self.regs.pc
    }

    /// The stack pointer.
    pub fn get_stack(&self) -> (r: usize)
        ensures
            r == self.regs.sp,
    {
        self.regs.sp
    }

    /// The trap cause.
    pub fn fault_code(&self) -> (r: isize)
        ensures
            r == self.sregs.scause,
    {
        self.sregs.scause
    }

    /// The name of the trap cause, if it is a known exception.
    pub fn fault_name(&self) -> (r: Option<&'static str>)
        ensures
            match r {
                Some(s) => fault_name_spec(self.sregs.scause as int) == Some(s@),
                None => fault_name_spec(self.sregs.scause as int) is None,
            },
    {
        match self.sregs.scause {
            0 => Some("Instruction address misaligned"),
            1 => Some("Instruction access fault"),
            2 => Some("Illegal instruction"),
            3 => Some("Breakpoint"),
            4 => Some("Load address misaligned"),
            5 => Some("Load access fault"),
            6 => Some("Store address misaligned"),
            7 => Some("Store access fault"),
            8 => Some("E-call from U-mode"),
            9 => Some("E-call from S-mode"),
            12 => Some("Instruction page fault"),
            13 => Some("Load page fault"),
            15 => Some("Store page fault"),
            18 => Some("Software check"),
            19 => Some("Hardware error"),
            _ => None,
        }
    }

    /// The address that a memory trap concerns, if this is one.
    pub fn is_mem_trap(&self) -> (r: Option<usize>)
        ensures
            r == mem_trap_addr(*self),
    {
        match self.sregs.scause {
            0 | 1 | 4 | 5 | 6 | 7 | 12 | 13 | 15 => Some(self.sregs.stval),
            2 | 3 => Some(self.regs.pc),
            _ => None,
        }
    }

    /// Whether the trap came from supervisor mode (`sstatus.SPP` set).
    pub fn is_kernel_mode(&self) -> (r: bool)
        ensures
            r == (self.sregs.sstatus & 0x100 != 0),
    {
        self.sregs.sstatus & 0x100 != 0
    }

    /// The frame pointer of the trapped code.
    pub fn fault_fake_frame_ptr(&self) -> (r: usize)
        ensures
            r == self.sregs.fake_fp,
    {
        self.sregs.fake_fp
    }
}

/// The floating-point register state.
#[derive(Clone, Copy, Debug, PartialEq, Eq, Structural)]
pub struct FloatRegfile {
    /// Register `ft0`, as raw bits.
    pub ft0: u64,
    /// Register `ft1`, as raw bits.
    pub ft1: u64,
    /// Register `ft2`, as raw bits.
    pub ft2: u64,
    /// Register `ft3`, as raw bits.
    pub ft3: u64,
    /// Register `ft4`, as raw bits.
    pub ft4: u64,
    /// Register `ft5`, as raw bits.
    pub ft5: u64,
    /// Register `ft6`, as raw bits.
    pub ft6: u64,
    /// Register `ft7`, as raw bits.
    pub ft7: u64,
    /// Register `fs0`, as raw bits.
    pub fs0: u64,
    /// Register `fs1`, as raw bits.
    pub fs1: u64,
    /// Register `fa0`, as raw bits.
    pub fa0: u64,
    /// Register `fa1`, as raw bits.
    pub fa1: u64,
    /// Register `fa2`, as raw bits.
    pub fa2: u64,
    /// Register `fa3`, as raw bits.
    pub fa3: u64,
    /// Register `fa4`, as raw bits.
    pub fa4: u64,
    /// Register `fa5`, as raw bits.
    pub fa5: u64,
    /// Register `fa6`, as raw bits.
    pub fa6: u64,
    /// Register `fa7`, as raw bits.
    pub fa7: u64,
    /// Register `fs2`, as raw bits.
    pub fs2: u64,
    /// Register `fs3`, as raw bits.
    pub fs3: u64,
    /// Register `fs4`, as raw bits.
    pub fs4: u64,
    /// Register `fs5`, as raw bits.
    pub fs5: u64,
    /// Register `fs6`, as raw bits.
    pub fs6: u64,
    /// Register `fs7`, as raw bits.
    pub fs7: u64,
    /// Register `fs8`, as raw bits.
    pub fs8: u64,
    /// Register `fs9`, as raw bits.
    pub fs9: u64,
    /// Register `fs10`, as raw bits.
    pub fs10: u64,
    /// Register `fs11`, as raw bits.
    pub fs11: u64,
    /// Register `ft8`, as raw bits.
    pub ft8: u64,
    /// Register `ft9`, as raw bits.
    pub ft9: u64,
    /// Register `ft10`, as raw bits.
    pub ft10: u64,
    /// Register `ft11`, as raw bits.
    pub ft11: u64,
}

} // verus!
