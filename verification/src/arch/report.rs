//! The text that reports a trap: register dumps and the report of an
//! unhandled exception.

use vstd::prelude::*;

use crate::arch::regs::{fault_name_spec, mem_trap_addr, GpRegfile, IrqFrame, SpRegfile};
use crate::text::{hex_fixed, hex_text, push_hex, push_hex_fixed, push_str};

verus! {

/// The name, padded to three characters, and the value of general-purpose
/// register `i` in the order of the dump.
pub open spec fn gp_reg_spec(r: GpRegfile, i: int) -> (Seq<char>, usize) {
    if i == 0 {
        ("PC "@, r.pc)
    } else if i == 1 {
        ("RA "@, r.ra)
    } else if i == 2 {
        ("SP "@, r.sp)
    } else if i == 3 {
        ("GP "@, r.gp)
    } else if i == 4 {
        ("TP "@, r.tp)
    } else if i == 5 {
        ("T0 "@, r.t0)
    } else if i == 6 {
        ("T1 "@, r.t1)
    } else if i == 7 {
        ("T2 "@, r.t2)
    } else if i == 8 {
        ("S0 "@, r.s0)
    } else if i == 9 {
        ("S1 "@, r.s1)
    } else if i == 10 {
        ("A0 "@, r.a0)
    } else if i == 11 {
        ("A1 "@, r.a1)
    } else if i == 12 {
        ("A2 "@, r.a2)
    } else if i == 13 {
        ("A3 "@, r.a3)
    } else if i == 14 {
        ("A4 "@, r.a4)
    } else if i == 15 {
        ("A5 "@, r.a5)
    } else if i == 16 {
        ("A6 "@, r.a6)
    } else if i == 17 {
        ("A7 "@, r.a7)
    } else if i == 18 {
        ("S2 "@, r.s2)
    } else if i == 19 {
        ("S3 "@, r.s3)
    } else if i == 20 {
        ("S4 "@, r.s4)
    } else if i == 21 {
        ("S5 "@, r.s5)
    } else if i == 22 {
        ("S6 "@, r.s6)
    } else if i == 23 {
        ("S7 "@, r.s7)
    } else if i == 24 {
        ("S8 "@, r.s8)
    } else if i == 25 {
        ("S9 "@, r.s9)
    } else if i == 26 {
        ("S10"@, r.s10)
    } else if i == 27 {
        ("S11"@, r.s11)
    } else if i == 28 {
        ("T3 "@, r.t3)
    } else if i == 29 {
        ("T4 "@, r.t4)
    } else if i == 30 {
        ("T5 "@, r.t5)
    } else {
        ("T6 "@, r.t6)
    }
}

/// One register of the dump: its name and its value in 16 digits.
pub open spec fn reg_field(name: Seq<char>, v: nat) -> Seq<char> {
    "  "@ + name + " 0x"@ + hex_fixed(v, 16)
}

/// The first `n` registers of the dump, four to a line.
pub open spec fn gp_dump_upto(r: GpRegfile, n: nat) -> Seq<char>
    decreases n,
{
    if n == 0 {
        Seq::empty()
    } else {
        let i = n - 1;
        let field = reg_field(gp_reg_spec(r, i).0, gp_reg_spec(r, i).1 as nat);
        gp_dump_upto(r, (n - 1) as nat) + field + (if i % 4 == 3 {
            "\n"@
        } else {
            Seq::empty()
        })
    }
}

/// The dump of the special registers.
pub open spec fn sp_dump_spec(s: SpRegfile) -> Seq<char> {
    "  SSTATUS  0x"@ + hex_text(s.sstatus as nat) + "\n  SCAUSE   0x"@ + hex_text((s.scause as usize) as nat)
        + "\n  STVAL    0x"@ + hex_text(s.stval as nat) + "\n"@
}

/// The report of a trap that nothing handles: its cause, the cause's name
/// if it has one, the address a memory trap concerns, and the registers.
pub open spec fn exception_report_spec(f: IrqFrame) -> Seq<char> {
    "**** UNHANDLED EXCEPTION 0x"@ + hex_text((f.sregs.scause as usize) as nat) + " ****\n"@ + (
    match fault_name_spec(f.sregs.scause as int) {
        Some(name) => name + "\n"@,
        None => Seq::empty(),
    }) + (match mem_trap_addr(f) {
        Some(a) => "Virtual address: 0x"@ + hex_text(a as nat) + "\n"@,
        None => Seq::empty(),
    }) + gp_dump_upto(f.regs, 32) + sp_dump_spec(f.sregs)
}

impl GpRegfile {
    /// The name, padded to three characters, and the value of register
    /// `i` in the order of the dump.
    fn reg(&self, i: usize) -> (r: (&'static str, usize))
        requires
            i < 32,
        ensures
            r.0@ == gp_reg_spec(*self, i as int).0,
            r.1 == gp_reg_spec(*self, i as int).1,
    {
        if i == 0 {
            ("PC ", self.pc)
        } else if i == 1 {
            ("RA ", self.ra)
        } else if i == 2 {
            ("SP ", self.sp)
        } else if i == 3 {
            ("GP ", self.gp)
        } else if i == 4 {
            ("TP ", self.tp)
        } else if i == 5 {
            ("T0 ", self.t0)
        } else if i == 6 {
            ("T1 ", self.t1)
        } else if i == 7 {
            ("T2 ", self.t2)
        } else if i == 8 {
            ("S0 ", self.s0)
        } else if i == 9 {
            ("S1 ", self.s1)
        } else if i == 10 {
            ("A0 ", self.a0)
        } else if i == 11 {
            ("A1 ", self.a1)
        } else if i == 12 {
            ("A2 ", self.a2)
        } else if i == 13 {
            ("A3 ", self.a3)
        } else if i == 14 {
            ("A4 ", self.a4)
        } else if i == 15 {
            ("A5 ", self.a5)
        } else if i == 16 {
            ("A6 ", self.a6)
        } else if i == 17 {
            ("A7 ", self.a7)
        } else if i == 18 {
            ("S2 ", self.s2)
        } else if i == 19 {
            ("S3 ", self.s3)
        } else if i == 20 {
            ("S4 ", self.s4)
        } else if i == 21 {
            ("S5 ", self.s5)
        } else if i == 22 {
            ("S6 ", self.s6)
        } else if i == 23 {
            ("S7 ", self.s7)
        } else if i == 24 {
            ("S8 ", self.s8)
        } else if i == 25 {
            ("S9 ", self.s9)
        } else if i == 26 {
            ("S10", self.s10)
        } else if i == 27 {
            ("S11", self.s11)
        } else if i == 28 {
            ("T3 ", self.t3)
        } else if i == 29 {
            ("T4 ", self.t4)
        } else if i == 30 {
            ("T5 ", self.t5)
        } else {
            ("T6 ", self.t6)
        }
    }

    /// The dump of the general-purpose registers: each one's name and its
    /// value in 16 hexadecimal digits, four to a line.
    pub fn dump_text(&self) -> (r: Vec<char>)
        ensures
            r@ == gp_dump_upto(*self, 32),
    {
        let mut out: Vec<char> = Vec::new();
        self.push_dump(&mut out);
        proof {
            assert(out@ =~= gp_dump_upto(*self, 32));
        }
        out
    }

    fn push_dump(&self, out: &mut Vec<char>)
        ensures
            final(out)@ == old(out)@ + gp_dump_upto(*self, 32),
    {
        let mut i: usize = 0;
        while i < 32
            invariant
                i <= 32,
                out@ == old(out)@ + gp_dump_upto(*self, i as nat),
            decreases 32 - i,
        {
            let (name, v) = self.reg(i);
            push_str(out, "  ");
            push_str(out, name);
            push_str(out, " 0x");
            push_hex_fixed(out, v as u64, 16);
            if i % 4 == 3 {
                push_str(out, "\n");
            }
            proof {
                let field = reg_field(gp_reg_spec(*self, i as int).0, gp_reg_spec(*self, i as int).1 as nat);
                assert(gp_dump_upto(*self, (i + 1) as nat) == gp_dump_upto(*self, i as nat) + field + (if i % 4 == 3 {
                    "\n"@
                } else {
                    Seq::empty()
                }));
                assert(out@ =~= old(out)@ + gp_dump_upto(*self, (i + 1) as nat));
            }
            i = i + 1;
        }
    }
}

impl SpRegfile {
    /// The dump of the special registers, each value in hexadecimal.
    pub fn dump_text(&self) -> (r: Vec<char>)
        ensures
            r@ == sp_dump_spec(*self),
    {
        let mut out: Vec<char> = Vec::new();
        self.push_dump(&mut out);
        proof {
            assert(out@ =~= sp_dump_spec(*self));
        }
        out
    }

    fn push_dump(&self, out: &mut Vec<char>)
        ensures
            final(out)@ == old(out)@ + sp_dump_spec(*self),
    {
        push_str(out, "  SSTATUS  0x");
        push_hex(out, self.sstatus as u64);
        push_str(out, "\n  SCAUSE   0x");
        push_hex(out, self.scause as usize as u64);
        push_str(out, "\n  STVAL    0x");
        push_hex(out, self.stval as u64);
        push_str(out, "\n");
        proof {
            assert(out@ =~= old(out)@ + sp_dump_spec(*self));
        }
    }
}

impl IrqFrame {
    /// The dump of the frame: the general-purpose registers, then the
    /// special ones.
    pub fn dump_text(&self) -> (r: Vec<char>)
        ensures
            r@ == gp_dump_upto(self.regs, 32) + sp_dump_spec(self.sregs),
    {
        let mut out: Vec<char> = Vec::new();
        self.regs.push_dump(&mut out);
        self.sregs.push_dump(&mut out);
        proof {
            assert(out@ =~= gp_dump_upto(self.regs, 32) + sp_dump_spec(self.sregs));
        }
        out
    }
}

/// The report of a trap that nothing handles, up to the panic banner.
pub fn exception_report(frame: &IrqFrame) -> (r: Vec<char>)
    ensures
        r@ == exception_report_spec(*frame),
{
    let mut out: Vec<char> = Vec::new();
    push_str(&mut out, "**** UNHANDLED EXCEPTION 0x");
    push_hex(&mut out, frame.fault_code() as usize as u64);
    push_str(&mut out, " ****\n");
    match frame.fault_name() {
        Some(name) => {
            push_str(&mut out, name);
            push_str(&mut out, "\n");
        },
        None => {},
    }
    match frame.is_mem_trap() {
        Some(vaddr) => {
            push_str(&mut out, "Virtual address: 0x");
            push_hex(&mut out, vaddr as u64);
            push_str(&mut out, "\n");
        },
        None => {},
    }
    frame.regs.push_dump(&mut out);
    frame.sregs.push_dump(&mut out);
    proof {
        assert(out@ =~= exception_report_spec(*frame));
    }
    out
}

} // verus!
