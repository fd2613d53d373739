//! The instruction set: a tagged variant per opcode, some carrying an
//! arbitrary-precision argument, together with its ghost view in which the
//! argument is the mathematical integer it denotes.

use vstd::prelude::*;
use crate::num::Number;

verus! {

/// A decoded instruction.
pub enum Insn {
    Push(Number),
    Pop,
    Dup,
    Swap,
    Copy(Number),
    Slide(Number),
    Add,
    Sub,
    Mul,
    Div,
    Mod,
    Label(Number),
    Call(Number),
    Jump(Number),
    JumpIfZero(Number),
    JumpIfNegative(Number),
    Return,
    HeapStore,
    HeapLoad,
    ReadChar,
    ReadNumber,
    PrintChar,
    PrintNumber,
    Exit,
}

/// The ghost image of an instruction: the same tag over mathematical
/// integers.
pub enum InsnV {
    Push(int),
    Pop,
    Dup,
    Swap,
    Copy(int),
    Slide(int),
    Add,
    Sub,
    Mul,
    Div,
    Mod,
    Label(int),
    Call(int),
    Jump(int),
    JumpIfZero(int),
    JumpIfNegative(int),
    Return,
    HeapStore,
    HeapLoad,
    ReadChar,
    ReadNumber,
    PrintChar,
    PrintNumber,
    Exit,
}

impl View for Insn {
    type V = InsnV;

    open spec fn view(&self) -> InsnV {
        match self {
            Insn::Push(n) => InsnV::Push(n@),
            Insn::Pop => InsnV::Pop,
            Insn::Dup => InsnV::Dup,
            Insn::Swap => InsnV::Swap,
            Insn::Copy(n) => InsnV::Copy(n@),
            Insn::Slide(n) => InsnV::Slide(n@),
            Insn::Add => InsnV::Add,
            Insn::Sub => InsnV::Sub,
            Insn::Mul => InsnV::Mul,
            Insn::Div => InsnV::Div,
            Insn::Mod => InsnV::Mod,
            Insn::Label(n) => InsnV::Label(n@),
            Insn::Call(n) => InsnV::Call(n@),
            Insn::Jump(n) => InsnV::Jump(n@),
            Insn::JumpIfZero(n) => InsnV::JumpIfZero(n@),
            Insn::JumpIfNegative(n) => InsnV::JumpIfNegative(n@),
            Insn::Return => InsnV::Return,
            Insn::HeapStore => InsnV::HeapStore,
            Insn::HeapLoad => InsnV::HeapLoad,
            Insn::ReadChar => InsnV::ReadChar,
            Insn::ReadNumber => InsnV::ReadNumber,
            Insn::PrintChar => InsnV::PrintChar,
            Insn::PrintNumber => InsnV::PrintNumber,
            Insn::Exit => InsnV::Exit,
        }
    }
}

impl Insn {
    /// The carried argument, if any, is a well-formed number.
    pub open spec fn wf(&self) -> bool {
        match self {
            Insn::Push(n) => n.wf(),
            Insn::Copy(n) => n.wf(),
            Insn::Slide(n) => n.wf(),
            Insn::Label(n) => n.wf(),
            Insn::Call(n) => n.wf(),
            Insn::Jump(n) => n.wf(),
            Insn::JumpIfZero(n) => n.wf(),
            Insn::JumpIfNegative(n) => n.wf(),
            _ => true,
        }
    }
}

/// The ghost image of a whole program.
pub open spec fn prog_view(p: Seq<Insn>) -> Seq<InsnV> {
    p.map_values(|i: Insn| i@)
}

/// Every instruction of the program is well formed.
pub open spec fn prog_wf(p: Seq<Insn>) -> bool {
    forall|i: int| 0 <= i < p.len() ==> (#[trigger] p[i]).wf()
}

/// The label table agrees with the program: every entry points at a `Label`
/// instruction, inside the program, that carries the entry's key.
pub open spec fn labels_ok(p: Seq<InsnV>, labels: Map<int, int>) -> bool {
    forall|k: int| #[trigger] labels.contains_key(k) ==> {
        &&& 0 <= labels[k] < p.len()
        &&& p[labels[k]] == InsnV::Label(k)
    }
}

} // verus!
