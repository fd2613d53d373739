//! The virtual machine.
//!
//! Execution starts at instruction index zero and proceeds until an `Exit`
//! instruction or the instruction pointer runs past the end of the
//! program — both normal termination — or a fatal error.  The mutable
//! runtime state is the operand stack, the call stack, the heap, the
//! output buffer, the instruction pointer and the executed-instruction
//! counter (`Label` instructions do not count; the counter saturates at
//! its maximum rather than wrap).
//!
//! The meaning of one instruction is the spec function `step_spec` over
//! the ghost state [`StateV`]; the executable [`Vm::step`] is proved to
//! perform exactly that transition, and [`Vm::run`] to iterate it until
//! an event: normal termination, a fatal error, or a request for runtime
//! input.  Input is handed back by the caller through [`Vm::supply_char`]
//! and [`Vm::supply_line`]; printed output accumulates in the machine's
//! output buffer as bytes.

use vstd::prelude::*;
use crate::num::Number;
use crate::num::num_add;
use crate::num::num_sub;
use crate::num::num_mul;
use crate::num::num_div;
use crate::num::num_rem;
use crate::num::num_to_decimal;
use crate::num::trunc_div;
use crate::num::trunc_mod;
use crate::num::dec_repr;
use crate::insn::Insn;
use crate::insn::InsnV;
use crate::insn::prog_view;
use crate::insn::prog_wf;
use crate::insn::labels_ok;
use crate::store::Heap;
use crate::store::heap_new;
use crate::store::heap_insert;
use crate::store::heap_get;
use crate::store::heap_map;
use crate::store::LabelTable;
use crate::store::label_get;
use crate::store::label_map;

verus! {

/// The ghost image of the runtime state.
#[verifier::ext_equal]
pub struct StateV {
    pub stack: Seq<int>,
    pub calls: Seq<int>,
    pub heap: Map<int, int>,
    pub out: Seq<u8>,
    pub ip: int,
    pub count: nat,
}

/// The initial runtime state.
pub open spec fn init_state() -> StateV {
    StateV {
        stack: Seq::empty(),
        calls: Seq::empty(),
        heap: Map::empty(),
        out: Seq::empty(),
        ip: 0,
        count: 0,
    }
}

/// A fatal runtime error.
pub enum VmError {
    /// An instruction popped from an empty operand stack, or `Copy` or
    /// `Slide` reached beyond the stack's depth.
    StackUnderflow,
    /// `Return` was executed with no pending call frame.
    EmptyCallStack,
    /// A taken `Call` or jump referenced a label absent from the table;
    /// carries the offending label value.
    UndefinedLabel(Number),
    /// `HeapLoad` on a key never stored.
    MissingHeapKey,
    /// Division or modulo by zero.
    ArithmeticError,
    /// The line read for `ReadNumber` is not a decimal integer.
    InputParseError,
    /// `PrintChar` on a value that is not a byte.
    CharRangeError,
}

/// The ghost image of a fatal error.
pub enum ErrorV {
    StackUnderflow,
    EmptyCallStack,
    UndefinedLabel(int),
    MissingHeapKey,
    ArithmeticError,
    InputParseError,
    CharRangeError,
}

impl View for VmError {
    type V = ErrorV;

    open spec fn view(&self) -> ErrorV {
        match self {
            VmError::StackUnderflow => ErrorV::StackUnderflow,
            VmError::EmptyCallStack => ErrorV::EmptyCallStack,
            VmError::UndefinedLabel(n) => ErrorV::UndefinedLabel(n@),
            VmError::MissingHeapKey => ErrorV::MissingHeapKey,
            VmError::ArithmeticError => ErrorV::ArithmeticError,
            VmError::InputParseError => ErrorV::InputParseError,
            VmError::CharRangeError => ErrorV::CharRangeError,
        }
    }
}

/// What one instruction does: the machine moves to the next state, stops
/// normally (with the final state), stops on a fatal error (the state is
/// the one before the failing instruction), or asks for runtime input
/// before changing anything.
pub enum StepV {
    Next(StateV),
    Done(StateV),
    NeedChar,
    NeedLine,
    Fail(ErrorV),
}

/// The executed-instruction counter: one more, saturating at the
/// counter's maximum.
pub open spec fn bump(c: nat) -> nat {
    if c < u64::MAX as nat {
        c + 1
    } else {
        c
    }
}

/// The meaning of executing one instruction in state `s`.
pub open spec fn step_spec(prog: Seq<InsnV>, labels: Map<int, int>, s: StateV) -> StepV {
    if s.ip < 0 || s.ip >= prog.len() {
        StepV::Done(s)
    } else {
        let l = s.stack.len() as int;
        let c = bump(s.count);
        match prog[s.ip] {
            InsnV::Push(v) => StepV::Next(
                StateV { stack: s.stack.push(v), ip: s.ip + 1, count: c, ..s },
            ),
            InsnV::Pop => {
                if l < 1 {
                    StepV::Fail(ErrorV::StackUnderflow)
                } else {
                    StepV::Next(StateV { stack: s.stack.drop_last(), ip: s.ip + 1, count: c, ..s })
                }
            },
            InsnV::Dup => {
                if l < 1 {
                    StepV::Fail(ErrorV::StackUnderflow)
                } else {
                    StepV::Next(
                        StateV { stack: s.stack.push(s.stack[l - 1]), ip: s.ip + 1, count: c, ..s },
                    )
                }
            },
            InsnV::Swap => {
                if l < 2 {
                    StepV::Fail(ErrorV::StackUnderflow)
                } else {
                    StepV::Next(
                        StateV {
                            stack: s.stack.subrange(0, l - 2).push(s.stack[l - 1]).push(
                                s.stack[l - 2],
                            ),
                            ip: s.ip + 1,
                            count: c,
                            ..s
                        },
                    )
                }
            },
            InsnV::Copy(n) => {
                if 0 <= n < l {
                    StepV::Next(
                        StateV {
                            stack: s.stack.push(s.stack[l - 1 - n]),
                            ip: s.ip + 1,
                            count: c,
                            ..s
                        },
                    )
                } else {
                    StepV::Fail(ErrorV::StackUnderflow)
                }
            },
            InsnV::Slide(n) => {
                if l >= 1 && 0 <= n <= l - 1 {
                    StepV::Next(
                        StateV {
                            stack: s.stack.subrange(0, l - 1 - n).push(s.stack[l - 1]),
                            ip: s.ip + 1,
                            count: c,
                            ..s
                        },
                    )
                } else {
                    StepV::Fail(ErrorV::StackUnderflow)
                }
            },
            InsnV::Add => {
                if l < 2 {
                    StepV::Fail(ErrorV::StackUnderflow)
                } else {
                    StepV::Next(
                        StateV {
                            stack: s.stack.subrange(0, l - 2).push(s.stack[l - 2] + s.stack[l - 1]),
                            ip: s.ip + 1,
                            count: c,
                            ..s
                        },
                    )
                }
            },
            InsnV::Sub => {
                if l < 2 {
                    StepV::Fail(ErrorV::StackUnderflow)
                } else {
                    StepV::Next(
                        StateV {
                            stack: s.stack.subrange(0, l - 2).push(s.stack[l - 2] - s.stack[l - 1]),
                            ip: s.ip + 1,
                            count: c,
                            ..s
                        },
                    )
                }
            },
            InsnV::Mul => {
                if l < 2 {
                    StepV::Fail(ErrorV::StackUnderflow)
                } else {
                    StepV::Next(
                        StateV {
                            stack: s.stack.subrange(0, l - 2).push(s.stack[l - 2] * s.stack[l - 1]),
                            ip: s.ip + 1,
                            count: c,
                            ..s
                        },
                    )
                }
            },
            InsnV::Div => {
                if l < 2 {
                    StepV::Fail(ErrorV::StackUnderflow)
                } else if s.stack[l - 1] == 0 {
                    StepV::Fail(ErrorV::ArithmeticError)
                } else {
                    StepV::Next(
                        StateV {
                            stack: s.stack.subrange(0, l - 2).push(
                                trunc_div(s.stack[l - 2], s.stack[l - 1]),
                            ),
                            ip: s.ip + 1,
                            count: c,
                            ..s
                        },
                    )
                }
            },
            InsnV::Mod => {
                if l < 2 {
                    StepV::Fail(ErrorV::StackUnderflow)
                } else if s.stack[l - 1] == 0 {
                    StepV::Fail(ErrorV::ArithmeticError)
                } else {
                    StepV::Next(
                        StateV {
                            stack: s.stack.subrange(0, l - 2).push(
                                trunc_mod(s.stack[l - 2], s.stack[l - 1]),
                            ),
                            ip: s.ip + 1,
                            count: c,
                            ..s
                        },
                    )
                }
            },
            InsnV::Label(_) => StepV::Next(StateV { ip: s.ip + 1, ..s }),
            InsnV::Call(v) => {
                if labels.contains_key(v) {
                    StepV::Next(
                        StateV {
                            calls: s.calls.push(s.ip),
                            ip: labels[v] + 1,
                            count: c,
                            ..s
                        },
                    )
                } else {
                    StepV::Fail(ErrorV::UndefinedLabel(v))
                }
            },
            InsnV::Jump(v) => {
                if labels.contains_key(v) {
                    StepV::Next(StateV { ip: labels[v] + 1, count: c, ..s })
                } else {
                    StepV::Fail(ErrorV::UndefinedLabel(v))
                }
            },
            InsnV::JumpIfZero(v) => {
                if l < 1 {
                    StepV::Fail(ErrorV::StackUnderflow)
                } else if s.stack[l - 1] == 0 {
                    if labels.contains_key(v) {
                        StepV::Next(
                            StateV {
                                stack: s.stack.drop_last(),
                                ip: labels[v] + 1,
                                count: c,
                                ..s
                            },
                        )
                    } else {
                        StepV::Fail(ErrorV::UndefinedLabel(v))
                    }
                } else {
                    StepV::Next(StateV { stack: s.stack.drop_last(), ip: s.ip + 1, count: c, ..s })
                }
            },
            InsnV::JumpIfNegative(v) => {
                if l < 1 {
                    StepV::Fail(ErrorV::StackUnderflow)
                } else if s.stack[l - 1] < 0 {
                    if labels.contains_key(v) {
                        StepV::Next(
                            StateV {
                                stack: s.stack.drop_last(),
                                ip: labels[v] + 1,
                                count: c,
                                ..s
                            },
                        )
                    } else {
                        StepV::Fail(ErrorV::UndefinedLabel(v))
                    }
                } else {
                    StepV::Next(StateV { stack: s.stack.drop_last(), ip: s.ip + 1, count: c, ..s })
                }
            },
            InsnV::Return => {
                if s.calls.len() == 0 {
                    StepV::Fail(ErrorV::EmptyCallStack)
                } else {
                    StepV::Next(
                        StateV {
                            calls: s.calls.drop_last(),
                            ip: s.calls[s.calls.len() - 1] + 1,
                            count: c,
                            ..s
                        },
                    )
                }
            },
            InsnV::HeapStore => {
                if l < 2 {
                    StepV::Fail(ErrorV::StackUnderflow)
                } else {
                    StepV::Next(
                        StateV {
                            stack: s.stack.subrange(0, l - 2),
                            heap: s.heap.insert(s.stack[l - 2], s.stack[l - 1]),
                            ip: s.ip + 1,
                            count: c,
                            ..s
                        },
                    )
                }
            },
            InsnV::HeapLoad => {
                if l < 1 {
                    StepV::Fail(ErrorV::StackUnderflow)
                } else if s.heap.contains_key(s.stack[l - 1]) {
                    StepV::Next(
                        StateV {
                            stack: s.stack.drop_last().push(s.heap[s.stack[l - 1]]),
                            ip: s.ip + 1,
                            count: c,
                            ..s
                        },
                    )
                } else {
                    StepV::Fail(ErrorV::MissingHeapKey)
                }
            },
            InsnV::ReadChar => {
                if l < 1 {
                    StepV::Fail(ErrorV::StackUnderflow)
                } else {
                    StepV::NeedChar
                }
            },
            InsnV::ReadNumber => {
                if l < 1 {
                    StepV::Fail(ErrorV::StackUnderflow)
                } else {
                    StepV::NeedLine
                }
            },
            InsnV::PrintChar => {
                if l < 1 {
                    StepV::Fail(ErrorV::StackUnderflow)
                } else if 0 <= s.stack[l - 1] < 256 {
                    StepV::Next(
                        StateV {
                            stack: s.stack.drop_last(),
                            out: s.out.push(s.stack[l - 1] as u8),
                            ip: s.ip + 1,
                            count: c,
                            ..s
                        },
                    )
                } else {
                    StepV::Fail(ErrorV::CharRangeError)
                }
            },
            InsnV::PrintNumber => {
                if l < 1 {
                    StepV::Fail(ErrorV::StackUnderflow)
                } else {
                    StepV::Next(
                        StateV {
                            stack: s.stack.drop_last(),
                            out: s.out + dec_repr(s.stack[l - 1]),
                            ip: s.ip + 1,
                            count: c,
                            ..s
                        },
                    )
                }
            },
            InsnV::Exit => StepV::Done(StateV { count: c, ..s }),
        }
    }
}

/// The state reached after reading one character for `ReadChar`: the key
/// is popped, the character's value is stored at it, and the machine
/// advances.
pub open spec fn char_step(s: StateV, b: u8) -> StateV
    recommends
        s.stack.len() > 0,
{
    StateV {
        stack: s.stack.drop_last(),
        heap: s.heap.insert(s.stack[s.stack.len() - 1], b as int),
        ip: s.ip + 1,
        count: bump(s.count),
        ..s
    }
}

/// The state reached after reading the number `v` for `ReadNumber`.
pub open spec fn line_step(s: StateV, v: int) -> StateV
    recommends
        s.stack.len() > 0,
{
    StateV {
        stack: s.stack.drop_last(),
        heap: s.heap.insert(s.stack[s.stack.len() - 1], v),
        ip: s.ip + 1,
        count: bump(s.count),
        ..s
    }
}

/// The state after `n` ordinary steps, when no step in between stopped,
/// failed or asked for input.
pub open spec fn stepn(prog: Seq<InsnV>, labels: Map<int, int>, s: StateV, n: nat) -> Option<StateV>
    decreases n,
{
    if n == 0 {
        Some(s)
    } else {
        match stepn(prog, labels, s, (n - 1) as nat) {
            Some(t) => match step_spec(prog, labels, t) {
                StepV::Next(u) => Some(u),
                _ => None,
            },
            None => None,
        }
    }
}

/// What `Vm::step` reports.
pub enum StepResult {
    /// The machine moved one instruction on.
    Continue,
    /// Normal termination: `Exit`, or the pointer ran past the end.
    Done,
    /// The current instruction needs one character of runtime input.
    NeedChar,
    /// The current instruction needs one line of runtime input.
    NeedLine,
    /// A fatal error; the state is unchanged.
    Fatal(VmError),
}

/// What `Vm::run` reports.
pub enum Event {
    /// Normal termination.
    Done,
    /// The machine waits for one character; hand it back through
    /// `supply_char` and run again.
    NeedChar,
    /// The machine waits for one line; hand it back through `supply_line`
    /// and run again.
    NeedLine,
    /// A fatal error aborted the run.
    Fatal(VmError),
    /// The step budget ran out; run again to continue.
    More,
}

/// The virtual machine's runtime state.
pub struct Vm {
    pub stack: Vec<Number>,
    pub calls: Vec<usize>,
    pub heap: Heap,
    pub out: Vec<u8>,
    pub ip: usize,
    pub count: u64,
}

impl View for Vm {
    type V = StateV;

    open spec fn view(&self) -> StateV {
        StateV {
            stack: self.stack@.map_values(|n: Number| n@),
            calls: self.calls@.map_values(|c: usize| c as int),
            heap: heap_map(self.heap),
            out: self.out@,
            ip: self.ip as int,
            count: self.count as nat,
        }
    }
}

impl Vm {
    /// Every stacked number is well formed and every return address lies
    /// inside the program.
    pub open spec fn inv(&self, prog: Seq<Insn>) -> bool {
        &&& forall|i: int|
            0 <= i < self.stack@.len() ==> (#[trigger] self.stack@[i]).wf()
        &&& forall|i: int|
            0 <= i < self.calls@.len() ==> (#[trigger] self.calls@[i]) < prog.len()
    }

    /// A fresh machine in the initial state.
    pub fn new() -> (vm: Vm)
        ensures
            vm@ == init_state(),
            vm.stack@.len() == 0,
            vm.calls@.len() == 0,
    {
        let vm = Vm {
            stack: Vec::new(),
            calls: Vec::new(),
            heap: heap_new(),
            out: Vec::new(),
            ip: 0,
            count: 0,
        };
        proof {
            assert(vm@ =~= init_state());
        }
        vm
    }
}

impl Vm {
    /// Execute the single instruction under the instruction pointer, or
    /// report normal termination when the pointer is past the end.  The
    /// transition performed is exactly `step_spec` of the prior state: on
    /// `Continue` the state is the next one; on `Done` it is the final
    /// one; on `NeedChar`, `NeedLine` and `Fatal` nothing has changed.
    #[verifier::rlimit(80)]
    pub fn step(&mut self, prog: &Vec<Insn>, labels: &LabelTable) -> (r: StepResult)
        requires
            old(self).inv(prog@),
            prog_wf(prog@),
            labels_ok(prog_view(prog@), label_map(*labels)),
        ensures
            final(self).inv(prog@),
            ({
                let p = prog_view(prog@);
                let l = label_map(*labels);
                match r {
                    StepResult::Continue => step_spec(p, l, old(self)@) == StepV::Next(final(self)@),
                    StepResult::Done => step_spec(p, l, old(self)@) == StepV::Done(final(self)@),
                    StepResult::NeedChar => step_spec(p, l, old(self)@) == StepV::NeedChar
                        && final(self)@ == old(self)@,
                    StepResult::NeedLine => step_spec(p, l, old(self)@) == StepV::NeedLine
                        && final(self)@ == old(self)@,
                    StepResult::Fatal(e) => step_spec(p, l, old(self)@) == StepV::Fail(e@)
                        && final(self)@ == old(self)@,
                }
            }),
    {
        let ghost p = prog_view(prog@);
        let ghost lm = label_map(*labels);
        let ghost s0 = old(self)@;
        if self.ip >= prog.len() {
            return StepResult::Done;
        }
        proof {
            assert(p[self.ip as int] == prog@[self.ip as int]@);
        }
        let l = self.stack.len();
        match &prog[self.ip] {
            Insn::Push(n) => {
                let x = n.clone();
                self.stack.push(x);
                if self.count < u64::MAX {
                    self.count = self.count + 1;
                }
                self.ip = self.ip + 1;
                proof {
                    assert(self@.stack =~= s0.stack.push(n@));
                    assert(self@ =~= StateV { stack: s0.stack.push(n@), ip: s0.ip + 1, count: bump(s0.count), ..s0 });
                }
                StepResult::Continue
            },
            Insn::Pop => {
                if l == 0 {
                    return StepResult::Fatal(VmError::StackUnderflow);
                }
                let _ = self.stack.pop();
                if self.count < u64::MAX {
                    self.count = self.count + 1;
                }
                self.ip = self.ip + 1;
                proof {
                    assert(self@.stack =~= s0.stack.drop_last());
                    assert(self@ =~= StateV { stack: s0.stack.drop_last(), ip: s0.ip + 1, count: bump(s0.count), ..s0 });
                }
                StepResult::Continue
            },
            Insn::Dup => {
                if l == 0 {
                    return StepResult::Fatal(VmError::StackUnderflow);
                }
                let x = self.stack[l - 1].clone();
                self.stack.push(x);
                if self.count < u64::MAX {
                    self.count = self.count + 1;
                }
                self.ip = self.ip + 1;
                proof {
                    assert(self@.stack =~= s0.stack.push(s0.stack[l - 1]));
                    assert(self@ =~= StateV { stack: s0.stack.push(s0.stack[l - 1]), ip: s0.ip + 1, count: bump(s0.count), ..s0 });
                }
                StepResult::Continue
            },
            Insn::Swap => {
                if l < 2 {
                    return StepResult::Fatal(VmError::StackUnderflow);
                }
                let a = self.stack.pop().unwrap();
                let b = self.stack.pop().unwrap();
                self.stack.push(a);
                self.stack.push(b);
                if self.count < u64::MAX {
                    self.count = self.count + 1;
                }
                self.ip = self.ip + 1;
                proof {
                    assert(self@.stack =~= s0.stack.subrange(0, l - 2).push(s0.stack[l - 1]).push(
                        s0.stack[l - 2],
                    ));
                    assert(self@ =~= StateV {
                        stack: s0.stack.subrange(0, l - 2).push(s0.stack[l - 1]).push(
                            s0.stack[l - 2],
                        ),
                        ip: s0.ip + 1,
                        count: bump(s0.count),
                        ..s0
                    });
                }
                StepResult::Continue
            },
            Insn::Copy(n) => {
                let idx = match n.to_index() {
                    Some(u) => u,
                    None => {
                        return StepResult::Fatal(VmError::StackUnderflow);
                    },
                };
                if idx >= l {
                    return StepResult::Fatal(VmError::StackUnderflow);
                }
                let x = self.stack[l - 1 - idx].clone();
                self.stack.push(x);
                if self.count < u64::MAX {
                    self.count = self.count + 1;
                }
                self.ip = self.ip + 1;
                proof {
                    assert(self@.stack =~= s0.stack.push(s0.stack[l - 1 - idx]));
                    assert(self@ =~= StateV { stack: s0.stack.push(s0.stack[l - 1 - n@]), ip: s0.ip + 1, count: bump(s0.count), ..s0 });
                }
                StepResult::Continue
            },
            Insn::Slide(n) => {
                if l == 0 {
                    return StepResult::Fatal(VmError::StackUnderflow);
                }
                let idx = match n.to_index() {
                    Some(u) => u,
                    None => {
                        return StepResult::Fatal(VmError::StackUnderflow);
                    },
                };
                if idx > l - 1 {
                    return StepResult::Fatal(VmError::StackUnderflow);
                }
                let top = self.stack.pop().unwrap();
                self.stack.truncate(l - 1 - idx);
                self.stack.push(top);
                if self.count < u64::MAX {
                    self.count = self.count + 1;
                }
                self.ip = self.ip + 1;
                proof {
                    assert(self@.stack =~= s0.stack.subrange(0, l - 1 - n@).push(s0.stack[l - 1]));
                    assert(self@ =~= StateV {
                        stack: s0.stack.subrange(0, l - 1 - n@).push(s0.stack[l - 1]),
                        ip: s0.ip + 1,
                        count: bump(s0.count),
                        ..s0
                    });
                }
                StepResult::Continue
            },
            Insn::Add => {
                if l < 2 {
                    return StepResult::Fatal(VmError::StackUnderflow);
                }
                let rhs = self.stack.pop().unwrap();
                let lhs = self.stack.pop().unwrap();
                self.stack.push(num_add(&lhs, &rhs));
                if self.count < u64::MAX {
                    self.count = self.count + 1;
                }
                self.ip = self.ip + 1;
                proof {
                    assert(self@.stack =~= s0.stack.subrange(0, l - 2).push(
                        s0.stack[l - 2] + s0.stack[l - 1],
                    ));
                    assert(self@ =~= StateV {
                        stack: s0.stack.subrange(0, l - 2).push(s0.stack[l - 2] + s0.stack[l - 1]),
                        ip: s0.ip + 1,
                        count: bump(s0.count),
                        ..s0
                    });
                }
                StepResult::Continue
            },
            Insn::Sub => {
                if l < 2 {
                    return StepResult::Fatal(VmError::StackUnderflow);
                }
                let rhs = self.stack.pop().unwrap();
                let lhs = self.stack.pop().unwrap();
                self.stack.push(num_sub(&lhs, &rhs));
                if self.count < u64::MAX {
                    self.count = self.count + 1;
                }
                self.ip = self.ip + 1;
                proof {
                    assert(self@.stack =~= s0.stack.subrange(0, l - 2).push(
                        s0.stack[l - 2] - s0.stack[l - 1],
                    ));
                    assert(self@ =~= StateV {
                        stack: s0.stack.subrange(0, l - 2).push(s0.stack[l - 2] - s0.stack[l - 1]),
                        ip: s0.ip + 1,
                        count: bump(s0.count),
                        ..s0
                    });
                }
                StepResult::Continue
            },
            Insn::Mul => {
                if l < 2 {
                    return StepResult::Fatal(VmError::StackUnderflow);
                }
                let rhs = self.stack.pop().unwrap();
                let lhs = self.stack.pop().unwrap();
                self.stack.push(num_mul(&lhs, &rhs));
                if self.count < u64::MAX {
                    self.count = self.count + 1;
                }
                self.ip = self.ip + 1;
                proof {
                    assert(self@.stack =~= s0.stack.subrange(0, l - 2).push(
                        s0.stack[l - 2] * s0.stack[l - 1],
                    ));
                    assert(self@ =~= StateV {
                        stack: s0.stack.subrange(0, l - 2).push(s0.stack[l - 2] * s0.stack[l - 1]),
                        ip: s0.ip + 1,
                        count: bump(s0.count),
                        ..s0
                    });
                }
                StepResult::Continue
            },
            Insn::Div => {
                if l < 2 {
                    return StepResult::Fatal(VmError::StackUnderflow);
                }
                if self.stack[l - 1].is_zero() {
                    return StepResult::Fatal(VmError::ArithmeticError);
                }
                let rhs = self.stack.pop().unwrap();
                let lhs = self.stack.pop().unwrap();
                self.stack.push(num_div(&lhs, &rhs));
                if self.count < u64::MAX {
                    self.count = self.count + 1;
                }
                self.ip = self.ip + 1;
                proof {
                    assert(self@.stack =~= s0.stack.subrange(0, l - 2).push(
                        trunc_div(s0.stack[l - 2], s0.stack[l - 1]),
                    ));
                    assert(self@ =~= StateV {
                        stack: s0.stack.subrange(0, l - 2).push(
                            trunc_div(s0.stack[l - 2], s0.stack[l - 1]),
                        ),
                        ip: s0.ip + 1,
                        count: bump(s0.count),
                        ..s0
                    });
                }
                StepResult::Continue
            },
            Insn::Mod => {
                if l < 2 {
                    return StepResult::Fatal(VmError::StackUnderflow);
                }
                if self.stack[l - 1].is_zero() {
                    return StepResult::Fatal(VmError::ArithmeticError);
                }
                let rhs = self.stack.pop().unwrap();
                let lhs = self.stack.pop().unwrap();
                self.stack.push(num_rem(&lhs, &rhs));
                if self.count < u64::MAX {
                    self.count = self.count + 1;
                }
                self.ip = self.ip + 1;
                proof {
                    assert(self@.stack =~= s0.stack.subrange(0, l - 2).push(
                        trunc_mod(s0.stack[l - 2], s0.stack[l - 1]),
                    ));
                    assert(self@ =~= StateV {
                        stack: s0.stack.subrange(0, l - 2).push(
                            trunc_mod(s0.stack[l - 2], s0.stack[l - 1]),
                        ),
                        ip: s0.ip + 1,
                        count: bump(s0.count),
                        ..s0
                    });
                }
                StepResult::Continue
            },
            Insn::Label(_) => {
                self.ip = self.ip + 1;
                proof {
                    assert(self@ =~= StateV { ip: s0.ip + 1, ..s0 });
                }
                StepResult::Continue
            },
            Insn::Call(n) => {
                match label_get(labels, n) {
                    Some(t) => {
                        self.calls.push(self.ip);
                        self.ip = t + 1;
                        if self.count < u64::MAX {
                            self.count = self.count + 1;
                        }
                        proof {
                            assert(self@.calls =~= s0.calls.push(s0.ip));
                            assert(self@ =~= StateV {
                                calls: s0.calls.push(s0.ip),
                                ip: lm[n@] + 1,
                                count: bump(s0.count),
                                ..s0
                            });
                        }
                        StepResult::Continue
                    },
                    None => StepResult::Fatal(VmError::UndefinedLabel(n.clone())),
                }
            },
            Insn::Jump(n) => {
                match label_get(labels, n) {
                    Some(t) => {
                        self.ip = t + 1;
                        if self.count < u64::MAX {
                            self.count = self.count + 1;
                        }
                        proof {
                            assert(self@ =~= StateV { ip: lm[n@] + 1, count: bump(s0.count), ..s0 });
                        }
                        StepResult::Continue
                    },
                    None => StepResult::Fatal(VmError::UndefinedLabel(n.clone())),
                }
            },
            Insn::JumpIfZero(n) => {
                if l == 0 {
                    return StepResult::Fatal(VmError::StackUnderflow);
                }
                if self.stack[l - 1].is_zero() {
                    match label_get(labels, n) {
                        Some(t) => {
                            let _ = self.stack.pop();
                            self.ip = t + 1;
                            if self.count < u64::MAX {
                                self.count = self.count + 1;
                            }
                            proof {
                                assert(self@.stack =~= s0.stack.drop_last());
                                assert(self@ =~= StateV {
                                    stack: s0.stack.drop_last(),
                                    ip: lm[n@] + 1,
                                    count: bump(s0.count),
                                    ..s0
                                });
                            }
                            StepResult::Continue
                        },
                        None => StepResult::Fatal(VmError::UndefinedLabel(n.clone())),
                    }
                } else {
                    let _ = self.stack.pop();
                    self.ip = self.ip + 1;
                    if self.count < u64::MAX {
                        self.count = self.count + 1;
                    }
                    proof {
                        assert(self@.stack =~= s0.stack.drop_last());
                        assert(self@ =~= StateV {
                            stack: s0.stack.drop_last(),
                            ip: s0.ip + 1,
                            count: bump(s0.count),
                            ..s0
                        });
                    }
                    StepResult::Continue
                }
            },
            Insn::JumpIfNegative(n) => {
                if l == 0 {
                    return StepResult::Fatal(VmError::StackUnderflow);
                }
                if self.stack[l - 1].is_negative() {
                    match label_get(labels, n) {
                        Some(t) => {
                            let _ = self.stack.pop();
                            self.ip = t + 1;
                            if self.count < u64::MAX {
                                self.count = self.count + 1;
                            }
                            proof {
                                assert(self@.stack =~= s0.stack.drop_last());
                                assert(self@ =~= StateV {
                                    stack: s0.stack.drop_last(),
                                    ip: lm[n@] + 1,
                                    count: bump(s0.count),
                                    ..s0
                                });
                            }
                            StepResult::Continue
                        },
                        None => StepResult::Fatal(VmError::UndefinedLabel(n.clone())),
                    }
                } else {
                    let _ = self.stack.pop();
                    self.ip = self.ip + 1;
                    if self.count < u64::MAX {
                        self.count = self.count + 1;
                    }
                    proof {
                        assert(self@.stack =~= s0.stack.drop_last());
                        assert(self@ =~= StateV {
                            stack: s0.stack.drop_last(),
                            ip: s0.ip + 1,
                            count: bump(s0.count),
                            ..s0
                        });
                    }
                    StepResult::Continue
                }
            },
            Insn::Return => {
                if self.calls.len() == 0 {
                    return StepResult::Fatal(VmError::EmptyCallStack);
                }
                let ret = self.calls.pop().unwrap();
                self.ip = ret + 1;
                if self.count < u64::MAX {
                    self.count = self.count + 1;
                }
                proof {
                    assert(self@.calls =~= s0.calls.drop_last());
                    assert(self@ =~= StateV {
                        calls: s0.calls.drop_last(),
                        ip: s0.calls[s0.calls.len() - 1] + 1,
                        count: bump(s0.count),
                        ..s0
                    });
                }
                StepResult::Continue
            },
            Insn::HeapStore => {
                if l < 2 {
                    return StepResult::Fatal(VmError::StackUnderflow);
                }
                let v = self.stack.pop().unwrap();
                let k = self.stack.pop().unwrap();
                heap_insert(&mut self.heap, &k, &v);
                if self.count < u64::MAX {
                    self.count = self.count + 1;
                }
                self.ip = self.ip + 1;
                proof {
                    assert(self@.stack =~= s0.stack.subrange(0, l - 2));
                    assert(self@ =~= StateV {
                        stack: s0.stack.subrange(0, l - 2),
                        heap: s0.heap.insert(s0.stack[l - 2], s0.stack[l - 1]),
                        ip: s0.ip + 1,
                        count: bump(s0.count),
                        ..s0
                    });
                }
                StepResult::Continue
            },
            Insn::HeapLoad => {
                if l == 0 {
                    return StepResult::Fatal(VmError::StackUnderflow);
                }
                match heap_get(&self.heap, &self.stack[l - 1]) {
                    Some(v) => {
                        let _ = self.stack.pop();
                        self.stack.push(v);
                        if self.count < u64::MAX {
                            self.count = self.count + 1;
                        }
                        self.ip = self.ip + 1;
                        proof {
                            assert(self@.stack =~= s0.stack.drop_last().push(
                                s0.heap[s0.stack[l - 1]],
                            ));
                            assert(self@ =~= StateV {
                                stack: s0.stack.drop_last().push(s0.heap[s0.stack[l - 1]]),
                                ip: s0.ip + 1,
                                count: bump(s0.count),
                                ..s0
                            });
                        }
                        StepResult::Continue
                    },
                    None => StepResult::Fatal(VmError::MissingHeapKey),
                }
            },
            Insn::ReadChar => {
                if l == 0 {
                    return StepResult::Fatal(VmError::StackUnderflow);
                }
                StepResult::NeedChar
            },
            Insn::ReadNumber => {
                if l == 0 {
                    return StepResult::Fatal(VmError::StackUnderflow);
                }
                StepResult::NeedLine
            },
            Insn::PrintChar => {
                if l == 0 {
                    return StepResult::Fatal(VmError::StackUnderflow);
                }
                let byte = match self.stack[l - 1].to_index() {
                    Some(u) => {
                        if u <= 255 {
                            u as u8
                        } else {
                            return StepResult::Fatal(VmError::CharRangeError);
                        }
                    },
                    None => {
                        return StepResult::Fatal(VmError::CharRangeError);
                    },
                };
                let _ = self.stack.pop();
                self.out.push(byte);
                if self.count < u64::MAX {
                    self.count = self.count + 1;
                }
                self.ip = self.ip + 1;
                proof {
                    assert(self@.stack =~= s0.stack.drop_last());
                    assert(self@ =~= StateV {
                        stack: s0.stack.drop_last(),
                        out: s0.out.push(s0.stack[l - 1] as u8),
                        ip: s0.ip + 1,
                        count: bump(s0.count),
                        ..s0
                    });
                }
                StepResult::Continue
            },
            Insn::PrintNumber => {
                if l == 0 {
                    return StepResult::Fatal(VmError::StackUnderflow);
                }
                let v = self.stack.pop().unwrap();
                let mut bytes = num_to_decimal(&v);
                self.out.append(&mut bytes);
                if self.count < u64::MAX {
                    self.count = self.count + 1;
                }
                self.ip = self.ip + 1;
                proof {
                    assert(self@.stack =~= s0.stack.drop_last());
                    assert(self@ =~= StateV {
                        stack: s0.stack.drop_last(),
                        out: s0.out + dec_repr(s0.stack[l - 1]),
                        ip: s0.ip + 1,
                        count: bump(s0.count),
                        ..s0
                    });
                }
                StepResult::Continue
            },
            Insn::Exit => {
                if self.count < u64::MAX {
                    self.count = self.count + 1;
                }
                proof {
                    assert(self@ =~= StateV { count: bump(s0.count), ..s0 });
                }
                StepResult::Done
            },
        }
    }
}

/// Whether a byte is ASCII whitespace, as trimmed from the end of a line
/// read for `ReadNumber`.
pub open spec fn is_ws(b: u8) -> bool {
    b == 32 || b == 9 || b == 10 || b == 11 || b == 12 || b == 13
}

/// The line with its trailing whitespace removed.
pub open spec fn trim_ws_end(s: Seq<u8>) -> Seq<u8>
    decreases s.len(),
{
    if s.len() > 0 && is_ws(s[s.len() - 1]) {
        trim_ws_end(s.drop_last())
    } else {
        s
    }
}

/// Whether a byte is an ASCII decimal digit.
pub open spec fn is_dec_digit(b: u8) -> bool {
    48 <= b <= 57
}

/// Every byte from position `i` on is a decimal digit.
pub open spec fn all_digits_from(s: Seq<u8>, i: int) -> bool {
    forall|j: int| i <= j < s.len() ==> is_dec_digit(#[trigger] s[j])
}

/// The value of the decimal digits of `s` from position `i` on, folded
/// onto `acc`.
pub open spec fn digits_val(s: Seq<u8>, i: int, acc: int) -> int
    decreases s.len() - i,
{
    if i >= s.len() {
        acc
    } else {
        digits_val(s, i + 1, acc * 10 + (s[i] - 48))
    }
}

/// The decimal integer a byte string denotes: an optional sign followed
/// by one or more digits, nothing else.
pub open spec fn parse_dec(s: Seq<u8>) -> Option<int> {
    if s.len() == 0 {
        None
    } else if s[0] == 43 || s[0] == 45 {
        if s.len() > 1 && all_digits_from(s, 1) {
            Some(if s[0] == 45 { -digits_val(s, 1, 0) } else { digits_val(s, 1, 0) })
        } else {
            None
        }
    } else if all_digits_from(s, 0) {
        Some(digits_val(s, 0, 0))
    } else {
        None
    }
}

/// Parse the decimal integer on a line, after trimming trailing
/// whitespace.
fn parse_decimal(sbytes: &Vec<u8>) -> (r: Option<Number>)
    ensures
        match r {
            Some(v) => v.wf() && parse_dec(trim_ws_end(sbytes@)) == Some(v@),
            None => parse_dec(trim_ws_end(sbytes@)) is None,
        },
{
    let mut end = sbytes.len();
    proof {
        assert(sbytes@.subrange(0, sbytes@.len() as int) =~= sbytes@);
    }
    while end > 0 && (sbytes[end - 1] == 32 || sbytes[end - 1] == 9 || sbytes[end - 1] == 10
        || sbytes[end - 1] == 11 || sbytes[end - 1] == 12 || sbytes[end - 1] == 13)
        invariant
            end <= sbytes@.len(),
            trim_ws_end(sbytes@) == trim_ws_end(sbytes@.subrange(0, end as int)),
        decreases end,
    {
        proof {
            assert(sbytes@.subrange(0, end as int).drop_last() =~= sbytes@.subrange(
                0,
                end - 1,
            ));
        }
        end = end - 1;
    }
    let ghost t = sbytes@.subrange(0, end as int);
    proof {
        assert(trim_ws_end(t) == t);
        assert(trim_ws_end(sbytes@) == t);
    }
    if end == 0 {
        return None;
    }
    let first = sbytes[0];
    let neg = first == 45;
    let start: usize = if first == 45 || first == 43 {
        1
    } else {
        0
    };
    if end <= start {
        proof {
            assert(t[0] == sbytes@[0]);
        }
        return None;
    }
    let ten = Number::from_u32(10);
    let mut acc = Number::zero();
    let mut i = start;
    while i < end
        invariant
            start <= i <= end <= sbytes@.len(),
            start <= 1,
            0 < end,
            start < end,
            t == sbytes@.subrange(0, end as int),
            t.len() == end,
            trim_ws_end(sbytes@) == t,
            start == 1 <==> (t[0] == 43 || t[0] == 45),
            neg == (t[0] == 45),
            acc.wf(),
            ten.wf() && ten@ == 10,
            forall|j: int| start <= j < i ==> is_dec_digit(#[trigger] t[j]),
            digits_val(t, start as int, 0) == digits_val(t, i as int, acc@),
        decreases end - i,
    {
        let b = sbytes[i];
        if b < 48 || b > 57 {
            proof {
                assert(t[i as int] == sbytes@[i as int]);
                assert(!is_dec_digit(t[i as int]));
                assert(!all_digits_from(t, start as int));
                if start == 1 {
                    assert(!all_digits_from(t, 1));
                } else {
                    assert(!all_digits_from(t, 0));
                }
            }
            return None;
        }
        let d = Number::from_u32((b - 48) as u32);
        let m = num_mul(&acc, &ten);
        acc = num_add(&m, &d);
        i = i + 1;
    }
    let ghost a0 = acc@;
    proof {
        assert(digits_val(t, start as int, 0) == a0);
        assert(all_digits_from(t, start as int));
        if start == 1 {
            assert(t[0] == 43 || t[0] == 45);
            assert(t.len() > 1);
        } else {
            assert(!(t[0] == 43 || t[0] == 45));
            assert(all_digits_from(t, 0));
        }
        assert(parse_dec(t) == Some(if neg { -a0 } else { a0 }));
    }
    let v = if neg {
        acc.negated()
    } else {
        acc
    };
    Some(v)
}

impl Vm {
    /// Run from the current state for at most `budget` instructions,
    /// until the machine stops — normally or on a fatal error — or asks
    /// for runtime input.  The state reached is one the single-step
    /// semantics reaches from the starting state, and the reported event
    /// is what `step_spec` says of it: the machine neither skips an input
    /// request nor stops early.  `More` means exactly the whole budget
    /// was spent on ordinary steps; running again continues the program,
    /// which itself has no bound.
    pub fn run(&mut self, prog: &Vec<Insn>, labels: &LabelTable, budget: u64) -> (ev: Event)
        requires
            old(self).inv(prog@),
            prog_wf(prog@),
            labels_ok(prog_view(prog@), label_map(*labels)),
        ensures
            final(self).inv(prog@),
            ({
                let p = prog_view(prog@);
                let l = label_map(*labels);
                match ev {
                    Event::Done => exists|n: nat|
                        #[trigger] stepn(p, l, old(self)@, n) matches Some(t)
                            && step_spec(p, l, t) == StepV::Done(final(self)@),
                    Event::NeedChar => (exists|n: nat|
                        #[trigger] stepn(p, l, old(self)@, n) == Some(final(self)@))
                        && step_spec(p, l, final(self)@) == StepV::NeedChar,
                    Event::NeedLine => (exists|n: nat|
                        #[trigger] stepn(p, l, old(self)@, n) == Some(final(self)@))
                        && step_spec(p, l, final(self)@) == StepV::NeedLine,
                    Event::Fatal(e) => (exists|n: nat|
                        #[trigger] stepn(p, l, old(self)@, n) == Some(final(self)@))
                        && step_spec(p, l, final(self)@) == StepV::Fail(e@),
                    Event::More => stepn(p, l, old(self)@, budget as nat) == Some(final(self)@),
                }
            }),
    {
        let ghost p = prog_view(prog@);
        let ghost lm = label_map(*labels);
        let mut k: u64 = 0;
        proof {
            assert(stepn(p, lm, old(self)@, 0) == Some(old(self)@));
        }
        loop
            invariant
                self.inv(prog@),
                prog_wf(prog@),
                labels_ok(p, lm),
                p == prog_view(prog@),
                lm == label_map(*labels),
                k <= budget,
                stepn(p, lm, old(self)@, k as nat) == Some(self@),
            decreases budget - k,
        {
            if k >= budget {
                return Event::More;
            }
            let ghost pre = self@;
            let r = self.step(prog, labels);
            match r {
                StepResult::Continue => {
                    k = k + 1;
                    proof {
                        assert(stepn(p, lm, old(self)@, k as nat) == Some(self@));
                    }
                },
                StepResult::Done => {
                    proof {
                        assert(stepn(p, lm, old(self)@, k as nat) matches Some(t) && step_spec(
                            p,
                            lm,
                            t,
                        ) == StepV::Done(self@));
                    }
                    return Event::Done;
                },
                StepResult::NeedChar => {
                    return Event::NeedChar;
                },
                StepResult::NeedLine => {
                    return Event::NeedLine;
                },
                StepResult::Fatal(e) => {
                    return Event::Fatal(e);
                },
            }
        }
    }

    /// Complete a pending `ReadChar`: pop the key, store the character's
    /// value at it, and advance.
    pub fn supply_char(&mut self, prog: &Vec<Insn>, b: u8)
        requires
            old(self).inv(prog@),
            0 <= old(self)@.ip < prog@.len(),
            prog_view(prog@)[old(self)@.ip] == InsnV::ReadChar,
            old(self)@.stack.len() > 0,
        ensures
            final(self).inv(prog@),
            final(self)@ == char_step(old(self)@, b),
    {
        let bound = prog.len();
        let k = self.stack.pop().unwrap();
        let v = Number::from_u32(b as u32);
        heap_insert(&mut self.heap, &k, &v);
        self.ip = self.ip + 1;
        if self.count < u64::MAX {
            self.count = self.count + 1;
        }
        proof {
            assert(self@.stack =~= old(self)@.stack.drop_last());
            assert(self@ =~= char_step(old(self)@, b));
        }
    }

    /// Complete a pending `ReadNumber`: parse the line as a decimal
    /// integer (trailing whitespace ignored), pop the key, store the
    /// number at it, and advance; an unparsable line is the fatal
    /// `InputParseError`, and changes nothing.
    pub fn supply_line(&mut self, prog: &Vec<Insn>, line: &Vec<u8>) -> (r: Option<VmError>)
        requires
            old(self).inv(prog@),
            0 <= old(self)@.ip < prog@.len(),
            prog_view(prog@)[old(self)@.ip] == InsnV::ReadNumber,
            old(self)@.stack.len() > 0,
        ensures
            final(self).inv(prog@),
            match r {
                None => parse_dec(trim_ws_end(line@)) matches Some(v) && final(self)@
                    == line_step(old(self)@, v),
                Some(e) => parse_dec(trim_ws_end(line@)) is None && e@
                    == ErrorV::InputParseError && final(self)@ == old(self)@,
            },
    {
        let bound = prog.len();
        match parse_decimal(line) {
            Some(v) => {
                let k = self.stack.pop().unwrap();
                heap_insert(&mut self.heap, &k, &v);
                self.ip = self.ip + 1;
                if self.count < u64::MAX {
                    self.count = self.count + 1;
                }
                proof {
                    assert(self@.stack =~= old(self)@.stack.drop_last());
                    assert(self@ =~= line_step(old(self)@, v@));
                }
                None
            },
            None => Some(VmError::InputParseError),
        }
    }
}

} // verus!
