//! Laws of the interpreter: properties that relate several instructions,
//! or whole classes of programs, proved once and for all over the
//! single-step semantics `step_spec` and the decoder `decode`.

use vstd::prelude::*;
use crate::insn::InsnV;
use crate::vm::StateV;
use crate::vm::StepV;
use crate::vm::ErrorV;
use crate::vm::init_state;
use crate::vm::step_spec;
use crate::vm::stepn;
use crate::decode::decode_at;
use crate::decode::decode;
use crate::decode::parse_arg_at;
use crate::decode::lemma_parse_arg_advances;
use crate::decode::takes_arg;
use crate::decode::arg_insn;
use crate::decode::plain_insn;
use crate::decode::is_prefix_code;
use crate::decode::is_token;
use crate::decode::token_code;

verus! {

/// The values of the `Push` instructions among the first `upto`
/// instructions, in program order.
pub open spec fn push_values(p: Seq<InsnV>, upto: int) -> Seq<int>
    decreases upto,
{
    if upto <= 0 {
        Seq::empty()
    } else {
        let r = push_values(p, upto - 1);
        match p[upto - 1] {
            InsnV::Push(v) => r.push(v),
            _ => r,
        }
    }
}

/// In a program of only `Push` and `Exit`, every state reached from the
/// start holds exactly the values pushed so far, in push order, with
/// only `Push` instructions behind the pointer.
pub proof fn lemma_push_exit_reachable(prog: Seq<InsnV>, labels: Map<int, int>, n: nat)
    requires
        forall|i: int| 0 <= i < prog.len()
            ==> ((#[trigger] prog[i]) is Push || prog[i] is Exit),
    ensures
        stepn(prog, labels, init_state(), n) matches Some(s) ==> {
            &&& 0 <= s.ip <= prog.len()
            &&& s.stack == push_values(prog, s.ip)
            &&& forall|j: int| 0 <= j < s.ip ==> (#[trigger] prog[j]) is Push
        },
    decreases n,
{
    if n == 0 {
        assert(stepn(prog, labels, init_state(), 0) == Some(init_state()));
        assert(push_values(prog, 0) =~= Seq::<int>::empty());
    } else {
        lemma_push_exit_reachable(prog, labels, (n - 1) as nat);
        match stepn(prog, labels, init_state(), n) {
            Some(s) => {
                let t = stepn(prog, labels, init_state(), (n - 1) as nat).unwrap();
                assert(step_spec(prog, labels, t) == StepV::Next(s));
                assert(0 <= t.ip < prog.len());
                assert(prog[t.ip] is Push);
                match prog[t.ip] {
                    InsnV::Push(v) => {
                        assert(s.stack =~= push_values(prog, t.ip).push(v));
                        assert(s.stack =~= push_values(prog, s.ip));
                    },
                    _ => {},
                }
            },
            None => {},
        }
    }
}

/// A program of only `Push` and `Exit` that terminates normally ends with
/// the stack holding exactly the values pushed before the `Exit` that was
/// reached (or all of them, when the pointer ran off the end), in push
/// order.
pub proof fn lemma_push_exit_final(
    prog: Seq<InsnV>,
    labels: Map<int, int>,
    n: nat,
    s: StateV,
    f: StateV,
)
    requires
        forall|i: int| 0 <= i < prog.len()
            ==> ((#[trigger] prog[i]) is Push || prog[i] is Exit),
        stepn(prog, labels, init_state(), n) == Some(s),
        step_spec(prog, labels, s) == StepV::Done(f),
    ensures
        0 <= f.ip <= prog.len(),
        f.stack == push_values(prog, f.ip),
        forall|j: int| 0 <= j < f.ip ==> (#[trigger] prog[j]) is Push,
{
    lemma_push_exit_reachable(prog, labels, n);
}

/// `Dup` followed by `Add` on a stack whose top is `v` leaves the depth
/// unchanged and the new top equal to `2 * v`, with everything below
/// untouched, for every integer `v`.
pub proof fn lemma_dup_add_doubles(prog: Seq<InsnV>, labels: Map<int, int>, s: StateV)
    requires
        0 <= s.ip,
        s.ip + 1 < prog.len(),
        prog[s.ip] == InsnV::Dup,
        prog[s.ip + 1] == InsnV::Add,
        s.stack.len() >= 1,
    ensures
        step_spec(prog, labels, s) matches StepV::Next(s1)
            && step_spec(prog, labels, s1) matches StepV::Next(s2)
            && s2.stack == s.stack.update(s.stack.len() - 1, 2 * s.stack.last()),
{
    let l = s.stack.len() as int;
    let v = s.stack[l - 1];
    let s1 = StateV {
        stack: s.stack.push(v),
        ip: s.ip + 1,
        count: crate::vm::bump(s.count),
        ..s
    };
    assert(step_spec(prog, labels, s) == StepV::Next(s1));
    match step_spec(prog, labels, s1) {
        StepV::Next(s2) => {
            assert(s2.stack =~= s.stack.update(l - 1, 2 * v));
        },
        _ => {
            assert(false);
        },
    }
}

/// `Copy(n)` only appends: the stack grows by exactly one copied value
/// and every element already there stays in place.
pub proof fn lemma_copy_appends(prog: Seq<InsnV>, labels: Map<int, int>, s: StateV, n: int)
    requires
        0 <= s.ip < prog.len(),
        prog[s.ip] == InsnV::Copy(n),
        0 <= n < s.stack.len(),
    ensures
        step_spec(prog, labels, s) matches StepV::Next(s1)
            && s1.stack.len() == s.stack.len() + 1
            && s1.stack.subrange(0, s.stack.len() as int) == s.stack
            && s1.stack.last() == s.stack[s.stack.len() - 1 - n],
{
    match step_spec(prog, labels, s) {
        StepV::Next(s1) => {
            assert(s1.stack.subrange(0, s.stack.len() as int) =~= s.stack);
        },
        _ => {
            assert(false);
        },
    }
}

/// `Slide(n)` reduces the depth by exactly `n` and preserves the top
/// element.
pub proof fn lemma_slide_drops(prog: Seq<InsnV>, labels: Map<int, int>, s: StateV, n: int)
    requires
        0 <= s.ip < prog.len(),
        prog[s.ip] == InsnV::Slide(n),
        s.stack.len() >= 1,
        0 <= n <= s.stack.len() - 1,
    ensures
        step_spec(prog, labels, s) matches StepV::Next(s1)
            && s1.stack.len() == s.stack.len() - n
            && s1.stack.last() == s.stack.last(),
{
}

/// Division or modulo with a zero right operand is the fatal
/// `ArithmeticError`; a failing step leaves the whole state — the output
/// buffer included — as it was.
pub proof fn lemma_divide_by_zero_fails(prog: Seq<InsnV>, labels: Map<int, int>, s: StateV)
    requires
        0 <= s.ip < prog.len(),
        prog[s.ip] == InsnV::Div || prog[s.ip] == InsnV::Mod,
        s.stack.len() >= 2,
        s.stack.last() == 0,
    ensures
        step_spec(prog, labels, s) == StepV::Fail(ErrorV::ArithmeticError),
{
}

/// `HeapLoad` on a key never stored is the fatal `MissingHeapKey`.
pub proof fn lemma_load_missing_key_fails(prog: Seq<InsnV>, labels: Map<int, int>, s: StateV)
    requires
        0 <= s.ip < prog.len(),
        prog[s.ip] == InsnV::HeapLoad,
        s.stack.len() >= 1,
        !s.heap.contains_key(s.stack.last()),
    ensures
        step_spec(prog, labels, s) == StepV::Fail(ErrorV::MissingHeapKey),
{
}

/// `HeapStore` followed immediately by `HeapLoad` of the same key hands
/// the stored value back unchanged, for every key and value: from a stack
/// ending in `k, k, v`, the two instructions leave `v` on top and the
/// heap holding `v` at `k`.
pub proof fn lemma_store_then_load(
    prog: Seq<InsnV>,
    labels: Map<int, int>,
    s: StateV,
    k: int,
    v: int,
)
    requires
        0 <= s.ip,
        s.ip + 1 < prog.len(),
        prog[s.ip] == InsnV::HeapStore,
        prog[s.ip + 1] == InsnV::HeapLoad,
        s.stack.len() >= 3,
        s.stack[s.stack.len() - 1] == v,
        s.stack[s.stack.len() - 2] == k,
        s.stack[s.stack.len() - 3] == k,
    ensures
        step_spec(prog, labels, s) matches StepV::Next(s1)
            && step_spec(prog, labels, s1) matches StepV::Next(s2)
            && s2.heap == s.heap.insert(k, v)
            && s2.heap[k] == v
            && s2.stack == s.stack.subrange(0, s.stack.len() - 3).push(v),
{
    let l = s.stack.len() as int;
    match step_spec(prog, labels, s) {
        StepV::Next(s1) => {
            assert(s1.stack.len() == l - 2);
            assert(s1.stack[l - 3] == k);
            assert(s1.heap.contains_key(k));
            match step_spec(prog, labels, s1) {
                StepV::Next(s2) => {
                    assert(s2.stack =~= s.stack.subrange(0, l - 3).push(v));
                },
                _ => {
                    assert(false);
                },
            }
        },
        _ => {
            assert(false);
        },
    }
}

/// The label value each table entry maps to the index of the last
/// `Label` instruction that defined it among the first `upto`
/// instructions.
pub open spec fn labels_of(p: Seq<InsnV>, upto: int) -> Map<int, int>
    decreases upto,
{
    if upto <= 0 {
        Map::empty()
    } else {
        let r = labels_of(p, upto - 1);
        match p[upto - 1] {
            InsnV::Label(v) => r.insert(v, upto - 1),
            _ => r,
        }
    }
}

/// The table of last definitions among the first `upto` instructions
/// only reads those instructions.
proof fn lemma_labels_of_prefix(p: Seq<InsnV>, q: Seq<InsnV>, upto: int)
    requires
        0 <= upto <= p.len(),
        p.len() <= q.len(),
        forall|j: int| 0 <= j < upto ==> p[j] == q[j],
    ensures
        labels_of(p, upto) == labels_of(q, upto),
    decreases upto,
{
    if upto > 0 {
        lemma_labels_of_prefix(p, q, upto - 1);
    }
}

/// Decoding resumed from the middle keeps the label table equal to the
/// table of last definitions in the instructions produced.
proof fn lemma_decode_at_labels_last(
    src: Seq<u8>,
    i: int,
    acc: int,
    out: Seq<InsnV>,
    labels: Map<int, int>,
)
    requires
        labels == labels_of(out, out.len() as int),
    ensures
        ({
            let d = decode_at(src, i, acc, out, labels);
            d.labels == labels_of(d.insns, d.insns.len() as int)
        }),
    decreases src.len() - i,
{
    if i >= src.len() {
    } else if !is_token(src[i]) {
        lemma_decode_at_labels_last(src, i + 1, acc, out, labels);
    } else {
        let c = acc * 4 + token_code(src[i]);
        if takes_arg(c) {
            match parse_arg_at(src, i + 1) {
                Some((v, nx)) => {
                    lemma_parse_arg_advances(src, i + 1);
                    if c == 0b11_01_01 {
                        let out2 = out.push(InsnV::Label(v));
                        lemma_labels_of_prefix(out, out2, out.len() as int);
                        assert(labels_of(out2, out2.len() as int) =~= labels.insert(
                            v,
                            out.len() as int,
                        ));
                        lemma_decode_at_labels_last(
                            src,
                            nx,
                            0,
                            out2,
                            labels.insert(v, out.len() as int),
                        );
                    } else {
                        let out2 = out.push(arg_insn(c, v));
                        lemma_labels_of_prefix(out, out2, out.len() as int);
                        assert(labels_of(out2, out2.len() as int) =~= labels);
                        lemma_decode_at_labels_last(src, nx, 0, out2, labels);
                    }
                },
                None => {},
            }
        } else {
            match plain_insn(c) {
                Some(ins) => {
                    let out2 = out.push(ins);
                    lemma_labels_of_prefix(out, out2, out.len() as int);
                    assert(labels_of(out2, out2.len() as int) =~= labels);
                    lemma_decode_at_labels_last(src, i + 1, 0, out2, labels);
                },
                None => {
                    if is_prefix_code(c) {
                        lemma_decode_at_labels_last(src, i + 1, c, out, labels);
                    } else {
                        lemma_decode_at_labels_last(src, i + 1, 0, out, labels);
                    }
                },
            }
        }
    }
}

/// The decoder's label table is the table of last definitions: when a
/// label value is defined more than once, its entry is the index of the
/// later `Label` instruction, so a jump taken anywhere in the program
/// resolves to the last definition.
pub proof fn lemma_labels_last_definition(src: Seq<u8>)
    ensures
        ({
            let d = decode(src);
            d.labels == labels_of(d.insns, d.insns.len() as int)
        }),
{
    assert(labels_of(Seq::<InsnV>::empty(), 0) =~= Map::<int, int>::empty());
    lemma_decode_at_labels_last(src, 0, 0, Seq::empty(), Map::empty());
}

} // verus!
