//! The decoder.
//!
//! Source text is a stream of three token characters (space, tab, line
//! feed); every other character is insignificant and skipped.  A rolling
//! accumulator collects token codes in base four until it matches a
//! complete opcode; opcodes that take an argument then consume a sign
//! token, binary digit tokens and a line-feed terminator.  An instruction
//! whose argument or final opcode token is cut off by end of input is
//! silently dropped, and an accumulator value that can no longer begin any
//! opcode silently resets — the tolerant policy, under which every valid
//! program decodes unchanged.
//!
//! The meaning of decoding is given by the spec functions `decode`,
//! `decode_at`, `parse_arg_at` and `arg_bits`; the executable `parse` is
//! proved to produce exactly `decode` of its input.

use vstd::prelude::*;
use crate::num::Number;
use crate::num::num_add;
use crate::insn::Insn;
use crate::insn::InsnV;
use crate::insn::prog_view;
use crate::insn::prog_wf;
use crate::insn::labels_ok;
use crate::store::LabelTable;
use crate::store::label_table_new;
use crate::store::label_insert;
use crate::store::label_map;

verus! {

/// Whether a byte is one of the three significant token characters.
pub open spec fn is_token(b: u8) -> bool {
    b == 32 || b == 9 || b == 10
}

/// The base-four code of a token: space 1, tab 2, line feed 3 (zero is the
/// empty accumulator).
pub open spec fn token_code(b: u8) -> int
    recommends
        is_token(b),
{
    if b == 32 {
        1
    } else if b == 9 {
        2
    } else {
        3
    }
}

/// Whether an accumulator value is a complete opcode that takes a numeric
/// argument.
pub open spec fn takes_arg(c: int) -> bool {
    ||| c == 0b01_01
    ||| c == 0b01_10_01
    ||| c == 0b01_10_11
    ||| c == 0b11_01_01
    ||| c == 0b11_01_10
    ||| c == 0b11_01_11
    ||| c == 0b11_10_01
    ||| c == 0b11_10_10
}

/// The instruction built from an argument-taking opcode and its argument.
pub open spec fn arg_insn(c: int, v: int) -> InsnV
    recommends
        takes_arg(c),
{
    if c == 0b01_01 {
        InsnV::Push(v)
    } else if c == 0b01_10_01 {
        InsnV::Copy(v)
    } else if c == 0b01_10_11 {
        InsnV::Slide(v)
    } else if c == 0b11_01_01 {
        InsnV::Label(v)
    } else if c == 0b11_01_10 {
        InsnV::Call(v)
    } else if c == 0b11_01_11 {
        InsnV::Jump(v)
    } else if c == 0b11_10_01 {
        InsnV::JumpIfZero(v)
    } else {
        InsnV::JumpIfNegative(v)
    }
}

/// The instruction denoted by a complete opcode without argument, if the
/// accumulator value is one.
pub open spec fn plain_insn(c: int) -> Option<InsnV> {
    if c == 0b01_11_11 {
        Some(InsnV::Pop)
    } else if c == 0b01_11_01 {
        Some(InsnV::Dup)
    } else if c == 0b01_11_10 {
        Some(InsnV::Swap)
    } else if c == 0b10_01_01_01 {
        Some(InsnV::Add)
    } else if c == 0b10_01_01_10 {
        Some(InsnV::Sub)
    } else if c == 0b10_01_01_11 {
        Some(InsnV::Mul)
    } else if c == 0b10_01_10_01 {
        Some(InsnV::Div)
    } else if c == 0b10_01_10_10 {
        Some(InsnV::Mod)
    } else if c == 0b10_10_01 {
        Some(InsnV::HeapStore)
    } else if c == 0b10_10_10 {
        Some(InsnV::HeapLoad)
    } else if c == 0b11_10_11 {
        Some(InsnV::Return)
    } else if c == 0b10_11_10_01 {
        Some(InsnV::ReadChar)
    } else if c == 0b10_11_10_10 {
        Some(InsnV::ReadNumber)
    } else if c == 0b10_11_01_01 {
        Some(InsnV::PrintChar)
    } else if c == 0b10_11_01_10 {
        Some(InsnV::PrintNumber)
    } else if c == 0b11_11_11 {
        Some(InsnV::Exit)
    } else {
        None
    }
}

/// Whether an accumulator value is a proper prefix of some opcode.
pub open spec fn is_prefix_code(c: int) -> bool {
    ||| c == 0b01
    ||| c == 0b10
    ||| c == 0b11
    ||| c == 0b01_10
    ||| c == 0b01_11
    ||| c == 0b10_01
    ||| c == 0b10_10
    ||| c == 0b10_11
    ||| c == 0b11_01
    ||| c == 0b11_10
    ||| c == 0b11_11
    ||| c == 0b10_01_01
    ||| c == 0b10_01_10
    ||| c == 0b10_11_01
    ||| c == 0b10_11_10
}

/// The magnitude bits of a numeric argument: binary digits (space 0,
/// tab 1) up to the line-feed terminator.  Yields the value and the index
/// just past the terminator, or nothing when the input ends first.
pub open spec fn arg_bits(src: Seq<u8>, i: int, acc: int) -> Option<(int, int)>
    decreases src.len() - i,
{
    if i >= src.len() {
        None
    } else if !is_token(src[i]) {
        arg_bits(src, i + 1, acc)
    } else if src[i] == 10 {
        Some((acc, i + 1))
    } else if src[i] == 9 {
        arg_bits(src, i + 1, acc * 2 + 1)
    } else {
        arg_bits(src, i + 1, acc * 2)
    }
}

/// A numeric argument beginning at `i`: a sign token (tab means negative)
/// and then the magnitude bits.  Yields the signed value and the index
/// just past the terminator, or nothing when the input ends first.
pub open spec fn parse_arg_at(src: Seq<u8>, i: int) -> Option<(int, int)>
    decreases src.len() - i,
{
    if i >= src.len() {
        None
    } else if !is_token(src[i]) {
        parse_arg_at(src, i + 1)
    } else {
        match arg_bits(src, i + 1, 0) {
            Some((m, nx)) => Some(((if src[i] == 9 { -m } else { m }), nx)),
            None => None,
        }
    }
}

/// A complete argument lies strictly ahead of where it starts and inside
/// the input.
pub proof fn lemma_arg_bits_advances(src: Seq<u8>, i: int, acc: int)
    ensures
        arg_bits(src, i, acc) matches Some(p) ==> i < p.1 <= src.len(),
    decreases src.len() - i,
{
    if i < src.len() {
        if !is_token(src[i]) {
            lemma_arg_bits_advances(src, i + 1, acc);
        } else if src[i] == 9 {
            lemma_arg_bits_advances(src, i + 1, acc * 2 + 1);
        } else if src[i] != 10 {
            lemma_arg_bits_advances(src, i + 1, acc * 2);
        }
    }
}

/// A complete argument with its sign lies strictly ahead of where it
/// starts and inside the input.
pub proof fn lemma_parse_arg_advances(src: Seq<u8>, i: int)
    ensures
        parse_arg_at(src, i) matches Some(p) ==> i < p.1 <= src.len(),
    decreases src.len() - i,
{
    if i < src.len() {
        if !is_token(src[i]) {
            lemma_parse_arg_advances(src, i + 1);
        } else {
            lemma_arg_bits_advances(src, i + 1, 0);
        }
    }
}

/// The result of decoding: the instruction list and the label table.
#[verifier::ext_equal]
pub struct DecodedV {
    pub insns: Seq<InsnV>,
    pub labels: Map<int, int>,
}

/// Decoding from position `i` with accumulator `acc`, the instructions
/// `out` and labels already produced: the meaning of the decoder loop.
pub open spec fn decode_at(src: Seq<u8>, i: int, acc: int, out: Seq<InsnV>, labels: Map<int, int>) -> DecodedV
    decreases src.len() - i,
{
    if i >= src.len() {
        DecodedV { insns: out, labels }
    } else if !is_token(src[i]) {
        decode_at(src, i + 1, acc, out, labels)
    } else {
        let c = acc * 4 + token_code(src[i]);
        if takes_arg(c) {
            match parse_arg_at(src, i + 1) {
                Some((v, nx)) => {
                    proof {
                        lemma_parse_arg_advances(src, i + 1);
                    }
                    if c == 0b11_01_01 {
                        decode_at(
                            src,
                            nx,
                            0,
                            out.push(InsnV::Label(v)),
                            labels.insert(v, out.len() as int),
                        )
                    } else {
                        decode_at(src, nx, 0, out.push(arg_insn(c, v)), labels)
                    }
                }
                None => DecodedV { insns: out, labels },
            }
        } else {
            match plain_insn(c) {
                Some(ins) => decode_at(src, i + 1, 0, out.push(ins), labels),
                None => {
                    if is_prefix_code(c) {
                        decode_at(src, i + 1, c, out, labels)
                    } else {
                        decode_at(src, i + 1, 0, out, labels)
                    }
                }
            }
        }
    }
}

/// The meaning of decoding a whole source text.
pub open spec fn decode(src: Seq<u8>) -> DecodedV {
    decode_at(src, 0, 0, Seq::empty(), Map::empty())
}

/// How an accumulator value classifies: a complete opcode with or without
/// argument, a prefix of one, or a dead value.
enum OpClass {
    Arg,
    Plain(Insn),
    Prefix,
    Unknown,
}

/// Classify an accumulator value against the opcode table.
fn classify(c: u16) -> (r: OpClass)
    ensures
        match r {
            OpClass::Arg => takes_arg(c as int),
            OpClass::Plain(ins) => plain_insn(c as int) == Some(ins@) && ins.wf(),
            OpClass::Prefix => {
                &&& !takes_arg(c as int)
                &&& plain_insn(c as int) is None
                &&& is_prefix_code(c as int)
                &&& c <= 46
            },
            OpClass::Unknown => {
                &&& !takes_arg(c as int)
                &&& plain_insn(c as int) is None
                &&& !is_prefix_code(c as int)
            },
        },
{
    match c {
        0b01_01 | 0b01_10_01 | 0b01_10_11 | 0b11_01_01 | 0b11_01_10 | 0b11_01_11 | 0b11_10_01
            | 0b11_10_10 => OpClass::Arg,
        0b01_11_11 => OpClass::Plain(Insn::Pop),
        0b01_11_01 => OpClass::Plain(Insn::Dup),
        0b01_11_10 => OpClass::Plain(Insn::Swap),
        0b10_01_01_01 => OpClass::Plain(Insn::Add),
        0b10_01_01_10 => OpClass::Plain(Insn::Sub),
        0b10_01_01_11 => OpClass::Plain(Insn::Mul),
        0b10_01_10_01 => OpClass::Plain(Insn::Div),
        0b10_01_10_10 => OpClass::Plain(Insn::Mod),
        0b10_10_01 => OpClass::Plain(Insn::HeapStore),
        0b10_10_10 => OpClass::Plain(Insn::HeapLoad),
        0b11_10_11 => OpClass::Plain(Insn::Return),
        0b10_11_10_01 => OpClass::Plain(Insn::ReadChar),
        0b10_11_10_10 => OpClass::Plain(Insn::ReadNumber),
        0b10_11_01_01 => OpClass::Plain(Insn::PrintChar),
        0b10_11_01_10 => OpClass::Plain(Insn::PrintNumber),
        0b11_11_11 => OpClass::Plain(Insn::Exit),
        0b01 | 0b10 | 0b11 | 0b01_10 | 0b01_11 | 0b10_01 | 0b10_10 | 0b10_11 | 0b11_01
            | 0b11_10 | 0b11_11 | 0b10_01_01 | 0b10_01_10 | 0b10_11_01 | 0b10_11_10
            => OpClass::Prefix,
        _ => OpClass::Unknown,
    }
}

/// Build the instruction for an argument-taking opcode.
fn build_arg_insn(c: u16, n: Number) -> (r: Insn)
    requires
        takes_arg(c as int),
        c != 0b11_01_01,
        n.wf(),
    ensures
        r@ == arg_insn(c as int, n@),
        r.wf(),
{
    if c == 0b01_01 {
        Insn::Push(n)
    } else if c == 0b01_10_01 {
        Insn::Copy(n)
    } else if c == 0b01_10_11 {
        Insn::Slide(n)
    } else if c == 0b11_01_10 {
        Insn::Call(n)
    } else if c == 0b11_01_11 {
        Insn::Jump(n)
    } else if c == 0b11_10_01 {
        Insn::JumpIfZero(n)
    } else {
        Insn::JumpIfNegative(n)
    }
}

/// Read one numeric argument starting at `start`: the sign token, the
/// magnitude bits and the terminator, skipping insignificant characters.
fn parse_arg(src: &Vec<u8>, start: usize) -> (r: Option<(Number, usize)>)
    requires
        start <= src@.len(),
    ensures
        match r {
            Some(p) => {
                &&& p.0.wf()
                &&& parse_arg_at(src@, start as int) == Some((p.0@, p.1 as int))
                &&& start < p.1 <= src@.len()
            },
            None => parse_arg_at(src@, start as int) is None,
        },
{
    let mut i: usize = start;
    while i < src.len() && !(src[i] == 32 || src[i] == 9 || src[i] == 10)
        invariant
            start <= i <= src@.len(),
            parse_arg_at(src@, start as int) == parse_arg_at(src@, i as int),
        decreases src@.len() - i,
    {
        i = i + 1;
    }
    if i == src.len() {
        return None;
    }
    let neg = src[i] == 9;
    let ghost sign_at = i as int;
    i = i + 1;
    let one = Number::from_u32(1);
    let mut acc = Number::zero();
    loop
        invariant
            start <= sign_at,
            sign_at < i <= src@.len(),
            acc.wf(),
            src@.len() == src.len(),
            0 <= sign_at < src@.len(),
            is_token(src@[sign_at]),
            neg == (src@[sign_at] == 9),
            one.wf() && one@ == 1,
            parse_arg_at(src@, start as int) == parse_arg_at(src@, sign_at),
            arg_bits(src@, i as int, acc@) == arg_bits(src@, sign_at + 1, 0),
        decreases src@.len() - i,
    {
        if i >= src.len() {
            return None;
        }
        let b = src[i];
        if b == 10 {
            let ghost acc0 = acc@;
            proof {
                assert(arg_bits(src@, i as int, acc0) == Some((acc0, i as int + 1)));
            }
            let result = if neg {
                acc.negated()
            } else {
                acc
            };
            proof {
                assert(result@ == (if neg { -acc0 } else { acc0 }));
                assert(parse_arg_at(src@, sign_at) == Some((result@, i as int + 1)));
            }
            return Some((result, i + 1));
        } else if b == 9 {
            let doubled = num_add(&acc, &acc);
            acc = num_add(&doubled, &one);
            i = i + 1;
        } else if b == 32 {
            let doubled = num_add(&acc, &acc);
            acc = doubled;
            i = i + 1;
        } else {
            i = i + 1;
        }
    }
}

/// Decode a source text into its instruction list and label table.
///
/// The result is exactly the mathematical `decode` of the input, every
/// instruction argument is well formed, and every label entry points at
/// the `Label` instruction, inside the program, that defined it (the last
/// definition, when a label value is defined more than once).
pub fn parse(src: &Vec<u8>) -> (r: (Vec<Insn>, LabelTable))
    ensures
        prog_wf(r.0@),
        labels_ok(prog_view(r.0@), label_map(r.1)),
        prog_view(r.0@) == decode(src@).insns,
        label_map(r.1) == decode(src@).labels,
{
    let mut insns: Vec<Insn> = Vec::new();
    let mut labels = label_table_new();
    let mut code: u16 = 0;
    let mut i: usize = 0;
    proof {
        assert(prog_view(insns@) =~= Seq::<InsnV>::empty());
        assert(label_map(labels) =~= Map::<int, int>::empty());
    }
    loop
        invariant
            i <= src@.len(),
            src@.len() == src.len(),
            prog_wf(insns@),
            labels_ok(prog_view(insns@), label_map(labels)),
            code == 0 || is_prefix_code(code as int),
            code <= 46,
            decode_at(src@, i as int, code as int, prog_view(insns@), label_map(labels))
                == decode(src@),
        decreases src@.len() - i,
    {
        if i >= src.len() {
            return (insns, labels);
        }
        let b = src[i];
        if !(b == 32 || b == 9 || b == 10) {
            i = i + 1;
        } else {
            let c: u16 = code * 4 + (if b == 32 { 1u16 } else if b == 9 { 2u16 } else { 3u16 });
            proof {
                assert(c as int == code as int * 4 + token_code(b));
            }
            match classify(c) {
                OpClass::Arg => {
                    match parse_arg(src, i + 1) {
                        Some(p) => {
                            let (n, nx) = p;
                            let ghost old_insns = insns@;
                            let ghost old_labels = label_map(labels);
                            if c == 0b11_01_01 {
                                label_insert(&mut labels, &n, insns.len());
                                insns.push(Insn::Label(n));
                                proof {
                                    assert(prog_view(insns@) =~= prog_view(old_insns).push(
                                        InsnV::Label(n@),
                                    ));
                                }
                            } else {
                                let ins = build_arg_insn(c, n);
                                insns.push(ins);
                                proof {
                                    assert(prog_view(insns@) =~= prog_view(old_insns).push(
                                        arg_insn(c as int, n@),
                                    ));
                                }
                            }
                            proof {
                                lemma_labels_ok_extend(
                                    prog_view(old_insns),
                                    old_labels,
                                    prog_view(insns@),
                                    label_map(labels),
                                );
                            }
                            i = nx;
                            code = 0;
                        }
                        None => {
                            return (insns, labels);
                        }
                    }
                }
                OpClass::Plain(ins) => {
                    let ghost old_insns = insns@;
                    proof {
                        assert(prog_view(old_insns.push(ins)) =~= prog_view(old_insns).push(ins@));
                    }
                    insns.push(ins);
                    proof {
                        lemma_labels_ok_push(prog_view(old_insns), label_map(labels), ins@);
                    }
                    i = i + 1;
                    code = 0;
                }
                OpClass::Prefix => {
                    code = c;
                    i = i + 1;
                }
                OpClass::Unknown => {
                    code = 0;
                    i = i + 1;
                }
            }
        }
    }
}

/// Pushing an instruction keeps every label entry pointing at its `Label`.
proof fn lemma_labels_ok_push(p: Seq<InsnV>, labels: Map<int, int>, ins: InsnV)
    requires
        labels_ok(p, labels),
    ensures
        labels_ok(p.push(ins), labels),
{
    assert forall|k: int| #[trigger] labels.contains_key(k) implies {
        &&& 0 <= labels[k] < p.push(ins).len()
        &&& p.push(ins)[labels[k]] == InsnV::Label(k)
    } by {
        assert(p.push(ins)[labels[k]] == p[labels[k]]);
    }
}

/// After one decoding step that pushed an instruction — and, for a label
/// definition, recorded its index — the table still agrees with the
/// program.
proof fn lemma_labels_ok_extend(p: Seq<InsnV>, labels: Map<int, int>, p2: Seq<InsnV>, labels2: Map<int, int>)
    requires
        labels_ok(p, labels),
        p2.len() == p.len() + 1,
        forall|j: int| 0 <= j < p.len() ==> p2[j] == p[j],
        labels2 == labels || exists|v: int|
            labels2 == labels.insert(v, p.len() as int) && p2[p.len() as int] == InsnV::Label(v),
    ensures
        labels_ok(p2, labels2),
{
    assert forall|k: int| #[trigger] labels2.contains_key(k) implies {
        &&& 0 <= labels2[k] < p2.len()
        &&& p2[labels2[k]] == InsnV::Label(k)
    } by {
        if labels2 == labels {
            assert(labels.contains_key(k));
        } else {
            let v = choose|v: int|
                labels2 == labels.insert(v, p.len() as int) && p2[p.len() as int]
                    == InsnV::Label(v);
            if k != v {
                assert(labels.contains_key(k));
            }
        }
    }
}

} // verus!
