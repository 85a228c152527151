//! Assembly emission: the instruction sequence becomes text — a fixed
//! prologue, one line per instruction (a mnemonic and comma-separated
//! operands), and a trailing `ret`.
//!
//! Registers render through the fixed name table; a stack slot `i` renders
//! as the byte offset `i * 8` from the stack pointer; a constant renders
//! with a leading `$`.

use vstd::prelude::*;

use crate::ast::{Data, Instruction, Location};
use crate::tokenizer::chars_to_string;

verus! {

/// The digit character for `d`.
pub open spec fn digit_char(d: int) -> char {
    if d == 0 {
        '0'
    } else if d == 1 {
        '1'
    } else if d == 2 {
        '2'
    } else if d == 3 {
        '3'
    } else if d == 4 {
        '4'
    } else if d == 5 {
        '5'
    } else if d == 6 {
        '6'
    } else if d == 7 {
        '7'
    } else if d == 8 {
        '8'
    } else {
        '9'
    }
}

/// The decimal rendering of `n`, most significant digit first, no sign and
/// no leading zero (a lone `0` for zero).
pub open spec fn spec_dec(n: nat) -> Seq<char>
    decreases n,
{
    if n < 10 {
        seq![digit_char(n as int)]
    } else {
        spec_dec(n / 10) + seq![digit_char((n % 10) as int)]
    }
}

/// The decimal rendering of a possibly negative value.
pub open spec fn spec_int_dec(v: int) -> Seq<char> {
    if v >= 0 {
        spec_dec(v as nat)
    } else {
        "-"@ + spec_dec((-v) as nat)
    }
}

/// The name of register `n`; registers the renderer does not know have no
/// name (callers require `n <= 5`).
pub open spec fn spec_reg_gas(n: int) -> Seq<char> {
    if n == 0 {
        "%rbx"@
    } else if n == 1 {
        "%rcx"@
    } else if n == 2 {
        "%rdx"@
    } else if n == 3 {
        "%r12"@
    } else if n == 4 {
        "%r13"@
    } else if n == 5 {
        "%r14"@
    } else {
        Seq::empty()
    }
}

/// The rendering of a location: a register name, or a stack-pointer
/// offset.
pub open spec fn spec_loc_gas(l: Location) -> Seq<char> {
    match l {
        Location::Register(n) => spec_reg_gas(n as int),
        Location::StackIndex(i) => spec_dec((i * 8) as nat) + "(%rsp)"@,
    }
}

/// The rendering of an operand: a location, or an immediate `$` constant.
pub open spec fn spec_data_gas(d: Data) -> Seq<char> {
    match d {
        Data::Loc(l) => spec_loc_gas(l),
        Data::Constant(v) => "$"@ + spec_int_dec(v as int),
    }
}

/// The rendering of one instruction line, without its newline.
pub open spec fn spec_instr_gas(i: Instruction) -> Seq<char> {
    match i {
        Instruction::Add { source, dest } => "addq "@ + spec_data_gas(source) + ", "@
            + spec_loc_gas(dest),
        Instruction::Mul { factor1, factor2 } => "imulq "@ + spec_data_gas(factor1) + ", "@
            + spec_data_gas(factor2),
        Instruction::Move { source, dest } => "movq "@ + spec_data_gas(source) + ", "@
            + spec_loc_gas(dest),
        Instruction::Push { source } => "pushq "@ + spec_data_gas(source),
    }
}

/// A location the renderer accepts: any stack slot, and only the six named
/// registers.
pub open spec fn loc_renderable(l: Location) -> bool {
    match l {
        Location::Register(n) => n <= 5,
        Location::StackIndex(_) => true,
    }
}

/// An operand the renderer accepts.
pub open spec fn data_renderable(d: Data) -> bool {
    match d {
        Data::Loc(l) => loc_renderable(l),
        Data::Constant(_) => true,
    }
}

/// An instruction the renderer accepts.
pub open spec fn instr_renderable(i: Instruction) -> bool {
    match i {
        Instruction::Add { source, dest } => data_renderable(source) && loc_renderable(dest),
        Instruction::Mul { factor1, factor2 } => data_renderable(factor1) && data_renderable(
            factor2,
        ),
        Instruction::Move { source, dest } => data_renderable(source) && loc_renderable(dest),
        Instruction::Push { source } => data_renderable(source),
    }
}

/// An instruction sequence the renderer accepts.
pub open spec fn instrs_renderable(instrs: Seq<Instruction>) -> bool {
    forall|k: int| 0 <= k < instrs.len() ==> instr_renderable(#[trigger] instrs[k])
}

/// The fixed text that precedes the instruction lines.
pub open spec fn spec_prologue() -> Seq<char> {
    ".global _start\n"@ + ".text\n"@ + "_start:\n"@
}

/// The instruction lines, one per instruction, each ended by a newline.
pub open spec fn spec_instr_lines(instrs: Seq<Instruction>) -> Seq<char>
    decreases instrs.len(),
{
    if instrs.len() == 0 {
        Seq::empty()
    } else {
        spec_instr_lines(instrs.drop_last()) + spec_instr_gas(instrs.last()) + "\n"@
    }
}

/// The full assembly text: prologue, instruction lines, trailing `ret`.
pub open spec fn spec_program_gas(instrs: Seq<Instruction>) -> Seq<char> {
    spec_prologue() + spec_instr_lines(instrs) + "ret\n"@
}

/// The digit character for `d`.
fn digit_to_char(d: u128) -> (c: char)
    requires
        d <= 9,
    ensures
        c == digit_char(d as int),
{
    if d == 0 {
        '0'
    } else if d == 1 {
        '1'
    } else if d == 2 {
        '2'
    } else if d == 3 {
        '3'
    } else if d == 4 {
        '4'
    } else if d == 5 {
        '5'
    } else if d == 6 {
        '6'
    } else if d == 7 {
        '7'
    } else if d == 8 {
        '8'
    } else {
        '9'
    }
}

/// Prepending a just-extracted digit is the same as reversing afterwards.
proof fn lemma_reverse_push<A>(s: Seq<A>, x: A)
    ensures
        s.push(x).reverse() == seq![x] + s.reverse(),
{
    assert(s.push(x).reverse() =~= seq![x] + s.reverse());
}

/// The decimal digits of `n`.
fn dec_chars(n: u128) -> (r: Vec<char>)
    ensures
        r@ == spec_dec(n as nat),
{
    if n <= 9 {
        let c = digit_to_char(n);
        let mut out: Vec<char> = Vec::new();
        out.push(c);
        proof {
            assert(out@ =~= spec_dec(n as nat));
        }
        return out;
    }
    let mut rev: Vec<char> = Vec::new();
    let mut m = n;
    while m > 0
        invariant
            spec_dec(n as nat) == (if m > 0 {
                spec_dec(m as nat)
            } else {
                Seq::<char>::empty()
            }) + rev@.reverse(),
        decreases m,
    {
        let d = m % 10;
        let c = digit_to_char(d);
        proof {
            lemma_reverse_push(rev@, c);
            if m >= 10 {
                assert(spec_dec(m as nat) == spec_dec((m as nat) / 10) + seq![
                    digit_char(((m as nat) % 10) as int),
                ]);
            }
            assert((m as nat) / 10 == (m / 10) as nat);
            assert((m as nat) % 10 == (m % 10) as nat);
        }
        rev.push(c);
        m = m / 10;
        proof {
            assert((if m > 0 {
                spec_dec(m as nat)
            } else {
                Seq::<char>::empty()
            }) + rev@.reverse() =~= spec_dec(n as nat));
        }
    }
    let k = rev.len();
    let mut out: Vec<char> = Vec::new();
    let mut idx: usize = 0;
    while idx < k
        invariant
            idx <= k,
            k == rev@.len(),
            spec_dec(n as nat) == rev@.reverse(),
            out@ == rev@.reverse().take(idx as int),
        decreases k - idx,
    {
        out.push(rev[k - 1 - idx]);
        idx = idx + 1;
        proof {
            assert(out@ =~= rev@.reverse().take(idx as int));
        }
    }
    proof {
        assert(rev@.reverse().take(k as int) =~= rev@.reverse());
    }
    out
}

/// The decimal digits of a possibly negative value.
fn int_dec_chars(v: i32) -> (r: Vec<char>)
    ensures
        r@ == spec_int_dec(v as int),
{
    if v >= 0 {
        dec_chars(v as u128)
    } else {
        let m: u128 = (-(v as i64)) as u128;
        let digits = dec_chars(m);
        let mut out: Vec<char> = Vec::new();
        out.push('-');
        let mut i: usize = 0;
        let k = digits.len();
        while i < k
            invariant
                i <= k,
                k == digits@.len(),
                out@ == seq!['-'] + digits@.take(i as int),
            decreases k - i,
        {
            out.push(digits[i]);
            i = i + 1;
            proof {
                assert(out@ =~= seq!['-'] + digits@.take(i as int));
            }
        }
        proof {
            assert(digits@.take(k as int) =~= digits@);
            proof_minus_literal();
            assert(out@ =~= spec_int_dec(v as int));
        }
        out
    }
}

/// The view of the `-` literal is the minus character.
proof fn proof_minus_literal()
    ensures
        "-"@ =~= seq!['-'],
{
    reveal_strlit("-");
}

/// Render a location: a register name from the fixed table, or a
/// stack-pointer byte offset.
pub fn reg_to_gas(reg: &Location) -> (r: String)
    requires
        loc_renderable(*reg),
    ensures
        r@ == spec_loc_gas(*reg),
{
    match reg {
        Location::Register(n) => {
            if *n == 0 {
                "%rbx".to_owned()
            } else if *n == 1 {
                "%rcx".to_owned()
            } else if *n == 2 {
                "%rdx".to_owned()
            } else if *n == 3 {
                "%r12".to_owned()
            } else if *n == 4 {
                "%r13".to_owned()
            } else {
                "%r14".to_owned()
            }
        },
        Location::StackIndex(i) => {
            let off: u128 = (*i as u128) * 8;
            let digits = dec_chars(off);
            let mut s = chars_to_string(&digits);
            s.append("(%rsp)");
            s
        },
    }
}

/// Render an operand: a location, or an immediate `$` constant.
pub fn data_to_gas(data: &Data) -> (r: String)
    requires
        data_renderable(*data),
    ensures
        r@ == spec_data_gas(*data),
{
    match data {
        Data::Loc(l) => reg_to_gas(l),
        Data::Constant(v) => {
            let mut s = "$".to_owned();
            let digits = int_dec_chars(*v);
            let ds = chars_to_string(&digits);
            s.append(ds.as_str());
            s
        },
    }
}

/// Render one instruction line, without its newline.
pub fn instr_to_str(instruction: &Instruction) -> (r: String)
    requires
        instr_renderable(*instruction),
    ensures
        r@ == spec_instr_gas(*instruction),
{
    match instruction {
        Instruction::Add { source, dest } => {
            let mut s = "addq ".to_owned();
            s.append(data_to_gas(source).as_str());
            s.append(", ");
            s.append(reg_to_gas(dest).as_str());
            s
        },
        Instruction::Mul { factor1, factor2 } => {
            let mut s = "imulq ".to_owned();
            s.append(data_to_gas(factor1).as_str());
            s.append(", ");
            s.append(data_to_gas(factor2).as_str());
            s
        },
        Instruction::Move { source, dest } => {
            let mut s = "movq ".to_owned();
            s.append(data_to_gas(source).as_str());
            s.append(", ");
            s.append(reg_to_gas(dest).as_str());
            s
        },
        Instruction::Push { source } => {
            let mut s = "pushq ".to_owned();
            s.append(data_to_gas(source).as_str());
            s
        },
    }
}

/// Render a whole program: the fixed prologue, one line per instruction,
/// and the trailing `ret`.
pub fn program_to_gas(instructions: &Vec<Instruction>) -> (r: String)
    requires
        instrs_renderable(instructions@),
    ensures
        r@ == spec_program_gas(instructions@),
{
    let mut s = ".global _start\n".to_owned();
    s.append(".text\n");
    s.append("_start:\n");
    let n = instructions.len();
    let mut i: usize = 0;
    while i < n
        invariant
            i <= n,
            n == instructions@.len(),
            instrs_renderable(instructions@),
            s@ == spec_prologue() + spec_instr_lines(instructions@.take(i as int)),
        decreases n - i,
    {
        let line = instr_to_str(&instructions[i]);
        s.append(line.as_str());
        s.append("\n");
        i = i + 1;
        proof {
            let taken = instructions@.take(i as int);
            assert(taken.drop_last() =~= instructions@.take(i as int - 1));
            assert(taken.last() == instructions@[i as int - 1]);
            assert(s@ =~= spec_prologue() + spec_instr_lines(taken));
        }
    }
    proof {
        assert(instructions@.take(n as int) =~= instructions@);
    }
    s.append("ret\n");
    s
}

/// Whatever the instructions are, the emitted text begins with the fixed
/// prologue and ends with the trailing `ret` line.
pub proof fn lemma_program_text_shape(instrs: Seq<Instruction>)
    ensures
        spec_program_gas(instrs).len() >= spec_prologue().len() + "ret\n"@.len(),
        spec_program_gas(instrs).take(spec_prologue().len() as int) == spec_prologue(),
        spec_program_gas(instrs).skip(
            spec_program_gas(instrs).len() - "ret\n"@.len(),
        ) == "ret\n"@,
{
    let t = spec_program_gas(instrs);
    assert(t.take(spec_prologue().len() as int) =~= spec_prologue());
    assert(t.skip(t.len() - "ret\n"@.len()) =~= "ret\n"@);
}

} // verus!
