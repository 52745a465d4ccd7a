//! The tokenizer and the line classifier: a line's tokens become zero or
//! one instruction, or the error that aborts the scan.

use vstd::prelude::*;

use crate::instr::{Instruction, InstrView, Opcode, USMError};
use crate::num::{int_literal_val, is_int_literal, parse_i64};
use crate::text::{split, split_bytes, subvec, trim, trim_bytes, views_of};

verus! {

/// What classifying one line yields: an instruction, nothing (a comment),
/// or the error that ends the run.
pub enum LineClass {
    Emit(InstrView),
    Skip,
    Fail(USMError),
}

/// The executable counterpart of `LineClass`.
pub enum LineStep {
    Emit(Instruction),
    Skip,
    Fail(USMError),
}

impl View for LineStep {
    type V = LineClass;

    open spec fn view(&self) -> LineClass {
        match self {
            LineStep::Emit(i) => LineClass::Emit(i@),
            LineStep::Skip => LineClass::Skip,
            LineStep::Fail(e) => LineClass::Fail(*e),
        }
    }
}

/// The mnemonic `pop`.
pub open spec fn is_kw_pop(t: Seq<u8>) -> bool {
    t.len() == 3 && t[0] == 112 && t[1] == 111 && t[2] == 112
}

/// The mnemonic `eql`.
pub open spec fn is_kw_eql(t: Seq<u8>) -> bool {
    t.len() == 3 && t[0] == 101 && t[1] == 113 && t[2] == 108
}

/// The mnemonic `add`.
pub open spec fn is_kw_add(t: Seq<u8>) -> bool {
    t.len() == 3 && t[0] == 97 && t[1] == 100 && t[2] == 100
}

/// The mnemonic `sub`.
pub open spec fn is_kw_sub(t: Seq<u8>) -> bool {
    t.len() == 3 && t[0] == 115 && t[1] == 117 && t[2] == 98
}

/// The mnemonic `mult`.
pub open spec fn is_kw_mult(t: Seq<u8>) -> bool {
    t.len() == 4 && t[0] == 109 && t[1] == 117 && t[2] == 108 && t[3] == 116
}

/// The mnemonic `div`.
pub open spec fn is_kw_div(t: Seq<u8>) -> bool {
    t.len() == 3 && t[0] == 100 && t[1] == 105 && t[2] == 118
}

/// The mnemonic `dump`.
pub open spec fn is_kw_dump(t: Seq<u8>) -> bool {
    t.len() == 4 && t[0] == 100 && t[1] == 117 && t[2] == 109 && t[3] == 112
}

/// The mnemonic `halt`.
pub open spec fn is_kw_halt(t: Seq<u8>) -> bool {
    t.len() == 4 && t[0] == 104 && t[1] == 97 && t[2] == 108 && t[3] == 116
}

/// The mnemonic `push`.
pub open spec fn is_kw_push(t: Seq<u8>) -> bool {
    t.len() == 4 && t[0] == 112 && t[1] == 117 && t[2] == 115 && t[3] == 104
}

/// The mnemonic `dup`.
pub open spec fn is_kw_dup(t: Seq<u8>) -> bool {
    t.len() == 3 && t[0] == 100 && t[1] == 117 && t[2] == 112
}

/// The mnemonic `jmp`.
pub open spec fn is_kw_jmp(t: Seq<u8>) -> bool {
    t.len() == 3 && t[0] == 106 && t[1] == 109 && t[2] == 112
}

/// The mnemonic `jmpif`.
pub open spec fn is_kw_jmpif(t: Seq<u8>) -> bool {
    t.len() == 5 && t[0] == 106 && t[1] == 109 && t[2] == 112 && t[3] == 105 && t[4] == 102
}

/// The opcode of a zero-operand mnemonic, if the token is one.
pub open spec fn spec_zero_op(t: Seq<u8>) -> Option<Opcode> {
    if is_kw_pop(t) {
        Some(Opcode::Pop)
    } else if is_kw_eql(t) {
        Some(Opcode::Equal)
    } else if is_kw_add(t) {
        Some(Opcode::Add)
    } else if is_kw_sub(t) {
        Some(Opcode::Subtract)
    } else if is_kw_mult(t) {
        Some(Opcode::Multiply)
    } else if is_kw_div(t) {
        Some(Opcode::Divide)
    } else if is_kw_dump(t) {
        Some(Opcode::Dump)
    } else if is_kw_halt(t) {
        Some(Opcode::Halt)
    } else {
        None
    }
}

fn zero_op_opcode(t: &Vec<u8>) -> (r: Option<Opcode>)
    ensures
        r == spec_zero_op(t@),
{
    if t.len() == 3 && t[0] == 112 && t[1] == 111 && t[2] == 112 {
        Some(Opcode::Pop)
    } else if t.len() == 3 && t[0] == 101 && t[1] == 113 && t[2] == 108 {
        Some(Opcode::Equal)
    } else if t.len() == 3 && t[0] == 97 && t[1] == 100 && t[2] == 100 {
        Some(Opcode::Add)
    } else if t.len() == 3 && t[0] == 115 && t[1] == 117 && t[2] == 98 {
        Some(Opcode::Subtract)
    } else if t.len() == 4 && t[0] == 109 && t[1] == 117 && t[2] == 108 && t[3] == 116 {
        Some(Opcode::Multiply)
    } else if t.len() == 3 && t[0] == 100 && t[1] == 105 && t[2] == 118 {
        Some(Opcode::Divide)
    } else if t.len() == 4 && t[0] == 100 && t[1] == 117 && t[2] == 109 && t[3] == 112 {
        Some(Opcode::Dump)
    } else if t.len() == 4 && t[0] == 104 && t[1] == 97 && t[2] == 108 && t[3] == 116 {
        Some(Opcode::Halt)
    } else {
        None
    }
}

/// Classification of a one-token line: a zero-operand mnemonic, a label
/// declaration opened by `'` and closed by `:`, or an illegal token.
pub open spec fn classify_one(t: Seq<u8>) -> LineClass {
    match spec_zero_op(t) {
        Some(op) => LineClass::Emit(InstrView::NoOperand(op)),
        None => if t.len() > 0 && t[0] == 39 {
            let body = trim(t.drop_first());
            if body.len() > 0 && body.last() == 58 {
                LineClass::Emit(InstrView::LabelMarker(trim(body.drop_last())))
            } else {
                LineClass::Fail(USMError::IllegalLabel)
            }
        } else {
            LineClass::Fail(USMError::IllegalToken)
        },
    }
}

/// Classification of a two-token line: `push`/`dup` with an integer
/// operand, `jmp`/`jmpif` with an unresolved label reference, or an
/// illegal token.
pub open spec fn classify_two(m: Seq<u8>, arg: Seq<u8>) -> LineClass {
    if is_kw_push(m) || is_kw_dup(m) {
        if is_int_literal(arg) && i64::MIN <= int_literal_val(arg) <= i64::MAX {
            LineClass::Emit(
                InstrView::IntOperand(
                    if is_kw_push(m) {
                        Opcode::Push
                    } else {
                        Opcode::Duplicate
                    },
                    int_literal_val(arg),
                ),
            )
        } else {
            LineClass::Fail(USMError::InvalidArgument)
        }
    } else if is_kw_jmp(m) {
        LineClass::Emit(InstrView::StrOperand(Opcode::Jump, arg))
    } else if is_kw_jmpif(m) {
        LineClass::Emit(InstrView::StrOperand(Opcode::JumpIf, arg))
    } else {
        LineClass::Fail(USMError::IllegalToken)
    }
}

/// Classification of a line by the arity of its token list. A line of
/// neither one nor two tokens is a comment when its first token opens
/// with `#`, and is otherwise rejected.
pub open spec fn classify_tokens(toks: Seq<Seq<u8>>) -> LineClass {
    if toks.len() == 1 {
        classify_one(toks[0])
    } else if toks.len() == 2 {
        classify_two(toks[0], toks[1])
    } else if toks.len() > 1 && toks[0].len() > 0 && toks[0][0] == 35 {
        LineClass::Skip
    } else {
        LineClass::Fail(USMError::InvalidArgument)
    }
}

/// The tokens of one source line: the line is trimmed, cut at single
/// spaces, and each token is trimmed in turn.
pub open spec fn line_tokens(line: Seq<u8>) -> Seq<Seq<u8>> {
    split(trim(line), 32).map_values(|t: Seq<u8>| trim(t))
}

/// Classification of one raw source line.
pub open spec fn classify_line(line: Seq<u8>) -> LineClass {
    classify_tokens(line_tokens(line))
}

fn classify_one_tok(t: &Vec<u8>) -> (r: LineStep)
    ensures
        r@ == classify_one(t@),
{
    match zero_op_opcode(t) {
        Some(op) => LineStep::Emit(Instruction::NoOperand(op)),
        None => {
            if t.len() > 0 && t[0] == 39 {
                let tail = subvec(t, 1, t.len());
                proof {
                    assert(tail@ =~= t@.drop_first());
                }
                let body = trim_bytes(&tail);
                if body.len() > 0 && body[body.len() - 1] == 58 {
                    let head = subvec(&body, 0, body.len() - 1);
                    proof {
                        assert(head@ =~= body@.drop_last());
                    }
                    let name = trim_bytes(&head);
                    LineStep::Emit(Instruction::LabelMarker(name))
                } else {
                    LineStep::Fail(USMError::IllegalLabel)
                }
            } else {
                LineStep::Fail(USMError::IllegalToken)
            }
        },
    }
}

fn classify_two_tok(m: &Vec<u8>, arg: &Vec<u8>) -> (r: LineStep)
    ensures
        r@ == classify_two(m@, arg@),
{
    let is_push = m.len() == 4 && m[0] == 112 && m[1] == 117 && m[2] == 115 && m[3] == 104;
    let is_dup = m.len() == 3 && m[0] == 100 && m[1] == 117 && m[2] == 112;
    if is_push || is_dup {
        match parse_i64(arg) {
            Some(v) => LineStep::Emit(
                Instruction::IntOperand(
                    if is_push {
                        Opcode::Push
                    } else {
                        Opcode::Duplicate
                    },
                    v,
                ),
            ),
            None => LineStep::Fail(USMError::InvalidArgument),
        }
    } else if m.len() == 3 && m[0] == 106 && m[1] == 109 && m[2] == 112 {
        let arg_copy = subvec(arg, 0, arg.len());
        proof {
            assert(arg_copy@ =~= arg@);
        }
        LineStep::Emit(Instruction::StrOperand(Opcode::Jump, arg_copy))
    } else if m.len() == 5 && m[0] == 106 && m[1] == 109 && m[2] == 112 && m[3] == 105 && m[4]
        == 102 {
        let arg_copy = subvec(arg, 0, arg.len());
        proof {
            assert(arg_copy@ =~= arg@);
        }
        LineStep::Emit(Instruction::StrOperand(Opcode::JumpIf, arg_copy))
    } else {
        LineStep::Fail(USMError::IllegalToken)
    }
}

/// Classifies an already tokenized line.
pub fn classify_line_tokens(toks: &Vec<Vec<u8>>) -> (r: LineStep)
    ensures
        r@ == classify_tokens(views_of(toks@)),
{
    if toks.len() == 1 {
        classify_one_tok(&toks[0])
    } else if toks.len() == 2 {
        classify_two_tok(&toks[0], &toks[1])
    } else if toks.len() > 1 && toks[0].len() > 0 && toks[0][0] == 35 {
        LineStep::Skip
    } else {
        LineStep::Fail(USMError::InvalidArgument)
    }
}

/// Cuts one raw source line into its trimmed tokens.
pub fn tokenize(line: &Vec<u8>) -> (r: Vec<Vec<u8>>)
    ensures
        views_of(r@) == line_tokens(line@),
{
    let trimmed = trim_bytes(line);
    let raw = split_bytes(&trimmed, 32);
    let mut out: Vec<Vec<u8>> = Vec::new();
    let mut i: usize = 0;
    while i < raw.len()
        invariant
            0 <= i <= raw.len(),
            views_of(raw@) == split(trim(line@), 32),
            views_of(out@) =~~= line_tokens(line@).take(i as int),
        decreases raw.len() - i,
    {
        let t = trim_bytes(&raw[i]);
        let ghost prev = out@;
        out.push(t);
        proof {
            assert(views_of(out@) =~~= views_of(prev).push(t@));
            assert(line_tokens(line@)[i as int] == trim(views_of(raw@)[i as int]));
            assert(line_tokens(line@).take(i + 1) =~~= line_tokens(line@).take(i as int).push(
                line_tokens(line@)[i as int],
            ));
        }
        i = i + 1;
    }
    proof {
        assert(line_tokens(line@).take(i as int) =~~= line_tokens(line@));
    }
    out
}

} // verus!
