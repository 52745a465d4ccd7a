//! The instruction model: opcodes, their fixed numbering, instruction
//! records, and the error taxonomy of a failed scan.

use vstd::prelude::*;

verus! {

/// The errors a scan can end with. Every error is fatal to the whole run.
#[derive(Clone, Copy, Debug, PartialEq, Eq, Structural)]
pub enum USMError {
    /// A one- or two-token line whose mnemonic matches no recognized form.
    IllegalToken,
    /// A label declaration missing its required trailing colon.
    IllegalLabel,
    /// An operand that fails integer parsing, or an unrecognized arity.
    InvalidArgument,
}

/// The closed set of operations of the target virtual machine.
#[derive(Clone, Copy, Debug, PartialEq, Eq, Structural)]
pub enum Opcode {
    Push,
    Pop,
    Duplicate,
    Jump,
    JumpIf,
    Equal,
    Add,
    Subtract,
    Multiply,
    Divide,
    Dump,
    Halt,
}

/// The fixed number under which each opcode is rendered.
pub open spec fn op_num(op: Opcode) -> nat {
    match op {
        Opcode::Push => 0,
        Opcode::Pop => 1,
        Opcode::Duplicate => 2,
        Opcode::Jump => 3,
        Opcode::JumpIf => 4,
        Opcode::Equal => 5,
        Opcode::Add => 6,
        Opcode::Subtract => 7,
        Opcode::Multiply => 8,
        Opcode::Divide => 9,
        Opcode::Dump => 10,
        Opcode::Halt => 11,
    }
}

/// The numeric code of an opcode, as written into the output.
pub fn opcode_number(op: Opcode) -> (r: u8)
    ensures
        r as nat == op_num(op),
{
    match op {
        Opcode::Push => 0,
        Opcode::Pop => 1,
        Opcode::Duplicate => 2,
        Opcode::Jump => 3,
        Opcode::JumpIf => 4,
        Opcode::Equal => 5,
        Opcode::Add => 6,
        Opcode::Subtract => 7,
        Opcode::Multiply => 8,
        Opcode::Divide => 9,
        Opcode::Dump => 10,
        Opcode::Halt => 11,
    }
}

/// True of the opcodes whose source form is a bare mnemonic.
pub open spec fn is_zero_operand(op: Opcode) -> bool {
    match op {
        Opcode::Pop | Opcode::Equal | Opcode::Add | Opcode::Subtract | Opcode::Multiply
        | Opcode::Divide | Opcode::Dump | Opcode::Halt => true,
        _ => false,
    }
}

/// One entry of a scanned program.
///
/// `IntOperand` carries the parsed operand of `push` and `dup`; `StrOperand`
/// carries the unresolved label-reference token of `jmp` and `jmpif`;
/// `LabelMarker` records a label declaration by its name.
#[derive(Debug)]
pub enum Instruction {
    NoOperand(Opcode),
    IntOperand(Opcode, i64),
    StrOperand(Opcode, Vec<u8>),
    LabelMarker(Vec<u8>),
}

/// The mathematical shape of an instruction, used by all contracts.
pub enum InstrView {
    NoOperand(Opcode),
    IntOperand(Opcode, int),
    StrOperand(Opcode, Seq<u8>),
    LabelMarker(Seq<u8>),
}

impl View for Instruction {
    type V = InstrView;

    open spec fn view(&self) -> InstrView {
        match self {
            Instruction::NoOperand(op) => InstrView::NoOperand(*op),
            Instruction::IntOperand(op, v) => InstrView::IntOperand(*op, *v as int),
            Instruction::StrOperand(op, s) => InstrView::StrOperand(*op, s@),
            Instruction::LabelMarker(n) => InstrView::LabelMarker(n@),
        }
    }
}

/// The views of a list of instructions.
pub open spec fn instr_views(p: Seq<Instruction>) -> Seq<InstrView> {
    Seq::new(p.len(), |i: int| p[i]@)
}

/// Well-formedness of a scanned instruction: operand kind agrees with the
/// opcode, integer operands fit in 64 bits, and no carried token holds a
/// line break.
pub open spec fn wf_instr(i: InstrView) -> bool {
    match i {
        InstrView::NoOperand(op) => is_zero_operand(op),
        InstrView::IntOperand(op, v) => (op == Opcode::Push || op == Opcode::Duplicate)
            && i64::MIN <= v <= i64::MAX,
        InstrView::StrOperand(op, s) => (op == Opcode::Jump || op == Opcode::JumpIf)
            && (forall|k: int| 0 <= k < s.len() ==> s[k] != 10u8),
        InstrView::LabelMarker(n) => forall|k: int| 0 <= k < n.len() ==> n[k] != 10u8,
    }
}

} // verus!
