//! The serializer: a completed program rendered as decimal text, one
//! instruction per line, in program order.

use vstd::prelude::*;

use crate::instr::{instr_views, op_num, opcode_number, Instruction, InstrView};
use crate::num::{dec_rep, fmt_i64, fmt_u64, int_rep};
use crate::text::subvec;

verus! {

/// The rendered text of one instruction: the opcode number, a space and
/// the operand when one is carried, and a closing line break. A label
/// marker keeps its source shape `'name:`.
pub open spec fn render_instr(i: InstrView) -> Seq<u8> {
    match i {
        InstrView::NoOperand(op) => dec_rep(op_num(op)).push(10),
        InstrView::IntOperand(op, v) => dec_rep(op_num(op)).push(32).add(int_rep(v)).push(10),
        InstrView::StrOperand(op, s) => dec_rep(op_num(op)).push(32).add(s).push(10),
        InstrView::LabelMarker(n) => seq![39u8].add(n).push(58).push(10),
    }
}

/// The rendered text of a whole program: the instructions' renderings
/// concatenated in order.
pub open spec fn render_program(p: Seq<InstrView>) -> Seq<u8>
    decreases p.len(),
{
    if p.len() == 0 {
        Seq::<u8>::empty()
    } else {
        render_instr(p[0]).add(render_program(p.drop_first()))
    }
}

fn render_one(i: &Instruction, out: &mut Vec<u8>)
    ensures
        final(out)@ == old(out)@.add(render_instr(i@)),
{
    match i {
        Instruction::NoOperand(op) => {
            let mut digits = fmt_u64(opcode_number(*op) as u64);
            out.append(&mut digits);
            out.push(10);
            proof {
                assert(out@ =~= old(out)@.add(dec_rep(op_num(*op)).push(10)));
            }
        },
        Instruction::IntOperand(op, v) => {
            let mut digits = fmt_u64(opcode_number(*op) as u64);
            out.append(&mut digits);
            out.push(32);
            let mut operand = fmt_i64(*v);
            out.append(&mut operand);
            out.push(10);
            proof {
                assert(out@ =~= old(out)@.add(
                    dec_rep(op_num(*op)).push(32).add(int_rep(*v as int)).push(10),
                ));
            }
        },
        Instruction::StrOperand(op, s) => {
            let mut digits = fmt_u64(opcode_number(*op) as u64);
            out.append(&mut digits);
            out.push(32);
            let mut operand = subvec(s, 0, s.len());
            proof {
                assert(operand@ =~= s@);
            }
            out.append(&mut operand);
            out.push(10);
            proof {
                assert(out@ =~= old(out)@.add(dec_rep(op_num(*op)).push(32).add(s@).push(10)));
            }
        },
        Instruction::LabelMarker(n) => {
            out.push(39);
            let mut name = subvec(n, 0, n.len());
            proof {
                assert(name@ =~= n@);
            }
            out.append(&mut name);
            out.push(58);
            out.push(10);
            proof {
                assert(out@ =~= old(out)@.add(seq![39u8].add(n@).push(58).push(10)));
            }
        },
    }
}

/// Renders a scanned instruction sequence to its output text.
pub fn render_instrs(p: &Vec<Instruction>) -> (r: Vec<u8>)
    ensures
        r@ == render_program(instr_views(p@)),
{
    let ghost full = instr_views(p@);
    let mut out: Vec<u8> = Vec::new();
    let mut i: usize = 0;
    proof {
        assert(full.skip(0) =~~= full);
    }
    while i < p.len()
        invariant
            0 <= i <= p.len(),
            full == instr_views(p@),
            render_program(full) == out@.add(render_program(full.skip(i as int))),
        decreases p.len() - i,
    {
        let ghost prev = out@;
        render_one(&p[i], &mut out);
        proof {
            assert(full.skip(i as int)[0] == p@[i as int]@);
            assert(full.skip(i as int).drop_first() =~~= full.skip(i + 1));
            assert(render_program(full.skip(i as int)) == render_instr(p@[i as int]@).add(
                render_program(full.skip(i + 1)),
            ));
            assert(prev.add(render_program(full.skip(i as int))) =~= out@.add(
                render_program(full.skip(i + 1)),
            ));
        }
        i = i + 1;
    }
    proof {
        assert(full.skip(i as int) =~~= Seq::<InstrView>::empty());
        assert(out@.add(render_program(full.skip(i as int))) =~= out@);
    }
    out
}

} // verus!
