//! A single-pass assembler for a small stack-based virtual machine.
//!
//! Source programs are line-oriented: each line holds one mnemonic (with an
//! optional operand), a label declaration such as `'start:`, or a comment.
//! The assembler tokenizes the source, classifies each line, and renders the
//! resulting instruction sequence as decimal text, one instruction per line.

use vstd::prelude::*;

pub mod classify;
pub mod instr;
pub mod laws;
pub mod num;
pub mod render;
pub mod text;
pub mod usm;

use crate::instr::USMError;
use crate::render::render_program;
use crate::usm::{spec_scan_src, USM};

verus! {

/// One whole assembler run over a source text: the rendered output text
/// on success, or the error of the first line that failed, with no
/// output at all.
pub fn assemble(source: &Vec<u8>) -> (r: Result<Vec<u8>, USMError>)
    ensures
        (match spec_scan_src(source@) {
            Ok(p) => r matches Ok(out) && out@ == render_program(p),
            Err(e) => r == Err::<Vec<u8>, USMError>(e),
        }),
{
    let mut run = USM::new();
    match run.scan(source) {
        Some(e) => Err(e),
        None => {
            proof {
                if spec_scan_src(source@) is Ok {
                    assert(run@ =~= spec_scan_src(source@)->Ok_0);
                }
            }
            Ok(run.render())
        },
    }
}

} // verus!

