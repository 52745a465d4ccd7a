//! The assembler run: scanning a whole source text into a program, and
//! rendering the program once scanning succeeded.
//!
//! Scanning is strictly sequential and fail-fast: the first line that
//! fails aborts the run with that line's error, and nothing of the
//! partially built program survives.

use vstd::prelude::*;

use crate::classify::{classify_line, classify_line_tokens, tokenize, LineClass, LineStep};
use crate::instr::{instr_views, Instruction, InstrView, USMError};
use crate::render::{render_instrs, render_program};
use crate::text::{split, split_bytes, trim, trim_bytes, views_of};

verus! {

/// The program a list of lines scans to, or the error of the first line
/// that fails.
pub open spec fn spec_scan(lines: Seq<Seq<u8>>) -> Result<Seq<InstrView>, USMError>
    decreases lines.len(),
{
    if lines.len() == 0 {
        Ok(Seq::<InstrView>::empty())
    } else {
        match classify_line(lines[0]) {
            LineClass::Fail(e) => Err(e),
            LineClass::Skip => spec_scan(lines.drop_first()),
            LineClass::Emit(i) => match spec_scan(lines.drop_first()) {
                Ok(rest) => Ok(seq![i].add(rest)),
                Err(e) => Err(e),
            },
        }
    }
}

/// The program a whole source text scans to: the text is trimmed, an
/// empty text is the empty program, and anything else is cut into lines
/// and scanned line by line.
pub open spec fn spec_scan_src(src: Seq<u8>) -> Result<Seq<InstrView>, USMError> {
    if trim(src).len() == 0 {
        Ok(Seq::<InstrView>::empty())
    } else {
        spec_scan(split(trim(src), 10))
    }
}

/// `r` with `pre` put before its instructions, when it carries any.
pub open spec fn scan_prepend(
    pre: Seq<InstrView>,
    r: Result<Seq<InstrView>, USMError>,
) -> Result<Seq<InstrView>, USMError> {
    match r {
        Ok(p) => Ok(pre.add(p)),
        Err(e) => Err(e),
    }
}

/// One assembler run: the instruction sequence built by scanning.
pub struct USM {
    instructions: Vec<Instruction>,
}

impl View for USM {
    type V = Seq<InstrView>;

    closed spec fn view(&self) -> Seq<InstrView> {
        instr_views(self.instructions@)
    }
}

impl USM {
    /// A fresh run holding no instructions yet.
    pub fn new() -> (r: USM)
        ensures
            r@ == Seq::<InstrView>::empty(),
    {
        let r = USM { instructions: Vec::new() };
        proof {
            assert(r@ =~= Seq::<InstrView>::empty());
        }
        r
    }

    /// Scans a source text, appending the scanned program to this run on
    /// success and leaving the run untouched on failure.
    pub fn scan(&mut self, source: &Vec<u8>) -> (r: Option<USMError>)
        ensures
            (match spec_scan_src(source@) {
                Ok(p) => r is None && final(self)@ == old(self)@.add(p),
                Err(e) => r == Some(e) && final(self)@ == old(self)@,
            }),
    {
        let trimmed = trim_bytes(source);
        if trimmed.len() == 0 {
            proof {
                assert(old(self)@.add(Seq::<InstrView>::empty()) =~= old(self)@);
            }
            return None;
        }
        let lines = split_bytes(&trimmed, 10);
        let ghost all = split(trim(source@), 10);
        let mut acc: Vec<Instruction> = Vec::new();
        let mut i: usize = 0;
        proof {
            assert(all.skip(0) =~~= all);
            assert(instr_views(acc@) =~= Seq::<InstrView>::empty());
            if spec_scan(all) is Ok {
                assert(instr_views(acc@).add(spec_scan(all)->Ok_0) =~= spec_scan(all)->Ok_0);
            }
        }
        while i < lines.len()
            invariant
                0 <= i <= lines.len(),
                views_of(lines@) == all,
                all == split(trim(source@), 10),
                trim(source@).len() != 0,
                spec_scan(all) == scan_prepend(instr_views(acc@), spec_scan(all.skip(i as int))),
                self == old(self),
            decreases lines.len() - i,
        {
            let toks = tokenize(&lines[i]);
            let step = classify_line_tokens(&toks);
            proof {
                assert(views_of(lines@)[i as int] == lines@[i as int]@);
                assert(step@ == classify_line(all[i as int]));
                assert(all.skip(i as int)[0] == all[i as int]);
                assert(all.skip(i as int).drop_first() =~~= all.skip(i + 1));
            }
            match step {
                LineStep::Fail(e) => {
                    proof {
                        assert(spec_scan(all.skip(i as int)) == Err::<Seq<InstrView>, USMError>(
                            e,
                        ));
                    }
                    return Some(e);
                },
                LineStep::Skip => {
                    proof {
                        assert(spec_scan(all.skip(i as int)) == spec_scan(all.skip(i + 1)));
                    }
                },
                LineStep::Emit(ins) => {
                    let ghost prev = acc@;
                    let ghost v = ins@;
                    acc.push(ins);
                    proof {
                        assert(instr_views(acc@) =~= instr_views(prev).push(v));
                        match spec_scan(all.skip(i + 1)) {
                            Ok(rest) => {
                                assert(spec_scan(all.skip(i as int)) == Ok::<
                                    Seq<InstrView>,
                                    USMError,
                                >(seq![v].add(rest)));
                                assert(instr_views(prev).add(seq![v].add(rest)) =~= instr_views(
                                    acc@,
                                ).add(rest));
                            },
                            Err(e) => {
                                assert(spec_scan(all.skip(i as int)) == Err::<
                                    Seq<InstrView>,
                                    USMError,
                                >(e));
                            },
                        }
                    }
                },
            }
            i = i + 1;
        }
        proof {
            assert(all.skip(i as int) =~~= Seq::<Seq<u8>>::empty());
            assert(spec_scan(all) == Ok::<Seq<InstrView>, USMError>(
                instr_views(acc@).add(Seq::<InstrView>::empty()),
            ));
            assert(instr_views(acc@).add(Seq::<InstrView>::empty()) =~= instr_views(acc@));
        }
        let ghost scanned = instr_views(acc@);
        let ghost before = self.instructions@;
        self.instructions.append(&mut acc);
        proof {
            assert(instr_views(self.instructions@) =~= instr_views(before).add(scanned));
        }
        None
    }

    /// Renders the instructions scanned so far as the output text.
    pub fn render(&self) -> (r: Vec<u8>)
        ensures
            r@ == render_program(self@),
    {
        render_instrs(&self.instructions)
    }
}

} // verus!
