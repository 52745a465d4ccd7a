//! The assembler's general laws, proved over the scan and render
//! specifications.

use vstd::prelude::*;

use crate::classify::{classify_line, classify_one, classify_tokens, classify_two, is_kw_dup,
    is_kw_push, line_tokens, spec_zero_op, LineClass};
use crate::instr::{is_zero_operand, op_num, wf_instr, InstrView, Opcode, USMError};
use crate::num::{dec_rep, int_rep, is_digit, lemma_dec_rep, lemma_int_round_trip};
use crate::render::{render_instr, render_program};
use crate::text::{lemma_split_no_byte, lemma_split_no_sep, lemma_trim_no_byte, split, trim};
use crate::usm::{spec_scan, spec_scan_src};

verus! {

/// How many lines of a source emit an instruction: those that are neither
/// comments nor failures.
pub open spec fn emitted_count(lines: Seq<Seq<u8>>) -> nat
    decreases lines.len(),
{
    if lines.len() == 0 {
        0
    } else {
        (if classify_line(lines[0]) is Emit {
            1nat
        } else {
            0nat
        }) + emitted_count(lines.drop_first())
    }
}

/// How often the byte `b` occurs in `s`.
pub open spec fn count_byte(s: Seq<u8>, b: u8) -> nat
    decreases s.len(),
{
    if s.len() == 0 {
        0
    } else {
        (if s[0] == b {
            1nat
        } else {
            0nat
        }) + count_byte(s.drop_first(), b)
    }
}

proof fn lemma_count_byte_add(x: Seq<u8>, y: Seq<u8>, b: u8)
    ensures
        count_byte(x.add(y), b) == count_byte(x, b) + count_byte(y, b),
    decreases x.len(),
{
    if x.len() == 0 {
        assert(x.add(y) =~= y);
    } else {
        assert(x.add(y)[0] == x[0]);
        assert(x.add(y).drop_first() =~= x.drop_first().add(y));
        lemma_count_byte_add(x.drop_first(), y, b);
    }
}

proof fn lemma_count_byte_absent(s: Seq<u8>, b: u8)
    requires
        forall|k: int| 0 <= k < s.len() ==> s[k] != b,
    ensures
        count_byte(s, b) == 0,
    decreases s.len(),
{
    if s.len() > 0 {
        assert(forall|k: int|
            0 <= k < s.drop_first().len() ==> #[trigger] s.drop_first()[k] == s[k + 1]);
        lemma_count_byte_absent(s.drop_first(), b);
    }
}

proof fn lemma_count_byte_single(b: u8)
    ensures
        count_byte(seq![b], b) == 1,
{
    assert(count_byte(Seq::<u8>::empty(), b) == 0);
    assert(seq![b].drop_first() =~= Seq::<u8>::empty());
}

/// A well-formed instruction renders to exactly one output line: one
/// closing line break, none within.
pub proof fn lemma_render_instr_one_line(i: InstrView)
    requires
        wf_instr(i),
    ensures
        count_byte(render_instr(i), 10) == 1,
        render_instr(i).len() > 0,
        render_instr(i).last() == 10,
{
    lemma_count_byte_single(10);
    match i {
        InstrView::NoOperand(op) => {
            lemma_dec_rep(op_num(op));
            let a = dec_rep(op_num(op));
            assert(a.push(10) =~= a.add(seq![10u8]));
            assert(forall|k: int| 0 <= k < a.len() ==> a[k] != 10) by {
                assert(forall|k: int| 0 <= k < a.len() ==> is_digit(#[trigger] a[k]));
            }
            lemma_count_byte_absent(a, 10);
            lemma_count_byte_add(a, seq![10u8], 10);
        },
        InstrView::IntOperand(op, v) => {
            lemma_dec_rep(op_num(op));
            let a = dec_rep(op_num(op)).push(32).add(int_rep(v));
            assert(render_instr(i) =~= a.add(seq![10u8]));
            assert(forall|k: int| 0 <= k < int_rep(v).len() ==> int_rep(v)[k] != 10) by {
                if v < 0 {
                    lemma_dec_rep((-v) as nat);
                    assert(forall|k: int|
                        1 <= k < int_rep(v).len() ==> int_rep(v)[k] == dec_rep((-v) as nat)[k
                            - 1]);
                } else {
                    lemma_dec_rep(v as nat);
                }
            }
            assert(forall|k: int| 0 <= k < a.len() ==> a[k] != 10) by {
                let d = dec_rep(op_num(op));
                assert(forall|k: int| 0 <= k < d.len() ==> is_digit(#[trigger] d[k]));
                assert(forall|k: int|
                    0 <= k < a.len() ==> a[k] == (if k < d.len() {
                        d[k]
                    } else if k == d.len() {
                        32u8
                    } else {
                        int_rep(v)[k - d.len() - 1]
                    }));
            }
            lemma_count_byte_absent(a, 10);
            lemma_count_byte_add(a, seq![10u8], 10);
        },
        InstrView::StrOperand(op, s) => {
            lemma_dec_rep(op_num(op));
            let a = dec_rep(op_num(op)).push(32).add(s);
            assert(render_instr(i) =~= a.add(seq![10u8]));
            assert(forall|k: int| 0 <= k < a.len() ==> a[k] != 10) by {
                let d = dec_rep(op_num(op));
                assert(forall|k: int| 0 <= k < d.len() ==> is_digit(#[trigger] d[k]));
                assert(forall|k: int|
                    0 <= k < a.len() ==> a[k] == (if k < d.len() {
                        d[k]
                    } else if k == d.len() {
                        32u8
                    } else {
                        s[k - d.len() - 1]
                    }));
            }
            lemma_count_byte_absent(a, 10);
            lemma_count_byte_add(a, seq![10u8], 10);
        },
        InstrView::LabelMarker(n) => {
            let a = seq![39u8].add(n).push(58);
            assert(render_instr(i) =~= a.add(seq![10u8]));
            assert(forall|k: int| 0 <= k < a.len() ==> a[k] != 10) by {
                assert(forall|k: int|
                    0 <= k < a.len() ==> a[k] == (if k == 0 {
                        39u8
                    } else if k <= n.len() {
                        n[k - 1]
                    } else {
                        58u8
                    }));
            }
            lemma_count_byte_absent(a, 10);
            lemma_count_byte_add(a, seq![10u8], 10);
        },
    }
}

/// A program of well-formed instructions renders to exactly one output
/// line per instruction.
pub proof fn lemma_render_program_line_count(p: Seq<InstrView>)
    requires
        forall|m: int| 0 <= m < p.len() ==> wf_instr(#[trigger] p[m]),
    ensures
        count_byte(render_program(p), 10) == p.len(),
    decreases p.len(),
{
    if p.len() > 0 {
        lemma_render_instr_one_line(p[0]);
        assert(forall|m: int|
            0 <= m < p.drop_first().len() ==> #[trigger] p.drop_first()[m] == p[m + 1]);
        lemma_render_program_line_count(p.drop_first());
        lemma_count_byte_add(render_instr(p[0]), render_program(p.drop_first()), 10);
    }
}

/// A line without a line break classifies, when it emits, to a
/// well-formed instruction.
proof fn lemma_classify_wf(line: Seq<u8>)
    requires
        forall|k: int| 0 <= k < line.len() ==> line[k] != 10,
        classify_line(line) is Emit,
    ensures
        wf_instr(classify_line(line)->Emit_0),
{
    let toks = line_tokens(line);
    lemma_trim_no_byte(line, 10);
    lemma_split_no_byte(trim(line), 32, 10);
    assert forall|j: int, k: int|
        0 <= j < toks.len() && 0 <= k < toks[j].len() implies #[trigger] toks[j][k] != 10 by {
        let raw = split(trim(line), 32)[j];
        assert(forall|m: int| 0 <= m < raw.len() ==> raw[m] != 10);
        lemma_trim_no_byte(raw, 10);
        assert(toks[j] == trim(raw));
        assert(trim(raw)[k] != 10);
    }
    if toks.len() == 1 {
        let t = toks[0];
        match spec_zero_op(t) {
            Some(op) => {
                assert(is_zero_operand(op));
            },
            None => {
                let body = trim(t.drop_first());
                assert(forall|k: int|
                    0 <= k < t.drop_first().len() ==> #[trigger] t.drop_first()[k] == t[k + 1]);
                lemma_trim_no_byte(t.drop_first(), 10);
                assert(forall|k: int|
                    0 <= k < body.drop_last().len() ==> #[trigger] body.drop_last()[k] == body[k]);
                lemma_trim_no_byte(body.drop_last(), 10);
            },
        }
    } else {
        assert(toks.len() == 2);
    }
}

/// A successful scan of a line list yields exactly well-formed
/// instructions.
proof fn lemma_scan_wf(lines: Seq<Seq<u8>>, p: Seq<InstrView>)
    requires
        spec_scan(lines) == Ok::<Seq<InstrView>, USMError>(p),
        forall|j: int, k: int|
            0 <= j < lines.len() && 0 <= k < lines[j].len() ==> #[trigger] lines[j][k] != 10,
    ensures
        forall|m: int| 0 <= m < p.len() ==> wf_instr(#[trigger] p[m]),
    decreases lines.len(),
{
    if lines.len() > 0 {
        assert(forall|j: int, k: int|
            0 <= j < lines.drop_first().len() && 0 <= k < lines.drop_first()[j].len()
                ==> #[trigger] lines.drop_first()[j][k] == lines[j + 1][k]);
        match classify_line(lines[0]) {
            LineClass::Fail(e) => {
                assert(false);
            },
            LineClass::Skip => {
                lemma_scan_wf(lines.drop_first(), p);
            },
            LineClass::Emit(i) => {
                lemma_classify_wf(lines[0]);
                let rest = spec_scan(lines.drop_first())->Ok_0;
                lemma_scan_wf(lines.drop_first(), rest);
                assert(p =~= seq![i].add(rest));
                assert(forall|m: int|
                    1 <= m < p.len() ==> #[trigger] p[m] == rest[m - 1]);
            },
        }
    }
}

/// The instructions a line list emits, in source order: comments
/// contribute nothing, every other line its one instruction.
pub open spec fn emissions(lines: Seq<Seq<u8>>) -> Seq<InstrView>
    decreases lines.len(),
{
    if lines.len() == 0 {
        Seq::<InstrView>::empty()
    } else {
        match classify_line(lines[0]) {
            LineClass::Emit(i) => seq![i].add(emissions(lines.drop_first())),
            _ => emissions(lines.drop_first()),
        }
    }
}

/// A successful scan yields exactly the emitting lines' instructions, in
/// source order.
pub proof fn lemma_scan_is_emissions(lines: Seq<Seq<u8>>, p: Seq<InstrView>)
    requires
        spec_scan(lines) == Ok::<Seq<InstrView>, USMError>(p),
    ensures
        p == emissions(lines),
    decreases lines.len(),
{
    if lines.len() > 0 {
        match classify_line(lines[0]) {
            LineClass::Fail(e) => {
                assert(false);
            },
            LineClass::Skip => {
                lemma_scan_is_emissions(lines.drop_first(), p);
            },
            LineClass::Emit(i) => {
                let rest = spec_scan(lines.drop_first())->Ok_0;
                lemma_scan_is_emissions(lines.drop_first(), rest);
            },
        }
    }
}

/// A successful scan yields exactly one instruction per emitting line --
/// the lines that are neither comments nor blank -- in source order.
pub proof fn lemma_scan_emitted_count(lines: Seq<Seq<u8>>, p: Seq<InstrView>)
    requires
        spec_scan(lines) == Ok::<Seq<InstrView>, USMError>(p),
    ensures
        p.len() == emitted_count(lines),
    decreases lines.len(),
{
    if lines.len() > 0 {
        match classify_line(lines[0]) {
            LineClass::Fail(e) => {
                assert(false);
            },
            LineClass::Skip => {
                lemma_scan_emitted_count(lines.drop_first(), p);
            },
            LineClass::Emit(i) => {
                let rest = spec_scan(lines.drop_first())->Ok_0;
                lemma_scan_emitted_count(lines.drop_first(), rest);
            },
        }
    }
}

/// The output of a successful run has exactly one rendered line per
/// scanned instruction.
pub proof fn lemma_output_line_count(src: Seq<u8>, p: Seq<InstrView>)
    requires
        spec_scan_src(src) == Ok::<Seq<InstrView>, USMError>(p),
    ensures
        count_byte(render_program(p), 10) == p.len(),
{
    if trim(src).len() == 0 {
        assert(p =~= Seq::<InstrView>::empty());
    } else {
        let lines = split(trim(src), 10);
        lemma_split_no_sep(trim(src), 10);
        lemma_scan_wf(lines, p);
        lemma_render_program_line_count(p);
    }
}

/// The first failing line decides the whole run: scanning fails with
/// exactly that line's error.
pub proof fn lemma_fail_fast(lines: Seq<Seq<u8>>, k: int, e: USMError)
    requires
        0 <= k < lines.len(),
        classify_line(lines[k]) == LineClass::Fail(e),
        forall|j: int| 0 <= j < k ==> !((#[trigger] classify_line(lines[j])) is Fail),
    ensures
        spec_scan(lines) == Err::<Seq<InstrView>, USMError>(e),
    decreases k,
{
    if k == 0 {
    } else {
        assert(!(classify_line(lines[0]) is Fail));
        assert(lines.drop_first()[k - 1] == lines[k]);
        assert(forall|j: int|
            0 <= j < k - 1 ==> #[trigger] lines.drop_first()[j] == lines[j + 1]);
        lemma_fail_fast(lines.drop_first(), k - 1, e);
    }
}

/// A scan succeeds exactly when no line fails: comments and emitting
/// lines alone make a valid program.
pub proof fn lemma_scan_success(lines: Seq<Seq<u8>>)
    ensures
        (spec_scan(lines) is Ok) <==> (forall|j: int|
            0 <= j < lines.len() ==> !((#[trigger] classify_line(lines[j])) is Fail)),
    decreases lines.len(),
{
    if lines.len() > 0 {
        lemma_scan_success(lines.drop_first());
        if spec_scan(lines) is Ok {
            assert forall|j: int|
                0 <= j < lines.len() implies !((#[trigger] classify_line(lines[j])) is Fail) by {
                if j > 0 {
                    assert(lines.drop_first()[j - 1] == lines[j]);
                    assert(!(classify_line(lines.drop_first()[j - 1]) is Fail));
                }
            }
        }
        if forall|j: int| 0 <= j < lines.len() ==> !((#[trigger] classify_line(lines[j])) is Fail) {
            assert(!(classify_line(lines[0]) is Fail));
            assert forall|j: int|
                0 <= j < lines.drop_first().len() implies !((#[trigger] classify_line(
                lines.drop_first()[j],
            )) is Fail) by {
                assert(lines.drop_first()[j] == lines[j + 1]);
                assert(!(classify_line(lines[j + 1]) is Fail));
            }
            assert(spec_scan(lines.drop_first()) is Ok);
        }
    }
}

/// A comment line is transparent: scanning with it yields the same
/// outcome as scanning without it, so it shifts no surrounding
/// instruction.
pub proof fn lemma_comment_line_transparent(lines: Seq<Seq<u8>>, k: int)
    requires
        0 <= k < lines.len(),
        classify_line(lines[k]) is Skip,
    ensures
        spec_scan(lines) == spec_scan(lines.remove(k)),
    decreases k,
{
    if k == 0 {
        assert(lines.remove(0) =~~= lines.drop_first());
    } else {
        assert(lines.remove(k)[0] == lines[0]);
        assert(lines.remove(k).drop_first() =~~= lines.drop_first().remove(k - 1));
        assert(lines.drop_first()[k - 1] == lines[k]);
        lemma_comment_line_transparent(lines.drop_first(), k - 1);
    }
}

/// A zero-operand mnemonic line emits its opcode alone, and renders as
/// the bare opcode number with no operand text before the line break.
pub proof fn lemma_zero_operand_render(t: Seq<u8>, op: Opcode)
    requires
        spec_zero_op(t) == Some(op),
    ensures
        classify_tokens(seq![t]) == LineClass::Emit(InstrView::NoOperand(op)),
        render_instr(InstrView::NoOperand(op)) == dec_rep(op_num(op)).push(10),
{
}

/// A label declaration with its closing colon emits a marker carrying
/// the trimmed name, rendered back in its source shape `'name:`; one
/// without the colon fails with `IllegalLabel`.
pub proof fn lemma_label_line(t: Seq<u8>)
    requires
        t.len() > 0,
        t[0] == 39,
    ensures
        ({
            let body = trim(t.drop_first());
            body.len() > 0 && body.last() == 58 ==> {
                let name = trim(body.drop_last());
                classify_one(t) == LineClass::Emit(InstrView::LabelMarker(name))
                    && render_instr(InstrView::LabelMarker(name)) == seq![39u8].add(name).push(
                    58,
                ).push(10)
            }
        }),
        ({
            let body = trim(t.drop_first());
            !(body.len() > 0 && body.last() == 58) ==> classify_one(t) == LineClass::Fail(
                USMError::IllegalLabel,
            )
        }),
{
    assert(spec_zero_op(t) is None);
}

/// `push i` and `dup i` round-trip for every 64-bit integer: the
/// canonical rendering of `i` is accepted back and denotes `i` exactly.
pub proof fn lemma_push_round_trip(m: Seq<u8>, v: i64)
    requires
        is_kw_push(m) || is_kw_dup(m),
    ensures
        classify_two(m, int_rep(v as int)) == LineClass::Emit(
            InstrView::IntOperand(
                if is_kw_push(m) {
                    Opcode::Push
                } else {
                    Opcode::Duplicate
                },
                v as int,
            ),
        ),
{
    lemma_int_round_trip(v);
}

} // verus!
