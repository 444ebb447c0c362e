//! Rewriting bytecode into the subset that the processor executes.
//!
//! The processor has no `iinc`. Each `iinc index, delta` becomes
//! `iload index; bipush delta; iadd; istore index`, which leaves the same
//! value in the local variable. Every other instruction is kept as it is.
//! Branch operands are not adjusted for the bytes that this adds.

use crate::bytes::push_range;
use crate::error::{is_result, BaliError};
use crate::opcodes::{op_args, op_width, BIPUSH, IADD, IINC, ILOAD, ISTORE};
use vstd::prelude::*;

verus! {

/// The seven bytes that stand in for `iinc index, delta`.
pub open spec fn iinc_expansion(index: u8, delta: u8) -> Seq<u8> {
    seq![ILOAD, index, BIPUSH, delta, IADD, ISTORE, index]
}

/// Where the instruction after the one at `pos` starts: behind its operands,
/// or at the end of `code` where the operands are cut short.
pub open spec fn next_instruction(code: Seq<u8>, pos: int, args: u8) -> int {
    if pos + 1 + args <= code.len() {
        pos + 1 + args
    } else {
        code.len() as int
    }
}

/// `prefix` put in front of a result that was computed for what follows it.
pub open spec fn after(prefix: Seq<u8>, rest: Result<Seq<u8>, BaliError>) -> Result<
    Seq<u8>,
    BaliError,
> {
    match rest {
        Ok(bytes) => Ok(prefix + bytes),
        Err(e) => Err(e),
    }
}

/// The normal form of the instructions of `code` that start at `pos` or
/// later, where `pos` is the start of an instruction.
///
/// An opcode outside the table is an error, and so is an `iinc` without both
/// of its operands. The first error in the order of the code is the one
/// reported.
pub open spec fn normalized_from(code: Seq<u8>, pos: int) -> Result<Seq<u8>, BaliError>
    decreases code.len() - pos,
{
    if pos < 0 || pos >= code.len() {
        Ok(Seq::empty())
    } else {
        match op_args(code[pos]) {
            None => Err(BaliError::UnknownOpcode),
            Some(args) => {
                if code[pos] == IINC {
                    if pos + 3 > code.len() {
                        Err(BaliError::TruncatedCode)
                    } else {
                        after(
                            iinc_expansion(code[pos + 1], code[pos + 2]),
                            normalized_from(code, pos + 3),
                        )
                    }
                } else {
                    let next = next_instruction(code, pos, args);
                    after(code.subrange(pos, next), normalized_from(code, next))
                }
            },
        }
    }
}

/// The normal form of `code`.
pub open spec fn normalized(code: Seq<u8>) -> Result<Seq<u8>, BaliError> {
    normalized_from(code, 0)
}

/// The number of `iinc` instructions among the instructions of `code` that
/// start at `pos` or later, up to the first opcode outside the table.
pub open spec fn iinc_count_from(code: Seq<u8>, pos: int) -> nat
    decreases code.len() - pos,
{
    if pos < 0 || pos >= code.len() {
        0
    } else {
        match op_args(code[pos]) {
            None => 0,
            Some(args) => {
                let here: nat = if code[pos] == IINC {
                    1
                } else {
                    0
                };
                here + iinc_count_from(code, next_instruction(code, pos, args))
            },
        }
    }
}

/// The number of `iinc` instructions in `code`.
pub open spec fn iinc_count(code: Seq<u8>) -> nat {
    iinc_count_from(code, 0)
}

/// Normalisation adds four bytes for each `iinc` and nothing else.
pub proof fn lemma_normalized_len_from(code: Seq<u8>, pos: int)
    requires
        0 <= pos <= code.len(),
        normalized_from(code, pos) is Ok,
    ensures
        normalized_from(code, pos)->Ok_0.len() == code.len() - pos + 4 * iinc_count_from(
            code,
            pos,
        ),
    decreases code.len() - pos,
{
    if pos < code.len() {
        let args = op_args(code[pos])->Some_0;
        if code[pos] == IINC {
            lemma_normalized_len_from(code, pos + 3);
        } else {
            lemma_normalized_len_from(code, next_instruction(code, pos, args));
        }
    }
}

/// The length of normalised code: that of the input plus four bytes for each
/// `iinc` in it. Code without `iinc` keeps its length.
pub proof fn lemma_normalized_len(code: Seq<u8>)
    requires
        normalized(code) is Ok,
    ensures
        normalized(code)->Ok_0.len() == code.len() + 4 * iinc_count(code),
        iinc_count(code) == 0 ==> normalized(code)->Ok_0.len() == code.len(),
{
    lemma_normalized_len_from(code, 0);
}

/// Code without `iinc` is its own normal form.
pub proof fn lemma_normalized_without_iinc(code: Seq<u8>, pos: int)
    requires
        0 <= pos <= code.len(),
        normalized_from(code, pos) is Ok,
        iinc_count_from(code, pos) == 0,
    ensures
        normalized_from(code, pos)->Ok_0 == code.subrange(pos, code.len() as int),
    decreases code.len() - pos,
{
    if pos < code.len() {
        let args = op_args(code[pos])->Some_0;
        let next = next_instruction(code, pos, args);
        lemma_normalized_without_iinc(code, next);
        assert(code.subrange(pos, next) + code.subrange(next, code.len() as int) =~= code.subrange(
            pos,
            code.len() as int,
        ));
    } else {
        assert(code.subrange(pos, code.len() as int) =~= Seq::<u8>::empty());
    }
}

/// Replaces every `iinc` of `code` by its expansion.
///
/// The walk goes from instruction to instruction by the operand counts of
/// the opcode table, so an operand byte is never taken for an opcode.
pub fn replace_iinc(code: &Vec<u8>) -> (r: Result<Vec<u8>, BaliError>)
    ensures
        is_result(r, normalized(code@)),
        r matches Ok(out) ==> out@.len() == code@.len() + 4 * iinc_count(code@),
{
    let mut out: Vec<u8> = Vec::new();
    let mut pos: usize = 0;
    while pos < code.len()
        invariant
            pos <= code.len(),
            normalized(code@) == after(out@, normalized_from(code@, pos as int)),
        decreases code.len() - pos,
    {
        let opcode = code[pos];
        match op_width(opcode) {
            None => {
                return Err(BaliError::UnknownOpcode);
            },
            Some(args) => {
                if opcode == IINC {
                    if code.len() - pos < 3 {
                        return Err(BaliError::TruncatedCode);
                    }
                    let index = code[pos + 1];
                    let delta = code[pos + 2];
                    let ghost before = out@;
                    out.push(ILOAD);
                    out.push(index);
                    out.push(BIPUSH);
                    out.push(delta);
                    out.push(IADD);
                    out.push(ISTORE);
                    out.push(index);
                    proof {
                        let rest = normalized_from(code@, pos + 3);
                        assert(out@ =~= before + iinc_expansion(index, delta));
                        if rest is Ok {
                            assert(before + (iinc_expansion(index, delta) + rest->Ok_0) =~= out@
                                + rest->Ok_0);
                        }
                    }
                    pos = pos + 3;
                } else {
                    let next = if code.len() - pos - 1 >= args as usize {
                        pos + 1 + args as usize
                    } else {
                        code.len()
                    };
                    let ghost before = out@;
                    push_range(&mut out, code.as_slice(), pos, next);
                    proof {
                        let rest = normalized_from(code@, next as int);
                        if rest is Ok {
                            assert(before + (code@.subrange(pos as int, next as int) + rest->Ok_0)
                                =~= out@ + rest->Ok_0);
                        }
                    }
                    pos = next;
                }
            },
        }
    }
    proof {
        assert(out@ + Seq::<u8>::empty() =~= out@);
        lemma_normalized_len(code@);
    }
    Ok(out)
}

} // verus!
