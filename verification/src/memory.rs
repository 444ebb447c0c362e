//! Linking the methods and assembling the image.
//!
//! The image is the lookup table followed by the bytecode of the methods in
//! the order of the layout. In that bytecode the operand of `invokestatic`
//! is the table index of the method that is called, the operand of `ldc` is
//! the table index of the integer that is loaded, and `return` in `main` is
//! the byte that halts the processor.

use crate::bimaps::{ref_pairs, refs_entries};
use crate::bytes::{be16, push_range};
use crate::error::{is_result, BaliError};
use crate::layout::{layout_of, layout_of_blocks};
use crate::lut::{
    entry_views, int_count, layout_vec, lemma_int_count_bounds, lemma_int_entries_len,
    lemma_layout_of_blocks, lemma_method_entries_len, lut_of, lut_size, luts_of,
};
use crate::methods::{codeblocks, spec_codeblocks};
use crate::normalize::{after, next_instruction};
use crate::opcodes::{op_args, op_width, HALT, INVOKESTATIC, LDC, RETURN};
use crate::pool::{constants, methodrefs, pool_views, spec_constants, spec_methodrefs};
use crate::signature::{INIT_SIG, MAIN_SIG};
use crate::structs::{BaliCodeView, ClassFile, ClassFileView, ConstPoolValueView};
use crate::table::{table_get, MethodTable};
use crate::text::str_eq;
use bimap::BiMap;
use std::collections::BTreeMap;
use std::collections::HashMap;
use vstd::prelude::*;

verus! {

/// Whether the method reference `index` of `refs` is to be linked: it names a
/// method other than the constructor.
pub open spec fn is_linked(refs: Map<u16, Seq<char>>, index: u16) -> bool {
    refs.contains_key(index) && refs[index] != INIT_SIG@
}

/// The table index of the method that each method reference names, under
/// the pool index of the reference. References to the constructor are left
/// out. It is an error where another reference names a method that has no
/// table index.
pub open spec fn spec_refaddr(refs: Map<u16, Seq<char>>, slots: Seq<(Seq<char>, u16)>) -> Result<
    Map<u16, u16>,
    BaliError,
> {
    if exists|index: u16|
        #[trigger] is_linked(refs, index) && table_get(slots, refs[index]) is None {
        Err(BaliError::UnresolvedMethod)
    } else {
        Ok(
            Map::new(
                |index: u16| is_linked(refs, index),
                |index: u16| table_get(slots, refs[index])->Some_0,
            ),
        )
    }
}

/// What the instruction of `code` at `pos` becomes when it is linked.
///
/// The operand of `invokestatic` becomes what `refaddr` holds for it, high
/// byte first, and the operand of `ldc` what `consts` holds for it. In
/// `main`, `return` becomes the halt byte. Every other instruction is kept
/// as far as `code` holds it. It is an error where the opcode is not in
/// the opcode table, where the operand of `invokestatic` or `ldc` is cut
/// short, and where `refaddr` or `consts` holds nothing for the operand.
pub open spec fn linked_at(
    code: Seq<u8>,
    pos: int,
    is_main: bool,
    refaddr: Map<u16, u16>,
    consts: Map<u16, u16>,
) -> Result<Seq<u8>, BaliError> {
    match op_args(code[pos]) {
        None => Err(BaliError::UnknownOpcode),
        Some(args) => {
            if code[pos] == INVOKESTATIC {
                if pos + 3 > code.len() {
                    Err(BaliError::TruncatedCode)
                } else if !refaddr.contains_key(be16(code, pos + 1) as u16) {
                    Err(BaliError::UnresolvedMethod)
                } else {
                    let slot = refaddr[be16(code, pos + 1) as u16];
                    Ok(seq![INVOKESTATIC, (slot / 256) as u8, (slot % 256) as u8])
                }
            } else if code[pos] == LDC {
                if pos + 2 > code.len() {
                    Err(BaliError::TruncatedCode)
                } else if !consts.contains_key(code[pos + 1] as u16) {
                    Err(BaliError::NotAnInteger)
                } else {
                    Ok(seq![LDC, (consts[code[pos + 1] as u16] % 256) as u8])
                }
            } else if code[pos] == RETURN && is_main {
                Ok(seq![HALT])
            } else {
                Ok(code.subrange(pos, next_instruction(code, pos, args)))
            }
        },
    }
}

/// The instructions of `code` that start at `pos` or later, where `pos` is
/// the start of an instruction, each as it is linked. The first error in
/// the order of the code is the one reported.
pub open spec fn rewritten_from(
    code: Seq<u8>,
    pos: int,
    is_main: bool,
    refaddr: Map<u16, u16>,
    consts: Map<u16, u16>,
) -> Result<Seq<u8>, BaliError>
    decreases code.len() - pos,
{
    if pos < 0 || pos >= code.len() {
        Ok(Seq::empty())
    } else {
        match linked_at(code, pos, is_main, refaddr, consts) {
            Err(e) => Err(e),
            Ok(piece) => {
                let next = next_instruction(code, pos, op_args(code[pos])->Some_0);
                after(piece, rewritten_from(code, next, is_main, refaddr, consts))
            },
        }
    }
}

/// The bytecode `code` with its operands linked.
pub open spec fn rewritten(
    code: Seq<u8>,
    is_main: bool,
    refaddr: Map<u16, u16>,
    consts: Map<u16, u16>,
) -> Result<Seq<u8>, BaliError> {
    rewritten_from(code, 0, is_main, refaddr, consts)
}

/// The linked bytecode of the first `n` methods of `layout`, one behind the
/// other. The first method that cannot be linked gives the error.
pub open spec fn bodies(
    layout: Seq<(u16, Seq<char>)>,
    blocks: Seq<(Seq<char>, BaliCodeView)>,
    refaddr: Map<u16, u16>,
    consts: Map<u16, u16>,
    n: int,
) -> Result<Seq<u8>, BaliError>
    decreases n,
{
    if n <= 0 {
        Ok(Seq::empty())
    } else {
        match bodies(layout, blocks, refaddr, consts, n - 1) {
            Err(e) => Err(e),
            Ok(before) => {
                let key = layout[n - 1].1;
                if key == INIT_SIG@ {
                    Ok(before)
                } else {
                    match rewritten(
                        table_get(blocks, key)->Some_0.code,
                        key == MAIN_SIG@,
                        refaddr,
                        consts,
                    ) {
                        Err(e) => Err(e),
                        Ok(body) => Ok(before + body),
                    }
                }
            },
        }
    }
}

/// The image for the method references `refs`, the constants `pool`, of
/// which there are `pool_len`, and the methods `blocks`.
pub open spec fn image_of(
    refs: Map<u16, Seq<char>>,
    pool: Map<u16, ConstPoolValueView>,
    pool_len: int,
    blocks: Seq<(Seq<char>, BaliCodeView)>,
) -> Result<Seq<u8>, BaliError> {
    match layout_of_blocks(blocks) {
        Err(e) => Err(e),
        Ok((layout, code_size)) => match lut_of(pool, pool_len, blocks, layout, code_size) {
            Err(e) => Err(e),
            Ok((lut, consts, slots)) => match spec_refaddr(refs, slots) {
                Err(e) => Err(e),
                Ok(refaddr) => after(
                    lut,
                    bodies(layout, blocks, refaddr, consts, layout.len() as int),
                ),
            },
        },
    }
}

/// The image of `class`.
///
/// The method references are resolved first, then the methods are
/// extracted, placed and entered in the lookup table, and last their
/// bytecode is linked. The first of these steps that fails gives the error.
pub open spec fn spec_binarygen(class: ClassFileView) -> Result<Seq<u8>, BaliError> {
    match spec_methodrefs(class) {
        Err(e) => Err(e),
        Ok(refs) => match spec_codeblocks(class) {
            Err(e) => Err(e),
            Ok(blocks) => image_of(
                refs,
                spec_constants(class),
                class.constpool.len() as int,
                blocks,
            ),
        },
    }
}

/// An error among the first methods is the error of them all.
pub proof fn lemma_bodies_error(
    layout: Seq<(u16, Seq<char>)>,
    blocks: Seq<(Seq<char>, BaliCodeView)>,
    refaddr: Map<u16, u16>,
    consts: Map<u16, u16>,
    i: int,
    n: int,
)
    requires
        0 <= i <= n,
        bodies(layout, blocks, refaddr, consts, i) is Err,
    ensures
        bodies(layout, blocks, refaddr, consts, n) == bodies(layout, blocks, refaddr, consts, i),
    decreases n - i,
{
    if i < n {
        lemma_bodies_error(layout, blocks, refaddr, consts, i, n - 1);
    }
}

/// Whether an instruction starts at `p` when `code` is walked from the
/// start of an instruction at `from`.
pub open spec fn instruction_at(code: Seq<u8>, from: int, p: int) -> bool
    decreases code.len() - from,
{
    if from < 0 || from >= code.len() || p < from {
        false
    } else if p == from {
        true
    } else {
        match op_args(code[from]) {
            None => false,
            Some(args) => instruction_at(code, next_instruction(code, from, args), p),
        }
    }
}

/// Whether linking changes the instruction of `code` at `pos`.
pub open spec fn is_relinked(code: Seq<u8>, pos: int, is_main: bool) -> bool {
    code[pos] == INVOKESTATIC || code[pos] == LDC || (code[pos] == RETURN && is_main)
}

/// Linking keeps the length of the bytecode.
pub proof fn lemma_rewritten_len(
    code: Seq<u8>,
    pos: int,
    is_main: bool,
    refaddr: Map<u16, u16>,
    consts: Map<u16, u16>,
)
    requires
        0 <= pos <= code.len(),
        rewritten_from(code, pos, is_main, refaddr, consts) is Ok,
    ensures
        rewritten_from(code, pos, is_main, refaddr, consts)->Ok_0.len() == code.len() - pos,
    decreases code.len() - pos,
{
    if pos < code.len() {
        let args = op_args(code[pos])->Some_0;
        lemma_rewritten_len(code, next_instruction(code, pos, args), is_main, refaddr, consts);
    }
}

/// Every instruction of linked bytecode stands where it stood before, and is
/// what `linked_at` says: `invokestatic` with the table index of its method,
/// `ldc` with the table index of its integer, the halt byte for `return` in
/// `main`, and the instruction itself otherwise.
pub proof fn lemma_rewritten_instruction(
    code: Seq<u8>,
    from: int,
    p: int,
    is_main: bool,
    refaddr: Map<u16, u16>,
    consts: Map<u16, u16>,
)
    requires
        0 <= from,
        instruction_at(code, from, p),
        rewritten_from(code, from, is_main, refaddr, consts) is Ok,
    ensures
        from <= p < code.len(),
        linked_at(code, p, is_main, refaddr, consts) is Ok,
        linked_at(code, p, is_main, refaddr, consts)->Ok_0.len() >= 1,
        p - from + linked_at(code, p, is_main, refaddr, consts)->Ok_0.len() <= code.len() - from,
        rewritten_from(code, from, is_main, refaddr, consts)->Ok_0.subrange(
            p - from,
            p - from + linked_at(code, p, is_main, refaddr, consts)->Ok_0.len(),
        ) == linked_at(code, p, is_main, refaddr, consts)->Ok_0,
    decreases code.len() - from,
{
    let args = op_args(code[from])->Some_0;
    let next = next_instruction(code, from, args);
    let piece = linked_at(code, from, is_main, refaddr, consts)->Ok_0;
    let rest = rewritten_from(code, next, is_main, refaddr, consts)->Ok_0;
    let out = rewritten_from(code, from, is_main, refaddr, consts)->Ok_0;
    lemma_rewritten_len(code, next, is_main, refaddr, consts);
    assert(out == piece + rest);
    assert(piece.len() == next - from);
    if p == from {
        assert(out.subrange(0, piece.len() as int) =~= piece);
    } else {
        lemma_rewritten_instruction(code, next, p, is_main, refaddr, consts);
        let found = linked_at(code, p, is_main, refaddr, consts)->Ok_0;
        assert(out.subrange(p - from, p - from + found.len()) =~= rest.subrange(
            p - next,
            p - next + found.len(),
        ));
    }
}

/// The opcode and the operand of each instruction of linked bytecode.
///
/// `invokestatic` keeps its opcode, and its operand is what `refaddr` holds
/// for the operand it had. `ldc` keeps its opcode, and its operand is what
/// `consts` holds for the operand it had. `return` is the halt byte in
/// `main` and is kept elsewhere. Any other opcode is kept.
pub proof fn lemma_linked_operands(
    code: Seq<u8>,
    p: int,
    is_main: bool,
    refaddr: Map<u16, u16>,
    consts: Map<u16, u16>,
)
    requires
        instruction_at(code, 0, p),
        rewritten(code, is_main, refaddr, consts) is Ok,
    ensures
        ({
            let out = rewritten(code, is_main, refaddr, consts)->Ok_0;
            &&& 0 <= p < code.len() == out.len()
            &&& code[p] == INVOKESTATIC ==> {
                &&& p + 3 <= code.len()
                &&& out[p] == INVOKESTATIC
                &&& refaddr.contains_key(be16(code, p + 1) as u16)
                &&& be16(out, p + 1) == refaddr[be16(code, p + 1) as u16]
            }
            &&& code[p] == LDC ==> {
                &&& p + 2 <= code.len()
                &&& out[p] == LDC
                &&& consts.contains_key(code[p + 1] as u16)
                &&& out[p + 1] == consts[code[p + 1] as u16] % 256
            }
            &&& code[p] == RETURN ==> out[p] == if is_main {
                HALT
            } else {
                RETURN
            }
            &&& !is_relinked(code, p, is_main) ==> out[p] == code[p]
        }),
{
    let out = rewritten(code, is_main, refaddr, consts)->Ok_0;
    let piece = linked_at(code, p, is_main, refaddr, consts)->Ok_0;
    lemma_rewritten_len(code, 0, is_main, refaddr, consts);
    lemma_rewritten_instruction(code, 0, p, is_main, refaddr, consts);
    assert(out.subrange(p, p + piece.len()) == piece);
    assert(out[p] == out.subrange(p, p + piece.len())[0]);
    if code[p] == INVOKESTATIC {
        assert(out[p + 1] == out.subrange(p, p + piece.len())[1]);
        assert(out[p + 2] == out.subrange(p, p + piece.len())[2]);
    } else if code[p] == LDC {
        assert(out[p + 1] == out.subrange(p, p + piece.len())[1]);
    }
}

/// Bytecode without `invokestatic` and `ldc`, and without `return` where it
/// is the bytecode of `main`, is linked as it is.
pub proof fn lemma_rewritten_untouched(
    code: Seq<u8>,
    pos: int,
    is_main: bool,
    refaddr: Map<u16, u16>,
    consts: Map<u16, u16>,
)
    requires
        0 <= pos <= code.len(),
        rewritten_from(code, pos, is_main, refaddr, consts) is Ok,
        forall|p: int| #[trigger] instruction_at(code, pos, p) ==> !is_relinked(code, p, is_main),
    ensures
        rewritten_from(code, pos, is_main, refaddr, consts)->Ok_0 == code.subrange(
            pos,
            code.len() as int,
        ),
    decreases code.len() - pos,
{
    if pos < code.len() {
        let args = op_args(code[pos])->Some_0;
        let next = next_instruction(code, pos, args);
        assert(instruction_at(code, pos, pos));
        assert forall|p: int| #[trigger] instruction_at(code, next, p) implies !is_relinked(
            code,
            p,
            is_main,
        ) by {
            assert(instruction_at(code, pos, p));
        }
        lemma_rewritten_untouched(code, next, is_main, refaddr, consts);
        assert(code.subrange(pos, next) + code.subrange(next, code.len() as int) =~= code.subrange(
            pos,
            code.len() as int,
        ));
    } else {
        assert(code.subrange(pos, code.len() as int) =~= Seq::<u8>::empty());
    }
}

/// Links the operands of the bytecode `code`.
pub fn rewrite(
    code: &Vec<u8>,
    is_main: bool,
    refaddr: &HashMap<u16, u16>,
    intrefs: &BTreeMap<u16, u16>,
) -> (r: Result<Vec<u8>, BaliError>)
    ensures
        is_result(r, rewritten(code@, is_main, refaddr@, intrefs@)),
{
    let mut out: Vec<u8> = Vec::with_capacity(code.len());
    let mut pos: usize = 0;
    while pos < code.len()
        invariant
            pos <= code@.len(),
            rewritten(code@, is_main, refaddr@, intrefs@) == after(
                out@,
                rewritten_from(code@, pos as int, is_main, refaddr@, intrefs@),
            ),
        decreases code@.len() - pos,
    {
        let opcode = code[pos];
        let ghost before = out@;
        let args = match op_width(opcode) {
            Some(args) => args,
            None => {
                return Err(BaliError::UnknownOpcode);
            },
        };
        if opcode == INVOKESTATIC {
            if code.len() - pos < 3 {
                return Err(BaliError::TruncatedCode);
            }
            let oldref: u16 = (code[pos + 1] as u16) * 256 + code[pos + 2] as u16;
            let newref: u16 = match refaddr.get(&oldref) {
                Some(newref) => *newref,
                None => {
                    return Err(BaliError::UnresolvedMethod);
                },
            };
            out.push(opcode);
            out.push((newref / 256) as u8);
            out.push((newref % 256) as u8);
            proof {
                let piece = seq![INVOKESTATIC, (newref / 256) as u8, (newref % 256) as u8];
                let rest = rewritten_from(code@, pos + 3, is_main, refaddr@, intrefs@);
                assert(out@ =~= before + piece);
                if rest is Ok {
                    assert(before + (piece + rest->Ok_0) =~= out@ + rest->Ok_0);
                }
            }
            pos = pos + 3;
        } else if opcode == LDC {
            if code.len() - pos < 2 {
                return Err(BaliError::TruncatedCode);
            }
            let oldref: u16 = code[pos + 1] as u16;
            let newref: u16 = match intrefs.get(&oldref) {
                Some(newref) => *newref,
                None => {
                    return Err(BaliError::NotAnInteger);
                },
            };
            out.push(opcode);
            out.push((newref % 256) as u8);
            proof {
                let piece = seq![LDC, (newref % 256) as u8];
                let rest = rewritten_from(code@, pos + 2, is_main, refaddr@, intrefs@);
                assert(out@ =~= before + piece);
                if rest is Ok {
                    assert(before + (piece + rest->Ok_0) =~= out@ + rest->Ok_0);
                }
            }
            pos = pos + 2;
        } else if opcode == RETURN && is_main {
            out.push(HALT);
            proof {
                let piece = seq![HALT];
                let rest = rewritten_from(code@, pos + 1, is_main, refaddr@, intrefs@);
                assert(out@ =~= before + piece);
                if rest is Ok {
                    assert(before + (piece + rest->Ok_0) =~= out@ + rest->Ok_0);
                }
            }
            pos = pos + 1;
        } else {
            let next = if code.len() - pos - 1 >= args as usize {
                pos + 1 + args as usize
            } else {
                code.len()
            };
            push_range(&mut out, code.as_slice(), pos, next);
            proof {
                let rest = rewritten_from(code@, next as int, is_main, refaddr@, intrefs@);
                if rest is Ok {
                    assert(before + (code@.subrange(pos as int, next as int) + rest->Ok_0) =~= out@
                        + rest->Ok_0);
                }
            }
            pos = next;
        }
    }
    assert(out@ + Seq::<u8>::empty() =~= out@);
    Ok(out)
}

/// Maps the pool index of each method reference to the table index of the
/// method that it names.
pub(crate) fn refaddr_of(refs: &BiMap<u16, String>, slots: &MethodTable<u16>) -> (r: Result<
    HashMap<u16, u16>,
    BaliError,
>)
    ensures
        is_result(r, spec_refaddr(ref_pairs(*refs), slots@)),
{
    let entries = refs_entries(refs);
    let ghost pairs = ref_pairs(*refs);
    let mut refaddr: HashMap<u16, u16> = HashMap::new();
    let mut i: usize = 0;
    while i < entries.len()
        invariant
            i <= entries@.len(),
            pairs == ref_pairs(*refs),
            forall|j: int|
                0 <= j < entries@.len() ==> pairs.contains_pair(
                    (#[trigger] entries@[j]).0,
                    entries@[j].1@,
                ),
            forall|j: int|
                0 <= j < i && is_linked(pairs, (#[trigger] entries@[j]).0) ==> {
                    &&& table_get(slots@, entries@[j].1@) is Some
                    &&& refaddr@.contains_key(entries@[j].0)
                    &&& refaddr@[entries@[j].0] == table_get(slots@, entries@[j].1@)->Some_0
                },
            forall|index: u16| #[trigger]
                refaddr@.contains_key(index) ==> is_linked(pairs, index) && exists|j: int|
                    0 <= j < i && (#[trigger] entries@[j]).0 == index,
        decreases entries@.len() - i,
    {
        let index: u16 = entries[i].0;
        if !str_eq(entries[i].1.as_str(), INIT_SIG) {
            match slots.get(entries[i].1.as_str()) {
                Some(slot) => {
                    refaddr.insert(index, *slot);
                },
                None => {
                    assert(is_linked(pairs, index) && table_get(slots@, pairs[index]) is None);
                    return Err(BaliError::UnresolvedMethod);
                },
            }
        }
        i = i + 1;
    }
    proof {
        assert forall|index: u16| #[trigger] is_linked(pairs, index) implies table_get(
            slots@,
            pairs[index],
        ) is Some && refaddr@.contains_key(index) && refaddr@[index] == table_get(
            slots@,
            pairs[index],
        )->Some_0 by {
            let j = choose|j: int| 0 <= j < entries@.len() && (#[trigger] entries@[j]).0 == index;
            assert(pairs.contains_pair(entries@[j].0, entries@[j].1@));
        }
        assert(refaddr@ =~= spec_refaddr(pairs, slots@)->Ok_0);
    }
    Ok(refaddr)
}

/// Generates the image that is written to the program memory of the
/// processor: the lookup table, and behind it the linked bytecode of every
/// method in the order of the layout.
pub fn binarygen(classinfo: &ClassFile) -> (r: Result<Vec<u8>, BaliError>)
    requires
        classinfo@.pool_wf(),
    ensures
        is_result(r, spec_binarygen(classinfo@)),
{
    let methodrefs = methodrefs(classinfo)?;
    let codeblocks = codeblocks(classinfo)?;
    let (memlayout, codesize) = layout_of(&codeblocks)?;
    proof {
        lemma_layout_of_blocks(codeblocks@);
    }
    let ghost layout = layout_of_blocks(codeblocks@)->Ok_0.0;
    let entries = layout_vec(&memlayout, Ghost(layout));
    let pool = constants(classinfo);
    assert forall|i: int| 0 <= i < entries@.len() implies table_get(
        codeblocks@,
        (#[trigger] entries@[i]).1@,
    ) is Some by {
        assert(entry_views(entries@)[i] == (entries@[i].0, entries@[i].1@));
    }
    assert forall|i: int| 0 <= i < entries@.len() implies (#[trigger] entries@[i]).0
        <= codesize by {
        assert(entry_views(entries@)[i] == (entries@[i].0, entries@[i].1@));
    }
    let (mut methodlut, intrefs, methodaddrs) = luts_of(
        &pool,
        classinfo.constpool.len(),
        &codeblocks,
        &entries,
        codesize,
    )?;
    let refaddr = refaddr_of(&methodrefs, &methodaddrs)?;
    let ghost lut = methodlut@;
    proof {
        let pool_len = classinfo.constpool@.len() as int;
        lemma_int_count_bounds(pool_views(pool@), pool_len);
        lemma_method_entries_len(
            lut_size(layout.len() as int, int_count(pool_views(pool@), pool_len)),
            layout,
            codeblocks@,
            layout.len() as int,
        );
        lemma_int_entries_len(pool_views(pool@), pool_len);
    }
    let memsize: usize = methodlut.len() + codesize as usize;
    let mut mem: Vec<u8> = Vec::with_capacity(memsize);
    mem.append(&mut methodlut);
    assert(mem@ =~= lut + Seq::<u8>::empty());
    assert(spec_binarygen(classinfo@) == after(
        lut,
        bodies(layout, codeblocks@, refaddr@, intrefs@, layout.len() as int),
    ));
    let mut i: usize = 0;
    while i < entries.len()
        invariant
            i <= entries@.len(),
            layout == entry_views(entries@),
            spec_binarygen(classinfo@) == after(
                lut,
                bodies(layout, codeblocks@, refaddr@, intrefs@, layout.len() as int),
            ),
            forall|i: int|
                0 <= i < entries@.len() ==> table_get(
                    codeblocks@,
                    (#[trigger] entries@[i]).1@,
                ) is Some,
            bodies(layout, codeblocks@, refaddr@, intrefs@, i as int) is Ok,
            mem@ == lut + bodies(layout, codeblocks@, refaddr@, intrefs@, i as int)->Ok_0,
        decreases entries@.len() - i,
    {
        assert(layout[i as int] == (entries@[i as int].0, entries@[i as int].1@));
        let methodname: &str = entries[i].1.as_str();
        let ghost before = bodies(layout, codeblocks@, refaddr@, intrefs@, i as int)->Ok_0;
        if !str_eq(methodname, INIT_SIG) {
            match codeblocks.get(methodname) {
                Some(block) => {
                    match rewrite(&block.code, str_eq(methodname, MAIN_SIG), &refaddr, &intrefs) {
                        Ok(mut code_new) => {
                            assert(lut + (before + code_new@) =~= mem@ + code_new@);
                            mem.append(&mut code_new);
                        },
                        Err(e) => {
                            proof {
                                assert(bodies(layout, codeblocks@, refaddr@, intrefs@, i + 1)
                                    == Err::<Seq<u8>, BaliError>(e));
                                lemma_bodies_error(
                                    layout,
                                    codeblocks@,
                                    refaddr@,
                                    intrefs@,
                                    i + 1,
                                    layout.len() as int,
                                );
                            }
                            return Err(e);
                        },
                    }
                },
                None => {},
            }
        }
        i = i + 1;
    }
    Ok(mem)
}

} // verus!
