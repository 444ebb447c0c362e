//! What holds of every image: where its parts stand, and what the linked
//! operands are.

use crate::bytes::be16;
use crate::error::BaliError;
use crate::bimaps::one_to_one;
use crate::layout::{
    ascending, code_size, distinct_keys, gapless, layout_of_blocks, lemma_layout_injective,
    lemma_layout_size, lemma_layout_without_init, lemma_main_first, pairs_of, spec_memlayout,
};
use crate::methods::{lemma_blocks_sorted, spec_codeblocks};
use crate::pool::{spec_constants, spec_methodrefs};
use crate::reader::spec_classfile;
use crate::lut::{
    int_count, int_entries, lemma_const_slots_range, lemma_int_count_bounds,
    lemma_int_entries_len, lemma_layout_of_blocks, lemma_method_entry_address, lemma_name_slots,
    lut_of, lut_size, method_entries,
};
use crate::memory::{
    bodies, image_of, instruction_at, is_linked, is_relinked, lemma_linked_operands,
    lemma_rewritten_len, rewritten, spec_binarygen, spec_refaddr,
};
use crate::opcodes::{HALT, INVOKESTATIC, LDC, RETURN};
use crate::signature::{INIT_SIG, MAIN_SIG};
use crate::structs::{BaliCodeView, ClassFileView, ConstPoolValueView};
use crate::table::{lemma_table_find, sorted_by_key, table_find, table_get};
use vstd::prelude::*;

verus! {

/// What an image is assembled from.
pub ghost struct ImageParts {
    /// The methods in ascending order of their addresses.
    pub layout: Seq<(u16, Seq<char>)>,
    /// The size of the bytecode of all methods.
    pub code_size: u16,
    /// The lookup table.
    pub lut: Seq<u8>,
    /// The table index of each integer, under its pool index.
    pub consts: Map<u16, u16>,
    /// The table index of each method, under its signature.
    pub slots: Seq<(Seq<char>, u16)>,
    /// The table index of the method that each method reference names.
    pub refaddr: Map<u16, u16>,
}

/// The parts of the image for `refs`, `pool` and `blocks`, where there is one.
pub open spec fn image_parts(
    refs: Map<u16, Seq<char>>,
    pool: Map<u16, ConstPoolValueView>,
    pool_len: int,
    blocks: Seq<(Seq<char>, BaliCodeView)>,
) -> ImageParts {
    let (layout, code_size) = layout_of_blocks(blocks)->Ok_0;
    let (lut, consts, slots) = lut_of(pool, pool_len, blocks, layout, code_size)->Ok_0;
    ImageParts { layout, code_size, lut, consts, slots, refaddr: spec_refaddr(refs, slots)->Ok_0 }
}

/// The bytecode of the method with the table index `k`, before it is linked.
pub open spec fn method_code(
    parts: ImageParts,
    blocks: Seq<(Seq<char>, BaliCodeView)>,
    k: int,
) -> Seq<u8> {
    table_get(blocks, parts.layout[k].1)->Some_0.code
}

/// The bytecode of the method with the table index `k`, linked.
pub open spec fn linked_code(
    parts: ImageParts,
    blocks: Seq<(Seq<char>, BaliCodeView)>,
    k: int,
) -> Seq<u8> {
    rewritten(
        method_code(parts, blocks, k),
        parts.layout[k].1 == MAIN_SIG@,
        parts.refaddr,
        parts.consts,
    )->Ok_0
}

/// The linked bytecode of the first `n` methods is as long as their bytecode
/// was, and that of each method stands at the address of the method.
pub proof fn lemma_bodies_at(
    layout: Seq<(u16, Seq<char>)>,
    blocks: Seq<(Seq<char>, BaliCodeView)>,
    refaddr: Map<u16, u16>,
    consts: Map<u16, u16>,
    n: int,
    k: int,
)
    requires
        0 <= k < n <= layout.len(),
        bodies(layout, blocks, refaddr, consts, n) is Ok,
        forall|i: int| 0 <= i < layout.len() ==> (#[trigger] layout[i]).1 != INIT_SIG@,
    ensures
        bodies(layout, blocks, refaddr, consts, n)->Ok_0.len() == code_size(layout, blocks, n),
        rewritten(
            table_get(blocks, layout[k].1)->Some_0.code,
            layout[k].1 == MAIN_SIG@,
            refaddr,
            consts,
        ) is Ok,
        0 <= code_size(layout, blocks, k) <= code_size(layout, blocks, k + 1) <= code_size(
            layout,
            blocks,
            n,
        ),
        bodies(layout, blocks, refaddr, consts, n)->Ok_0.subrange(
            code_size(layout, blocks, k),
            code_size(layout, blocks, k + 1),
        ) == rewritten(
            table_get(blocks, layout[k].1)->Some_0.code,
            layout[k].1 == MAIN_SIG@,
            refaddr,
            consts,
        )->Ok_0,
    decreases n,
{
    let before = bodies(layout, blocks, refaddr, consts, n - 1)->Ok_0;
    let all = bodies(layout, blocks, refaddr, consts, n)->Ok_0;
    let key = layout[n - 1].1;
    let code = table_get(blocks, key)->Some_0.code;
    let body = rewritten(code, key == MAIN_SIG@, refaddr, consts)->Ok_0;
    lemma_bodies_len(layout, blocks, refaddr, consts, n - 1);
    lemma_rewritten_len(code, 0, key == MAIN_SIG@, refaddr, consts);
    assert(all == before + body);
    if k == n - 1 {
        assert(all.subrange(before.len() as int, all.len() as int) =~= body);
    } else {
        lemma_bodies_at(layout, blocks, refaddr, consts, n - 1, k);
        assert(all.subrange(code_size(layout, blocks, k), code_size(layout, blocks, k + 1))
            =~= before.subrange(code_size(layout, blocks, k), code_size(layout, blocks, k + 1)));
    }
}

/// The linked bytecode of the first `n` methods is as long as their bytecode
/// was.
pub proof fn lemma_bodies_len(
    layout: Seq<(u16, Seq<char>)>,
    blocks: Seq<(Seq<char>, BaliCodeView)>,
    refaddr: Map<u16, u16>,
    consts: Map<u16, u16>,
    n: int,
)
    requires
        0 <= n <= layout.len(),
        bodies(layout, blocks, refaddr, consts, n) is Ok,
        forall|i: int| 0 <= i < layout.len() ==> (#[trigger] layout[i]).1 != INIT_SIG@,
    ensures
        bodies(layout, blocks, refaddr, consts, n)->Ok_0.len() == code_size(layout, blocks, n),
        0 <= code_size(layout, blocks, n),
    decreases n,
{
    if n > 0 {
        let key = layout[n - 1].1;
        let code = table_get(blocks, key)->Some_0.code;
        lemma_bodies_len(layout, blocks, refaddr, consts, n - 1);
        lemma_rewritten_len(code, 0, key == MAIN_SIG@, refaddr, consts);
    }
}

/// Where the parts of an image stand.
///
/// The image has the size of the lookup table and of the bytecode together.
/// The entry of the method with the table index `k` holds the address at
/// which the linked bytecode of that method stands in the image: the size of
/// the table plus the address of the method in the code region.
pub proof fn lemma_image_structure(
    refs: Map<u16, Seq<char>>,
    pool: Map<u16, ConstPoolValueView>,
    pool_len: int,
    blocks: Seq<(Seq<char>, BaliCodeView)>,
    k: int,
)
    requires
        sorted_by_key(blocks),
        0 <= pool_len,
        image_of(refs, pool, pool_len, blocks) is Ok,
        0 <= k < image_parts(refs, pool, pool_len, blocks).layout.len(),
    ensures
        ({
            let parts = image_parts(refs, pool, pool_len, blocks);
            let image = image_of(refs, pool, pool_len, blocks)->Ok_0;
            let lut_bytes = lut_size(parts.layout.len() as int, int_count(pool, pool_len));
            let start = lut_bytes + parts.layout[k].0;
            &&& parts.lut.len() == lut_bytes
            &&& image.len() == lut_bytes + parts.code_size
            &&& image.subrange(0, lut_bytes) == parts.lut
            &&& be16(image, 4 * k) == start
            &&& start + method_code(parts, blocks, k).len() <= image.len()
            &&& rewritten(
                method_code(parts, blocks, k),
                parts.layout[k].1 == MAIN_SIG@,
                parts.refaddr,
                parts.consts,
            ) is Ok
            &&& image.subrange(start, start + method_code(parts, blocks, k).len()) == linked_code(
                parts,
                blocks,
                k,
            )
        }),
{
    let parts = image_parts(refs, pool, pool_len, blocks);
    let image = image_of(refs, pool, pool_len, blocks)->Ok_0;
    let methods = parts.layout.len() as int;
    let ints = int_count(pool, pool_len);
    let lut_bytes = lut_size(methods, ints);
    let code = bodies(parts.layout, blocks, parts.refaddr, parts.consts, methods)->Ok_0;
    lemma_layout_of_blocks(blocks);
    lemma_layout_size(blocks);
    lemma_layout_without_init(blocks);
    lemma_int_count_bounds(pool, pool_len);
    lemma_method_entry_address(lut_bytes, parts.layout, blocks, methods, k);
    lemma_int_entries_len(pool, pool_len);
    lemma_bodies_at(parts.layout, blocks, parts.refaddr, parts.consts, methods, k);
    lemma_rewritten_len(
        method_code(parts, blocks, k),
        0,
        parts.layout[k].1 == MAIN_SIG@,
        parts.refaddr,
        parts.consts,
    );
    let entries = method_entries(lut_bytes, parts.layout, blocks, methods);
    assert(parts.lut == entries + int_entries(pool, pool_len));
    assert(image == parts.lut + code);
    assert(image.subrange(0, lut_bytes) =~= parts.lut);
    assert(image[4 * k] == entries[4 * k]);
    assert(image[4 * k + 1] == entries[4 * k + 1]);
    let from = code_size(parts.layout, blocks, k);
    let to = code_size(parts.layout, blocks, k + 1);
    assert(to == from + method_code(parts, blocks, k).len());
    assert(image.subrange(lut_bytes + from, lut_bytes + to) =~= code.subrange(from, to));
}

/// The table indices that the linker puts into the bytecode: that of a
/// method is below the number of methods, and that of an integer is at or
/// above it, below the number of all entries, and no more than a byte.
pub proof fn lemma_parts_ranges(
    refs: Map<u16, Seq<char>>,
    pool: Map<u16, ConstPoolValueView>,
    pool_len: int,
    blocks: Seq<(Seq<char>, BaliCodeView)>,
)
    requires
        0 <= pool_len,
        image_of(refs, pool, pool_len, blocks) is Ok,
    ensures
        forall|index: u16| #[trigger]
            image_parts(refs, pool, pool_len, blocks).refaddr.contains_key(index) ==> image_parts(
                refs,
                pool,
                pool_len,
                blocks,
            ).refaddr[index] < image_parts(refs, pool, pool_len, blocks).layout.len(),
        forall|index: u16| #[trigger]
            image_parts(refs, pool, pool_len, blocks).consts.contains_key(index) ==> {
                &&& image_parts(refs, pool, pool_len, blocks).layout.len() <= image_parts(
                    refs,
                    pool,
                    pool_len,
                    blocks,
                ).consts[index] < image_parts(refs, pool, pool_len, blocks).layout.len()
                    + int_count(pool, pool_len)
                &&& image_parts(refs, pool, pool_len, blocks).consts[index] < 256
            },
{
    let parts = image_parts(refs, pool, pool_len, blocks);
    let methods = parts.layout.len() as int;
    lemma_int_count_bounds(pool, pool_len);
    assert forall|index: u16| #[trigger] parts.refaddr.contains_key(index) implies
        parts.refaddr[index] < methods by {
        assert(is_linked(refs, index));
        lemma_table_find(parts.slots, refs[index]);
        lemma_name_slots(parts.layout, methods);
    }
    assert forall|index: u16| #[trigger] parts.consts.contains_key(index) implies methods
        <= parts.consts[index] < methods + int_count(pool, pool_len) && parts.consts[index]
        < 256 by {
        lemma_const_slots_range(pool, pool_len, methods, index);
    }
}

/// What the linked operands are, for the instruction that starts at `p` in
/// the bytecode of the method with the table index `k`.
///
/// The instruction stands in the image where the entry of the method points
/// to, `p` bytes further on. Where it is `invokestatic`, its operand is the
/// table index of a method. Where it is `ldc`, its operand is the table index
/// of an integer: it lies behind the indices of the methods. Where it is
/// `return`, it has become the halt byte in `main` and is `return` still in
/// any other method. Any other opcode is kept.
pub proof fn lemma_image_operands(
    refs: Map<u16, Seq<char>>,
    pool: Map<u16, ConstPoolValueView>,
    pool_len: int,
    blocks: Seq<(Seq<char>, BaliCodeView)>,
    k: int,
    p: int,
)
    requires
        sorted_by_key(blocks),
        0 <= pool_len,
        image_of(refs, pool, pool_len, blocks) is Ok,
        0 <= k < image_parts(refs, pool, pool_len, blocks).layout.len(),
        instruction_at(method_code(image_parts(refs, pool, pool_len, blocks), blocks, k), 0, p),
    ensures
        ({
            let parts = image_parts(refs, pool, pool_len, blocks);
            let image = image_of(refs, pool, pool_len, blocks)->Ok_0;
            let methods = parts.layout.len() as int;
            let ints = int_count(pool, pool_len);
            let code = method_code(parts, blocks, k);
            let at = lut_size(methods, ints) + parts.layout[k].0 + p;
            let in_main = parts.layout[k].1 == MAIN_SIG@;
            &&& 0 <= at < image.len()
            &&& code[p] == INVOKESTATIC ==> at + 3 <= image.len() && image[at] == INVOKESTATIC
                && be16(image, at + 1) < methods
            &&& code[p] == LDC ==> at + 2 <= image.len() && image[at] == LDC && methods
                <= image[at + 1] < methods + ints
            &&& code[p] == RETURN ==> image[at] == if in_main {
                HALT
            } else {
                RETURN
            }
            &&& !is_relinked(code, p, in_main) ==> image[at] == code[p]
        }),
{
    let parts = image_parts(refs, pool, pool_len, blocks);
    let image = image_of(refs, pool, pool_len, blocks)->Ok_0;
    let code = method_code(parts, blocks, k);
    let start = lut_size(parts.layout.len() as int, int_count(pool, pool_len)) + parts.layout[k].0;
    let in_main = parts.layout[k].1 == MAIN_SIG@;
    lemma_image_structure(refs, pool, pool_len, blocks, k);
    lemma_parts_ranges(refs, pool, pool_len, blocks);
    lemma_operands_in_image(
        image,
        start,
        code,
        p,
        in_main,
        parts.refaddr,
        parts.consts,
        parts.layout.len() as int,
        int_count(pool, pool_len),
    );
}

/// What the linked operands are, for the instruction that starts at `p` in
/// bytecode whose linked form stands at `start` in `image`.
proof fn lemma_operands_in_image(
    image: Seq<u8>,
    start: int,
    code: Seq<u8>,
    p: int,
    in_main: bool,
    refaddr: Map<u16, u16>,
    consts: Map<u16, u16>,
    methods: int,
    ints: int,
)
    requires
        0 <= start,
        start + code.len() <= image.len(),
        instruction_at(code, 0, p),
        rewritten(code, in_main, refaddr, consts) is Ok,
        image.subrange(start, start + code.len()) == rewritten(
            code,
            in_main,
            refaddr,
            consts,
        )->Ok_0,
        forall|index: u16| #[trigger] refaddr.contains_key(index) ==> refaddr[index] < methods,
        forall|index: u16| #[trigger]
            consts.contains_key(index) ==> methods <= consts[index] < methods + ints
                && consts[index] < 256,
    ensures
        0 <= start + p < image.len(),
        code[p] == INVOKESTATIC ==> start + p + 3 <= image.len() && image[start + p]
            == INVOKESTATIC && be16(image, start + p + 1) < methods,
        code[p] == LDC ==> start + p + 2 <= image.len() && image[start + p] == LDC && methods
            <= image[start + p + 1] < methods + ints,
        code[p] == RETURN ==> image[start + p] == if in_main {
            HALT
        } else {
            RETURN
        },
        !is_relinked(code, p, in_main) ==> image[start + p] == code[p],
{
    lemma_linked_operands(code, p, in_main, refaddr, consts);
    lemma_subrange_index(image, start, code.len() as int, p);
    if code[p] == INVOKESTATIC {
        lemma_subrange_index(image, start, code.len() as int, p + 1);
        lemma_subrange_index(image, start, code.len() as int, p + 2);
    } else if code[p] == LDC {
        lemma_subrange_index(image, start, code.len() as int, p + 1);
    }
}

/// The byte at `i` of a part of `s` is the byte of `s` that stands `i`
/// behind the start of the part.
proof fn lemma_subrange_index(s: Seq<u8>, start: int, len: int, i: int)
    requires
        0 <= start,
        0 <= i < len,
        start + len <= s.len(),
    ensures
        s.subrange(start, start + len)[i] == s[start + i],
{
}

/// The parts of the image of `class`, where it has one.
pub open spec fn class_parts(class: ClassFileView) -> ImageParts {
    image_parts(
        spec_methodrefs(class)->Ok_0,
        spec_constants(class),
        class.constpool.len() as int,
        spec_codeblocks(class)->Ok_0,
    )
}

/// The bytecode of the method of `class` with the table index `k`, as the
/// method table holds it.
pub open spec fn class_code(class: ClassFileView, k: int) -> Seq<u8> {
    method_code(class_parts(class), spec_codeblocks(class)->Ok_0, k)
}

/// What holds of the layout of every class.
///
/// The layout is injective both ways: its addresses ascend, so that none
/// holds two methods, and no method stands at two addresses. The methods
/// stand one behind the other: each address is the size of the bytecode
/// before it, and the size of the layout is the size of all the bytecode.
/// A class with a layout has a `main`, and `main` stands at address 0 where
/// its bytecode is not empty.
pub proof fn lemma_memlayout(class: ClassFileView)
    requires
        spec_memlayout(class) is Ok,
    ensures
        ({
            let (layout, size) = spec_memlayout(class)->Ok_0;
            let blocks = spec_codeblocks(class)->Ok_0;
            &&& ascending(layout)
            &&& distinct_keys(layout)
            &&& one_to_one(pairs_of(layout))
            &&& gapless(layout, blocks, size as int)
            &&& table_get(blocks, MAIN_SIG@) is Some
            &&& table_get(blocks, MAIN_SIG@)->Some_0.code.len() > 0 ==> layout[0] == (
                0u16,
                MAIN_SIG@,
            ) && pairs_of(layout).contains_pair(0u16, MAIN_SIG@)
        }),
{
    let blocks = spec_codeblocks(class)->Ok_0;
    lemma_blocks_sorted(spec_constants(class), class.methods, class.methods.len() as int);
    lemma_layout_injective(blocks);
    lemma_layout_size(blocks);
    if table_get(blocks, MAIN_SIG@)->Some_0.code.len() > 0 {
        lemma_main_first(blocks);
    }
}

/// Where the parts of the image of a class stand.
///
/// The image has the size of the lookup table and of the bytecode together.
/// The entry of the method with the table index `k` holds the address at
/// which the linked bytecode of that method stands in the image: the size of
/// the table plus the address of the method in the layout.
pub proof fn lemma_binarygen_structure(class: ClassFileView, k: int)
    requires
        0 <= k < class_parts(class).layout.len(),
        spec_binarygen(class) is Ok,
    ensures
        ({
            let parts = class_parts(class);
            let image = spec_binarygen(class)->Ok_0;
            let lut_bytes = lut_size(
                parts.layout.len() as int,
                int_count(spec_constants(class), class.constpool.len() as int),
            );
            let start = lut_bytes + parts.layout[k].0;
            &&& spec_memlayout(class) == Ok::<(Seq<(u16, Seq<char>)>, u16), BaliError>(
                (parts.layout, parts.code_size),
            )
            &&& image.len() == lut_bytes + parts.code_size
            &&& image.subrange(0, lut_bytes) == parts.lut
            &&& be16(image, 4 * k) == start
            &&& start + class_code(class, k).len() <= image.len()
            &&& image.subrange(start, start + class_code(class, k).len()) == linked_code(
                parts,
                spec_codeblocks(class)->Ok_0,
                k,
            )
        }),
{
    lemma_blocks_sorted(spec_constants(class), class.methods, class.methods.len() as int);
    lemma_image_structure(
        spec_methodrefs(class)->Ok_0,
        spec_constants(class),
        class.constpool.len() as int,
        spec_codeblocks(class)->Ok_0,
        k,
    );
}

/// What the linked operands in the image of a class are, for the
/// instruction that starts at `p` in the bytecode of the method with the
/// table index `k`.
///
/// The instruction stands in the image where the entry of the method points
/// to, `p` bytes further on. Where it is `invokestatic`, its operand is below
/// the number of methods. Where it is `ldc`, its operand is at least the
/// number of methods and below the number of methods and integers together.
/// Where it is `return`, it has become the halt byte in `main` and is
/// `return` still in any other method. Any other opcode is kept.
pub proof fn lemma_binarygen_operands(class: ClassFileView, k: int, p: int)
    requires
        0 <= k < class_parts(class).layout.len(),
        spec_binarygen(class) is Ok,
        instruction_at(class_code(class, k), 0, p),
    ensures
        ({
            let parts = class_parts(class);
            let image = spec_binarygen(class)->Ok_0;
            let methods = parts.layout.len() as int;
            let ints = int_count(spec_constants(class), class.constpool.len() as int);
            let code = class_code(class, k);
            let at = lut_size(methods, ints) + parts.layout[k].0 + p;
            let in_main = parts.layout[k].1 == MAIN_SIG@;
            &&& 0 <= at < image.len()
            &&& code[p] == INVOKESTATIC ==> at + 3 <= image.len() && image[at] == INVOKESTATIC
                && be16(image, at + 1) < methods
            &&& code[p] == LDC ==> at + 2 <= image.len() && image[at] == LDC && methods
                <= image[at + 1] < methods + ints
            &&& code[p] == RETURN ==> image[at] == if in_main {
                HALT
            } else {
                RETURN
            }
            &&& !is_relinked(code, p, in_main) ==> image[at] == code[p]
        }),
{
    lemma_blocks_sorted(spec_constants(class), class.methods, class.methods.len() as int);
    lemma_image_operands(
        spec_methodrefs(class)->Ok_0,
        spec_constants(class),
        class.constpool.len() as int,
        spec_codeblocks(class)->Ok_0,
        k,
        p,
    );
}

/// The constructor is not in the image: it is not in the layout, it has no
/// entry in the lookup table, and no call is linked to it.
pub proof fn lemma_constructor_left_out(class: ClassFileView)
    requires
        spec_binarygen(class) is Ok,
    ensures
        forall|i: int|
            0 <= i < class_parts(class).layout.len() ==> (
            #[trigger] class_parts(class).layout[i]).1 != INIT_SIG@,
        table_get(class_parts(class).slots, INIT_SIG@) is None,
        forall|index: u16| #[trigger]
            class_parts(class).refaddr.contains_key(index) ==> spec_methodrefs(
                class,
            )->Ok_0[index] != INIT_SIG@,
{
    let parts = class_parts(class);
    lemma_blocks_sorted(spec_constants(class), class.methods, class.methods.len() as int);
    lemma_layout_without_init(spec_codeblocks(class)->Ok_0);
    lemma_layout_of_blocks(spec_codeblocks(class)->Ok_0);
    lemma_table_find(parts.slots, INIT_SIG@);
    lemma_int_count_bounds(spec_constants(class), class.constpool.len() as int);
    lemma_name_slots(parts.layout, parts.layout.len() as int);
    if table_get(parts.slots, INIT_SIG@) is Some {
        let i = table_find(parts.slots, INIT_SIG@)->Some_0;
        assert(parts.layout[parts.slots[i].1 as int].1 == INIT_SIG@);
    }
    assert forall|index: u16| #[trigger] parts.refaddr.contains_key(index) implies spec_methodrefs(
        class,
    )->Ok_0[index] != INIT_SIG@ by {
        assert(is_linked(spec_methodrefs(class)->Ok_0, index));
    }
}

/// The program starts behind the lookup table: where `main` has bytecode,
/// `main` is the first method of the layout, and its linked bytecode stands
/// in the image directly behind the table.
pub proof fn lemma_entry_point(class: ClassFileView)
    requires
        spec_binarygen(class) is Ok,
        table_get(spec_codeblocks(class)->Ok_0, MAIN_SIG@)->Some_0.code.len() > 0,
    ensures
        ({
            let parts = class_parts(class);
            let image = spec_binarygen(class)->Ok_0;
            let lut_bytes = lut_size(
                parts.layout.len() as int,
                int_count(spec_constants(class), class.constpool.len() as int),
            );
            &&& parts.layout.len() > 0
            &&& parts.layout[0] == (0u16, MAIN_SIG@)
            &&& be16(image, 0) == lut_bytes
            &&& lut_bytes + class_code(class, 0).len() <= image.len()
            &&& image.subrange(lut_bytes, lut_bytes + class_code(class, 0).len()) == linked_code(
                parts,
                spec_codeblocks(class)->Ok_0,
                0,
            )
        }),
{
    lemma_blocks_sorted(spec_constants(class), class.methods, class.methods.len() as int);
    lemma_main_first(spec_codeblocks(class)->Ok_0);
    lemma_layout_of_blocks(spec_codeblocks(class)->Ok_0);
    lemma_binarygen_structure(class, 0);
}

/// Whether `r` is what `binarygen` may return for a class with the view
/// `class`.
pub open spec fn is_image_of(class: ClassFileView, r: Result<Seq<u8>, BaliError>) -> bool {
    r == spec_binarygen(class)
}

/// Generating the image is deterministic: whatever two runs on the same
/// class return, be it an image or an error, is the same.
pub proof fn lemma_image_is_unique(
    class: ClassFileView,
    first: Result<Seq<u8>, BaliError>,
    second: Result<Seq<u8>, BaliError>,
)
    requires
        is_image_of(class, first),
        is_image_of(class, second),
    ensures
        first == second,
{
}

/// The image depends on the bytes of the class file alone: class files that
/// were decoded from the same bytes have the same image, or fail alike.
pub proof fn lemma_bytes_give_one_image(bytes: Seq<u8>, first: ClassFileView, second: ClassFileView)
    requires
        spec_classfile(bytes) == Ok::<ClassFileView, BaliError>(first),
        spec_classfile(bytes) == Ok::<ClassFileView, BaliError>(second),
    ensures
        spec_binarygen(first) == spec_binarygen(second),
{
}

} // verus!
