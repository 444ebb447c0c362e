//! The lookup table at the head of the image.
//!
//! It has an entry of four bytes for each method of the layout, in the order
//! of the layout, and behind these an entry of four bytes for each integer
//! constant, in the order of the constant pool. Bytecode names a method or a
//! constant by the index of its entry.

use crate::bimaps::{layout_entries, layout_pairs};
use crate::error::BaliError;
use crate::layout::{
    ascending, distinct_keys, layout_of, layout_of_blocks, lemma_layout_upto, lemma_pairs_of,
    lemma_same_entries, occurs, pairs_of, placed_key,
};
use crate::methods::{codeblocks, spec_codeblocks};
use crate::pool::{constants, pool_views, spec_constants};
use crate::signature::MAIN_SIG;
use crate::structs::{
    BaliCode, BaliCodeView, ClassFile, ClassFileView, ConstPoolValue, ConstPoolValueView,
};
use crate::bytes::be16;
use crate::table::{
    in_table, lemma_insert_entries, lemma_table_find_sorted, sorted_by_key, table_get,
    table_insert, MethodTable,
};
use crate::text::str_eq;
use bimap::BiBTreeMap;
use std::collections::BTreeMap;
use vstd::prelude::*;

verus! {

/// The number of bytes of one entry of the table.
pub const LUTENTRY: usize = 4;

/// The entries of a layout as the contracts speak of them: each address with
/// the characters of its signature.
pub open spec fn entry_views(entries: Seq<(u16, String)>) -> Seq<(u16, Seq<char>)> {
    entries.map_values(|e: (u16, String)| (e.0, e.1@))
}

/// The entry of the method `key` that stands at `addr` in the code region,
/// for a table of `lut_bytes` bytes: the address of the method in the image,
/// high byte first, the number of its parameters, which is 0 for `main`, and
/// the number of its local variables.
pub open spec fn method_entry(
    lut_bytes: int,
    addr: u16,
    key: Seq<char>,
    block: BaliCodeView,
) -> Seq<u8> {
    let target = lut_bytes + addr;
    let argcount: u8 = if key == MAIN_SIG@ {
        0u8
    } else {
        (block.argcount % 256) as u8
    };
    seq![(target / 256) as u8, (target % 256) as u8, argcount, block.max_locals as u8]
}

/// The entries of the first `n` methods of `layout`.
pub open spec fn method_entries(
    lut_bytes: int,
    layout: Seq<(u16, Seq<char>)>,
    blocks: Seq<(Seq<char>, BaliCodeView)>,
    n: int,
) -> Seq<u8>
    decreases n,
{
    if n <= 0 {
        Seq::empty()
    } else {
        method_entries(lut_bytes, layout, blocks, n - 1) + method_entry(
            lut_bytes,
            layout[n - 1].0,
            layout[n - 1].1,
            table_get(blocks, layout[n - 1].1)->Some_0,
        )
    }
}

/// Whether the pool entry with the index `k` is an integer.
pub open spec fn is_integer(pool: Map<u16, ConstPoolValueView>, k: int) -> bool {
    1 <= k <= u16::MAX && pool.contains_key(k as u16) && pool[k as u16] is Integer
}

/// The number of integers among the pool entries with an index up to `n`.
pub open spec fn int_count(pool: Map<u16, ConstPoolValueView>, n: int) -> int
    decreases n,
{
    if n <= 0 {
        0
    } else if is_integer(pool, n) {
        int_count(pool, n - 1) + 1
    } else {
        int_count(pool, n - 1)
    }
}

/// The four bytes of `value` in two's complement, high byte first.
pub open spec fn int_bytes(value: i32) -> Seq<u8> {
    let bits: int = if value < 0 {
        value + 0x1_0000_0000
    } else {
        value as int
    };
    seq![
        (bits / 0x100_0000) as u8,
        (bits / 0x1_0000 % 256) as u8,
        (bits / 0x100 % 256) as u8,
        (bits % 256) as u8,
    ]
}

/// The entries of the integers among the pool entries with an index up to `n`.
pub open spec fn int_entries(pool: Map<u16, ConstPoolValueView>, n: int) -> Seq<u8>
    decreases n,
{
    if n <= 0 {
        Seq::empty()
    } else if is_integer(pool, n) {
        int_entries(pool, n - 1) + int_bytes(pool[n as u16]->Integer_0)
    } else {
        int_entries(pool, n - 1)
    }
}

/// The table index of each integer with a pool index up to `n`: the integers
/// are numbered in the order of the pool, from `method_count` on.
pub open spec fn const_slots(pool: Map<u16, ConstPoolValueView>, n: int, method_count: int) -> Map<
    u16,
    u16,
> {
    Map::new(
        |k: u16| k <= n && is_integer(pool, k as int),
        |k: u16| (method_count + int_count(pool, k - 1)) as u16,
    )
}

/// The table index of each of the first `n` methods of `layout`, under its
/// signature: the position of the method in the layout.
pub open spec fn name_slots(layout: Seq<(u16, Seq<char>)>, n: int) -> Seq<(Seq<char>, u16)>
    decreases n,
{
    if n <= 0 {
        Seq::empty()
    } else {
        table_insert(name_slots(layout, n - 1), layout[n - 1].1, (n - 1) as u16)
    }
}

/// Whether the number of local variables of each of the first `n` methods of
/// `layout` fits into a byte.
pub open spec fn locals_fit(
    layout: Seq<(u16, Seq<char>)>,
    blocks: Seq<(Seq<char>, BaliCodeView)>,
    n: int,
) -> bool {
    forall|i: int|
        0 <= i < n && i < layout.len() ==> table_get(
            blocks,
            (#[trigger] layout[i]).1,
        )->Some_0.max_locals <= 255
}

/// The size of the table in bytes.
pub open spec fn lut_size(method_count: int, int_count: int) -> int {
    4 * (method_count + int_count)
}

/// The lookup table for the methods of `layout`, whose bytecode has
/// `code_size` bytes, and the integers of `pool`, which has `pool_len`
/// entries: the bytes of the table, the index of each integer under its pool
/// index, and the index of each method under its signature.
///
/// It is an error where the table and the bytecode together are more than
/// sixteen bits can address, where a method has more than 255 local
/// variables, and where an integer would get an index above 255. Where
/// several of these hold, the error is the first of them in this order.
pub open spec fn lut_of(
    pool: Map<u16, ConstPoolValueView>,
    pool_len: int,
    blocks: Seq<(Seq<char>, BaliCodeView)>,
    layout: Seq<(u16, Seq<char>)>,
    code_size: u16,
) -> Result<(Seq<u8>, Map<u16, u16>, Seq<(Seq<char>, u16)>), BaliError> {
    let methods = layout.len() as int;
    let ints = int_count(pool, pool_len);
    let lut_bytes = lut_size(methods, ints);
    if lut_bytes + code_size > u16::MAX {
        Err(BaliError::ImageTooLarge)
    } else if !locals_fit(layout, blocks, methods) {
        Err(BaliError::TooManyLocals)
    } else if ints > 0 && methods + ints > 256 {
        Err(BaliError::TooManyConstants)
    } else {
        Ok(
            (
                method_entries(lut_bytes, layout, blocks, methods) + int_entries(pool, pool_len),
                const_slots(pool, pool_len, methods),
                name_slots(layout, methods),
            ),
        )
    }
}

/// The lookup table of `class`.
pub open spec fn spec_luts(class: ClassFileView) -> Result<
    (Seq<u8>, Map<u16, u16>, Seq<(Seq<char>, u16)>),
    BaliError,
> {
    match spec_codeblocks(class) {
        Err(e) => Err(e),
        Ok(blocks) => match layout_of_blocks(blocks) {
            Err(e) => Err(e),
            Ok((layout, code_size)) => lut_of(
                spec_constants(class),
                class.constpool.len() as int,
                blocks,
                layout,
                code_size,
            ),
        },
    }
}

/// The number of integers among the first entries of a pool is between 0 and
/// the number of those entries.
pub proof fn lemma_int_count_bounds(pool: Map<u16, ConstPoolValueView>, n: int)
    requires
        0 <= n,
    ensures
        0 <= int_count(pool, n) <= n,
    decreases n,
{
    if n > 0 {
        lemma_int_count_bounds(pool, n - 1);
    }
}

/// The number of integers does not fall as more of the pool is counted.
pub proof fn lemma_int_count_grows(pool: Map<u16, ConstPoolValueView>, i: int, n: int)
    requires
        0 <= i <= n,
    ensures
        int_count(pool, i) <= int_count(pool, n),
    decreases n - i,
{
    if i < n {
        lemma_int_count_grows(pool, i, n - 1);
    }
}

/// The entries of `n` methods take four bytes each.
pub proof fn lemma_method_entries_len(
    lut_bytes: int,
    layout: Seq<(u16, Seq<char>)>,
    blocks: Seq<(Seq<char>, BaliCodeView)>,
    n: int,
)
    requires
        0 <= n,
    ensures
        method_entries(lut_bytes, layout, blocks, n).len() == 4 * n,
    decreases n,
{
    if n > 0 {
        lemma_method_entries_len(lut_bytes, layout, blocks, n - 1);
    }
}

/// The entries of the integers take four bytes each.
pub proof fn lemma_int_entries_len(pool: Map<u16, ConstPoolValueView>, n: int)
    requires
        0 <= n,
    ensures
        int_entries(pool, n).len() == 4 * int_count(pool, n),
    decreases n,
{
    if n > 0 {
        lemma_int_entries_len(pool, n - 1);
    }
}

/// The layout of a table of methods with ascending signatures has ascending
/// addresses and distinct signatures, and each of its methods is in the
/// table.
pub proof fn lemma_layout_of_blocks(blocks: Seq<(Seq<char>, BaliCodeView)>)
    requires
        sorted_by_key(blocks),
        layout_of_blocks(blocks) is Ok,
    ensures
        ascending(layout_of_blocks(blocks)->Ok_0.0),
        distinct_keys(layout_of_blocks(blocks)->Ok_0.0),
        layout_of_blocks(blocks)->Ok_0.0.len() > 0,
        forall|i: int|
            0 <= i < layout_of_blocks(blocks)->Ok_0.0.len() ==> table_get(
                blocks,
                (#[trigger] layout_of_blocks(blocks)->Ok_0.0[i]).1,
            ) is Some,
        forall|i: int|
            0 <= i < layout_of_blocks(blocks)->Ok_0.0.len() ==> (
            #[trigger] layout_of_blocks(blocks)->Ok_0.0[i]).0 <= layout_of_blocks(blocks)->Ok_0.1,
{
    let main = table_get(blocks, MAIN_SIG@)->Some_0;
    let n = blocks.len() as int;
    lemma_layout_upto(blocks, main.code.len() as int, n);
    let layout = layout_of_blocks(blocks)->Ok_0.0;
    assert forall|i: int| 0 <= i < layout.len() implies (#[trigger] layout[i]).0
        <= layout_of_blocks(blocks)->Ok_0.1 by {
        if i < layout.len() - 1 {
            assert(layout[i].0 < layout[layout.len() - 1].0);
        }
    }
    assert forall|i: int| 0 <= i < layout.len() implies table_get(
        blocks,
        (#[trigger] layout[i]).1,
    ) is Some by {
        assert(placed_key(blocks, n, layout[i].1));
        if layout[i].1 != MAIN_SIG@ {
            let j = choose|j: int|
                0 <= j < n && j < blocks.len() && (#[trigger] blocks[j]).0 == layout[i].1;
            lemma_table_find_sorted(blocks, j);
        }
    }
}

/// The entry of the method with the table index `k` holds the address of
/// the method in the image: the size of the table plus the address of the
/// method in the code region.
pub proof fn lemma_method_entry_address(
    lut_bytes: int,
    layout: Seq<(u16, Seq<char>)>,
    blocks: Seq<(Seq<char>, BaliCodeView)>,
    n: int,
    k: int,
)
    requires
        0 <= k < n,
        0 <= lut_bytes,
        lut_bytes + layout[k].0 <= u16::MAX,
    ensures
        method_entries(lut_bytes, layout, blocks, n).len() == 4 * n,
        be16(method_entries(lut_bytes, layout, blocks, n), 4 * k) == lut_bytes + layout[k].0,
    decreases n,
{
    lemma_method_entries_len(lut_bytes, layout, blocks, n);
    lemma_method_entries_len(lut_bytes, layout, blocks, n - 1);
    let before = method_entries(lut_bytes, layout, blocks, n - 1);
    let entry = method_entry(
        lut_bytes,
        layout[n - 1].0,
        layout[n - 1].1,
        table_get(blocks, layout[n - 1].1)->Some_0,
    );
    let all = method_entries(lut_bytes, layout, blocks, n);
    assert(all == before + entry);
    if k == n - 1 {
        assert(all[4 * k] == entry[0]);
        assert(all[4 * k + 1] == entry[1]);
    } else {
        lemma_method_entry_address(lut_bytes, layout, blocks, n - 1, k);
        assert(all[4 * k] == before[4 * k]);
        assert(all[4 * k + 1] == before[4 * k + 1]);
    }
}

/// The table index under each signature is below the number of methods, and
/// it is the position of a method with that signature in the layout.
pub proof fn lemma_name_slots(layout: Seq<(u16, Seq<char>)>, n: int)
    requires
        0 <= n <= layout.len(),
        n <= 0x1_0000,
    ensures
        forall|i: int|
            0 <= i < name_slots(layout, n).len() ==> (#[trigger] name_slots(layout, n)[i]).1 < n
                && layout[name_slots(layout, n)[i].1 as int].1 == name_slots(layout, n)[i].0,
    decreases n,
{
    if n > 0 {
        lemma_name_slots(layout, n - 1);
        let before = name_slots(layout, n - 1);
        let slots = name_slots(layout, n);
        lemma_insert_entries(before, layout[n - 1].1, (n - 1) as u16);
        assert forall|i: int| 0 <= i < slots.len() implies (#[trigger] slots[i]).1 < n
            && layout[slots[i].1 as int].1 == slots[i].0 by {
            if slots[i] != (layout[n - 1].1, (n - 1) as u16) {
                assert(in_table(before, slots[i]));
                let j = choose|j: int| 0 <= j < before.len() && before[j] == slots[i];
                assert(before[j].1 < n - 1);
            }
        }
    }
}

/// The table index of every integer constant lies behind the indices of the
/// methods and within the table.
pub proof fn lemma_const_slots_range(
    pool: Map<u16, ConstPoolValueView>,
    n: int,
    method_count: int,
    index: u16,
)
    requires
        0 <= n,
        0 <= method_count,
        method_count + int_count(pool, n) <= 0x1_0000,
        const_slots(pool, n, method_count).contains_key(index),
    ensures
        method_count <= const_slots(pool, n, method_count)[index] < method_count + int_count(
            pool,
            n,
        ),
{
    lemma_int_count_bounds(pool, index - 1);
    lemma_int_count_grows(pool, index as int, n);
    assert(int_count(pool, index as int) == int_count(pool, index - 1) + 1);
}

/// The entries of `layout` in ascending order of their addresses, where
/// `layout` is known to hold the pairs of `placed`.
pub(crate) fn layout_vec(
    layout: &BiBTreeMap<u16, String>,
    Ghost(placed): Ghost<Seq<(u16, Seq<char>)>>,
) -> (entries: Vec<(u16, String)>)
    requires
        ascending(placed),
        distinct_keys(placed),
        layout_pairs(*layout) == pairs_of(placed),
    ensures
        entry_views(entries@) == placed,
{
    let entries = layout_entries(layout);
    proof {
        let found = entry_views(entries@);
        lemma_pairs_of(placed);
        assert(ascending(found)) by {
            assert forall|i: int, j: int| 0 <= i < j < found.len() implies (#[trigger] found[i]).0
                < (#[trigger] found[j]).0 by {
                assert(entries@[i].0 < entries@[j].0);
            }
        }
        assert forall|i: int| 0 <= i < found.len() implies occurs(placed, #[trigger] found[i]) by {
            assert(pairs_of(placed).contains_pair(entries@[i].0, entries@[i].1@));
            let j = choose|j: int| 0 <= j < placed.len() && (#[trigger] placed[j]).0 == found[i].0;
            assert(pairs_of(placed).contains_pair(placed[j].0, placed[j].1));
            assert(placed[j] == found[i]);
        }
        assert forall|j: int| 0 <= j < placed.len() implies occurs(found, #[trigger] placed[j]) by {
            assert(pairs_of(placed).contains_pair(placed[j].0, placed[j].1));
            let i = choose|i: int|
                0 <= i < entries@.len() && (#[trigger] entries@[i]).0 == placed[j].0;
            assert(pairs_of(placed).contains_pair(entries@[i].0, entries@[i].1@));
            assert(found[i] == placed[j]);
        }
        lemma_same_entries(found, placed);
    }
    entries
}

/// Appends the entry of `value` to `lut`.
fn push_int(lut: &mut Vec<u8>, value: i32)
    ensures
        final(lut)@ == old(lut)@ + int_bytes(value),
{
    let bits: u32 = if value < 0 {
        (value as i64 + 0x1_0000_0000) as u32
    } else {
        value as u32
    };
    lut.push((bits / 0x100_0000) as u8);
    lut.push((bits / 0x1_0000 % 256) as u8);
    lut.push((bits / 0x100 % 256) as u8);
    lut.push((bits % 256) as u8);
    assert(lut@ =~= old(lut)@ + int_bytes(value));
}

/// Appends the entry of the method `name` to `lut`.
fn push_method(lut: &mut Vec<u8>, lut_bytes: usize, addr: u16, name: &str, block: &BaliCode)
    requires
        lut_bytes + addr <= u16::MAX,
        block.max_locals <= 255,
    ensures
        final(lut)@ == old(lut)@ + method_entry(lut_bytes as int, addr, name@, block@),
{
    let target: usize = lut_bytes + addr as usize;
    let argcount: u8 = if str_eq(name, MAIN_SIG) {
        0
    } else {
        (block.argcount % 256) as u8
    };
    lut.push((target / 256) as u8);
    lut.push((target % 256) as u8);
    lut.push(argcount);
    lut.push(block.max_locals as u8);
    assert(lut@ =~= old(lut)@ + method_entry(lut_bytes as int, addr, name@, block@));
}

/// Counts the integers of `pool`, which has `pool_len` entries.
fn count_ints(pool: &BTreeMap<u16, ConstPoolValue>, pool_len: usize) -> (ints: usize)
    requires
        pool_len < u16::MAX,
    ensures
        ints == int_count(pool_views(pool@), pool_len as int),
        ints <= pool_len,
{
    let mut ints: usize = 0;
    let mut k: usize = 0;
    while k < pool_len
        invariant
            k <= pool_len < u16::MAX,
            ints <= k,
            ints == int_count(pool_views(pool@), k as int),
        decreases pool_len - k,
    {
        k = k + 1;
        let index: u16 = k as u16;
        match pool.get(&index) {
            Some(ConstPoolValue::Integer(_)) => {
                ints = ints + 1;
            },
            _ => {},
        }
    }
    ints
}

/// Builds the lookup table for the methods in `entries`, which is a layout
/// of methods of `blocks` with `code_size` bytes of bytecode, and for the
/// integers of `pool`, which has `pool_len` entries.
pub(crate) fn luts_of(
    pool: &BTreeMap<u16, ConstPoolValue>,
    pool_len: usize,
    blocks: &MethodTable<BaliCode>,
    entries: &Vec<(u16, String)>,
    code_size: u16,
) -> (r: Result<(Vec<u8>, BTreeMap<u16, u16>, MethodTable<u16>), BaliError>)
    requires
        pool_len < u16::MAX,
        forall|i: int|
            0 <= i < entries@.len() ==> table_get(blocks@, (#[trigger] entries@[i]).1@) is Some,
        forall|i: int| 0 <= i < entries@.len() ==> (#[trigger] entries@[i]).0 <= code_size,
    ensures
        match r {
            Ok((lut, constmap, nameindex)) => lut_of(
                pool_views(pool@),
                pool_len as int,
                blocks@,
                entry_views(entries@),
                code_size,
            ) == Ok::<(Seq<u8>, Map<u16, u16>, Seq<(Seq<char>, u16)>), BaliError>(
                (lut@, constmap@, nameindex@),
            ),
            Err(e) => lut_of(
                pool_views(pool@),
                pool_len as int,
                blocks@,
                entry_views(entries@),
                code_size,
            ) == Err::<(Seq<u8>, Map<u16, u16>, Seq<(Seq<char>, u16)>), BaliError>(e),
        },
{
    let ghost layout = entry_views(entries@);
    let ghost views = pool_views(pool@);
    let methods: usize = entries.len();
    let ints: usize = count_ints(pool, pool_len);
    if methods > 0xffff {
        return Err(BaliError::ImageTooLarge);
    }
    let lut_bytes: usize = LUTENTRY * (methods + ints);
    if lut_bytes + code_size as usize > 0xffff {
        return Err(BaliError::ImageTooLarge);
    }
    let mut i: usize = 0;
    while i < methods
        invariant
            i <= methods,
            methods == entries@.len(),
            layout == entry_views(entries@),
            forall|i: int|
                0 <= i < entries@.len() ==> table_get(blocks@, (#[trigger] entries@[i]).1@) is Some,
            views == pool_views(pool@),
            ints == int_count(views, pool_len as int),
            lut_bytes == lut_size(methods as int, ints as int),
            lut_bytes + code_size <= 0xffff,
            locals_fit(layout, blocks@, i as int),
        decreases methods - i,
    {
        assert(layout[i as int] == (entries@[i as int].0, entries@[i as int].1@));
        match blocks.get(entries[i].1.as_str()) {
            Some(block) => {
                if block.max_locals > 255 {
                    assert(!locals_fit(layout, blocks@, methods as int));
                    return Err(BaliError::TooManyLocals);
                }
            },
            None => {},
        }
        i = i + 1;
    }
    if ints > 0 && methods + ints > 256 {
        return Err(BaliError::TooManyConstants);
    }
    let mut lut: Vec<u8> = Vec::with_capacity(lut_bytes);
    let mut nameindex: MethodTable<u16> = MethodTable::new();
    let mut i: usize = 0;
    while i < methods
        invariant
            i <= methods <= 0xffff,
            methods == entries@.len(),
            layout == entry_views(entries@),
            lut_bytes + code_size <= 0xffff,
            forall|i: int|
                0 <= i < entries@.len() ==> table_get(blocks@, (#[trigger] entries@[i]).1@) is Some,
            forall|i: int| 0 <= i < entries@.len() ==> (#[trigger] entries@[i]).0 <= code_size,
            locals_fit(layout, blocks@, methods as int),
            lut@ == method_entries(lut_bytes as int, layout, blocks@, i as int),
            nameindex@ == name_slots(layout, i as int),
        decreases methods - i,
    {
        assert(layout[i as int] == (entries@[i as int].0, entries@[i as int].1@));
        match blocks.get(entries[i].1.as_str()) {
            Some(block) => {
                push_method(&mut lut, lut_bytes, entries[i].0, entries[i].1.as_str(), block);
            },
            None => {},
        }
        nameindex.insert(entries[i].1.clone(), i as u16);
        i = i + 1;
    }
    let mut constmap: BTreeMap<u16, u16> = BTreeMap::new();
    let mut slot: usize = methods;
    let mut k: usize = 0;
    let ghost method_part = lut@;
    assert(constmap@ =~= const_slots(views, 0, methods as int));
    assert(lut@ =~= method_part + int_entries(views, 0));
    while k < pool_len
        invariant
            k <= pool_len < u16::MAX,
            views == pool_views(pool@),
            ints == int_count(views, pool_len as int),
            ints > 0 ==> methods + ints <= 256,
            methods <= 0xffff,
            slot == methods + int_count(views, k as int),
            lut@ == method_part + int_entries(views, k as int),
            constmap@ == const_slots(views, k as int, methods as int),
        decreases pool_len - k,
    {
        let ghost before = lut@;
        let ghost slots_before = constmap@;
        k = k + 1;
        let index: u16 = k as u16;
        proof {
            lemma_int_count_grows(views, k as int, pool_len as int);
            lemma_int_count_bounds(views, k - 1);
        }
        match pool.get(&index) {
            Some(ConstPoolValue::Integer(value)) => {
                push_int(&mut lut, *value);
                constmap.insert(index, slot as u16);
                slot = slot + 1;
                assert(lut@ =~= method_part + int_entries(views, k as int));
                assert(constmap@ =~= const_slots(views, k as int, methods as int));
            },
            _ => {
                assert(constmap@ =~= const_slots(views, k as int, methods as int));
            },
        }
    }
    Ok((lut, constmap, nameindex))
}

/// Builds the lookup table of the class: its bytes, the table index of each
/// integer constant under its pool index, and the table index of each method
/// under its signature.
pub fn luts(classinfo: &ClassFile) -> (r: Result<
    (Vec<u8>, BTreeMap<u16, u16>, MethodTable<u16>),
    BaliError,
>)
    requires
        classinfo@.pool_wf(),
    ensures
        match r {
            Ok((lut, constmap, nameindex)) => spec_luts(classinfo@) == Ok::<
                (Seq<u8>, Map<u16, u16>, Seq<(Seq<char>, u16)>),
                BaliError,
            >((lut@, constmap@, nameindex@)),
            Err(e) => spec_luts(classinfo@) == Err::<
                (Seq<u8>, Map<u16, u16>, Seq<(Seq<char>, u16)>),
                BaliError,
            >(e),
        },
{
    let blocks = codeblocks(classinfo)?;
    let (layout, code_size) = layout_of(&blocks)?;
    proof {
        lemma_layout_of_blocks(blocks@);
    }
    let entries = layout_vec(&layout, Ghost(layout_of_blocks(blocks@)->Ok_0.0));
    let pool = constants(classinfo);
    assert forall|i: int| 0 <= i < entries@.len() implies table_get(
        blocks@,
        (#[trigger] entries@[i]).1@,
    ) is Some by {
        assert(entry_views(entries@)[i] == (entries@[i].0, entries@[i].1@));
    }
    assert forall|i: int| 0 <= i < entries@.len() implies (#[trigger] entries@[i]).0
        <= code_size by {
        assert(entry_views(entries@)[i] == (entries@[i].0, entries@[i].1@));
    }
    luts_of(&pool, classinfo.constpool.len(), &blocks, &entries, code_size)
}

} // verus!
