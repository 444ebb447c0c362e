//! Where each method stands in the code region of the image.
//!
//! `main` stands at address 0. The other methods follow it without gaps, in
//! ascending order of their signatures. The constructor is left out. A
//! method that is placed at the address of the one before it, which happens
//! behind a method without bytecode, takes its place.

use crate::bimaps::{
    layout_insert, layout_new, layout_pairs, no_pairs, one_to_one, paired,
};
use crate::error::BaliError;
use crate::methods::{codeblocks, spec_codeblocks};
use crate::signature::{INIT_SIG, MAIN_SIG};
use crate::structs::{BaliCode, BaliCodeView, ClassFile, ClassFileView};
use crate::table::{lemma_table_find_sorted, sorted_by_key, table_get, MethodTable};
use crate::text::{key_lt, lemma_key_lt_irreflexive, str_eq};
use bimap::BiBTreeMap;
use vstd::prelude::*;

verus! {

/// Whether a method with the signature `key` is placed behind `main`.
pub open spec fn follows_main(key: Seq<char>) -> bool {
    key != MAIN_SIG@ && key != INIT_SIG@
}

/// The layout `layout` with `key` placed at `addr`, which is no smaller than
/// the addresses in `layout`.
pub open spec fn place(layout: Seq<(u16, Seq<char>)>, addr: u16, key: Seq<char>) -> Seq<
    (u16, Seq<char>),
> {
    if layout.len() > 0 && layout.last().0 == addr {
        layout.drop_last().push((addr, key))
    } else {
        layout.push((addr, key))
    }
}

/// The layout after `main`, whose bytecode has `main_len` bytes, and those of
/// the first `n` methods of `blocks` that follow it have been placed, and the
/// address behind the last of them.
pub open spec fn layout_upto(blocks: Seq<(Seq<char>, BaliCodeView)>, main_len: int, n: int) -> (
    Seq<(u16, Seq<char>)>,
    int,
)
    decreases n,
{
    if n <= 0 {
        (seq![(0u16, MAIN_SIG@)], main_len)
    } else {
        let (layout, addr) = layout_upto(blocks, main_len, n - 1);
        if follows_main(blocks[n - 1].0) {
            (place(layout, addr as u16, blocks[n - 1].0), addr + blocks[n - 1].1.code.len())
        } else {
            (layout, addr)
        }
    }
}

/// The layout of the methods in `blocks`: the placed methods in ascending
/// order of their addresses, and the size of all their bytecode.
///
/// It is an error where `blocks` holds no `main`, and where the bytecode has
/// more bytes than sixteen bits can address.
pub open spec fn layout_of_blocks(blocks: Seq<(Seq<char>, BaliCodeView)>) -> Result<
    (Seq<(u16, Seq<char>)>, u16),
    BaliError,
> {
    match table_get(blocks, MAIN_SIG@) {
        None => Err(BaliError::MissingMain),
        Some(main) => {
            let (layout, size) = layout_upto(blocks, main.code.len() as int, blocks.len() as int);
            if size > u16::MAX {
                Err(BaliError::ImageTooLarge)
            } else {
                Ok((layout, size as u16))
            }
        },
    }
}

/// The layout of the methods of `class`.
pub open spec fn spec_memlayout(class: ClassFileView) -> Result<
    (Seq<(u16, Seq<char>)>, u16),
    BaliError,
> {
    match spec_codeblocks(class) {
        Err(e) => Err(e),
        Ok(blocks) => layout_of_blocks(blocks),
    }
}

/// The addresses of `layout` ascend strictly.
pub open spec fn ascending(layout: Seq<(u16, Seq<char>)>) -> bool {
    forall|i: int, j: int|
        0 <= i < j < layout.len() ==> (#[trigger] layout[i]).0 < (#[trigger] layout[j]).0
}

/// No signature stands at two addresses of `layout`.
pub open spec fn distinct_keys(layout: Seq<(u16, Seq<char>)>) -> bool {
    forall|i: int, j: int|
        0 <= i < j < layout.len() ==> (#[trigger] layout[i]).1 != (#[trigger] layout[j]).1
}

/// The pairs of a bimap that was filled with the entries of `layout` in
/// their order.
pub open spec fn pairs_of(layout: Seq<(u16, Seq<char>)>) -> Map<u16, Seq<char>>
    decreases layout.len(),
{
    if layout.len() == 0 {
        no_pairs()
    } else {
        paired(pairs_of(layout.drop_last()), layout.last().0, layout.last().1)
    }
}

/// The size of the bytecode of the first `n` entries of `layout`.
pub open spec fn code_size(
    layout: Seq<(u16, Seq<char>)>,
    blocks: Seq<(Seq<char>, BaliCodeView)>,
    n: int,
) -> int
    decreases n,
{
    if n <= 0 {
        0
    } else {
        code_size(layout, blocks, n - 1) + table_get(blocks, layout[n - 1].1)->Some_0.code.len()
    }
}

/// The pairs of a layout with ascending addresses and distinct signatures are
/// its entries.
pub proof fn lemma_pairs_of(layout: Seq<(u16, Seq<char>)>)
    requires
        ascending(layout),
        distinct_keys(layout),
    ensures
        forall|i: int|
            0 <= i < layout.len() ==> pairs_of(layout).contains_pair(
                (#[trigger] layout[i]).0,
                layout[i].1,
            ),
        forall|addr: u16| #[trigger]
            pairs_of(layout).contains_key(addr) ==> exists|i: int|
                0 <= i < layout.len() && (#[trigger] layout[i]).0 == addr,
    decreases layout.len(),
{
    if layout.len() > 0 {
        let shorter = layout.drop_last();
        assert(ascending(shorter)) by {
            assert forall|i: int, j: int| 0 <= i < j < shorter.len() implies (
            #[trigger] shorter[i]).0 < (#[trigger] shorter[j]).0 by {
                assert(layout[i].0 < layout[j].0);
            }
        }
        assert(distinct_keys(shorter)) by {
            assert forall|i: int, j: int| 0 <= i < j < shorter.len() implies (
            #[trigger] shorter[i]).1 != (#[trigger] shorter[j]).1 by {
                assert(layout[i].1 != layout[j].1);
            }
        }
        lemma_pairs_of(shorter);
        assert forall|i: int| 0 <= i < layout.len() implies pairs_of(layout).contains_pair(
            (#[trigger] layout[i]).0,
            layout[i].1,
        ) by {
            if i < layout.len() - 1 {
                assert(shorter[i] == layout[i]);
                assert(layout[i].0 < layout[layout.len() - 1].0);
                assert(layout[i].1 != layout[layout.len() - 1].1);
            }
        }
        assert forall|addr: u16| #[trigger] pairs_of(layout).contains_key(addr) implies exists|
            i: int,
        |
            0 <= i < layout.len() && (#[trigger] layout[i]).0 == addr by {
            if addr == layout.last().0 {
                assert(layout[layout.len() - 1].0 == addr);
            } else {
                assert(pairs_of(shorter).contains_key(addr));
                let i = choose|i: int| 0 <= i < shorter.len() && (#[trigger] shorter[i]).0 == addr;
                assert(layout[i].0 == addr);
            }
        }
    }
}

/// Whether `entry` is one of the entries of `layout`.
pub open spec fn occurs(layout: Seq<(u16, Seq<char>)>, entry: (u16, Seq<char>)) -> bool {
    exists|i: int| 0 <= i < layout.len() && layout[i] == entry
}

/// A layout with ascending addresses still has them without its last entry.
pub proof fn lemma_ascending_drop_last(layout: Seq<(u16, Seq<char>)>)
    requires
        ascending(layout),
        layout.len() > 0,
    ensures
        ascending(layout.drop_last()),
{
    let shorter = layout.drop_last();
    assert forall|i: int, j: int| 0 <= i < j < shorter.len() implies (#[trigger] shorter[i]).0 < (
    #[trigger] shorter[j]).0 by {
        assert(layout[i].0 < layout[j].0);
    }
}

/// Of two layouts with ascending addresses and the same entries, both are
/// empty or both end in the same entry.
proof fn lemma_same_last(a: Seq<(u16, Seq<char>)>, b: Seq<(u16, Seq<char>)>)
    requires
        ascending(a),
        ascending(b),
        forall|i: int| 0 <= i < a.len() ==> occurs(b, #[trigger] a[i]),
        forall|j: int| 0 <= j < b.len() ==> occurs(a, #[trigger] b[j]),
    ensures
        a.len() == 0 <==> b.len() == 0,
        a.len() > 0 ==> a.last() == b.last(),
{
    if a.len() == 0 {
        if b.len() > 0 {
            assert(occurs(a, b[0]));
        }
    } else {
        let la = a.len() - 1;
        assert(occurs(b, a[la]));
        let j = choose|j: int| 0 <= j < b.len() && b[j] == a[la];
        let lb = b.len() - 1;
        assert(occurs(a, b[lb]));
        let i = choose|i: int| 0 <= i < a.len() && a[i] == b[lb];
        if j < lb {
            assert(b[j].0 < b[lb].0);
            if i < la {
                assert(a[i].0 < a[la].0);
            }
        }
    }
}

/// Two layouts with ascending addresses and the same entries are the same.
pub proof fn lemma_same_entries(a: Seq<(u16, Seq<char>)>, b: Seq<(u16, Seq<char>)>)
    requires
        ascending(a),
        ascending(b),
        forall|i: int| 0 <= i < a.len() ==> occurs(b, #[trigger] a[i]),
        forall|j: int| 0 <= j < b.len() ==> occurs(a, #[trigger] b[j]),
    ensures
        a == b,
    decreases a.len(),
{
    lemma_same_last(a, b);
    if a.len() == 0 {
        assert(a =~= b);
    } else {
        let la = a.len() - 1;
        let lb = b.len() - 1;
        let a1 = a.drop_last();
        let b1 = b.drop_last();
        lemma_ascending_drop_last(a);
        lemma_ascending_drop_last(b);
        assert forall|x: int| 0 <= x < a1.len() implies occurs(b1, #[trigger] a1[x]) by {
            assert(a1[x] == a[x]);
            assert(occurs(b, a[x]));
            let y = choose|y: int| 0 <= y < b.len() && b[y] == a[x];
            assert(a[x].0 < a[la].0);
            assert(b1[y] == b[y]);
        }
        assert forall|y: int| 0 <= y < b1.len() implies occurs(a1, #[trigger] b1[y]) by {
            assert(b1[y] == b[y]);
            assert(occurs(a, b[y]));
            let x = choose|x: int| 0 <= x < a.len() && a[x] == b[y];
            assert(b[y].0 < b[lb].0);
            assert(a1[x] == a[x]);
        }
        lemma_same_entries(a1, b1);
        assert(a =~= a1.push(a[la]));
        assert(b =~= b1.push(b[lb]));
    }
}

/// Whether `key` is `main` or one of the first `n` signatures of `blocks`
/// that follow it.
pub open spec fn placed_key(
    blocks: Seq<(Seq<char>, BaliCodeView)>,
    n: int,
    key: Seq<char>,
) -> bool {
    key == MAIN_SIG@ || exists|j: int|
        0 <= j < n && j < blocks.len() && (#[trigger] blocks[j]).0 == key && follows_main(key)
}

/// What holds of a layout while it is filled: its addresses ascend, its
/// signatures are distinct and come from `blocks`, and none of its
/// addresses is above `addr`, the address behind its last method.
pub open spec fn layout_inv(
    blocks: Seq<(Seq<char>, BaliCodeView)>,
    n: int,
    layout: Seq<(u16, Seq<char>)>,
    addr: int,
) -> bool {
    &&& layout.len() > 0
    &&& ascending(layout)
    &&& distinct_keys(layout)
    &&& layout.last().0 <= addr <= u16::MAX
    &&& forall|i: int| 0 <= i < layout.len() ==> placed_key(blocks, n, (#[trigger] layout[i]).1)
}

/// The address behind the placed methods does not fall when more are placed.
pub proof fn lemma_layout_grows(
    blocks: Seq<(Seq<char>, BaliCodeView)>,
    main_len: int,
    i: int,
    n: int,
)
    requires
        0 <= i <= n,
    ensures
        layout_upto(blocks, main_len, i).1 <= layout_upto(blocks, main_len, n).1,
    decreases n - i,
{
    if i < n {
        lemma_layout_grows(blocks, main_len, i, n - 1);
    }
}

/// Placing a method with a new signature at the end of a layout keeps what
/// holds of the layout, and does to it what pairing does to a bimap.
pub proof fn lemma_place(
    blocks: Seq<(Seq<char>, BaliCodeView)>,
    n: int,
    layout: Seq<(u16, Seq<char>)>,
    addr: int,
    len: int,
)
    requires
        sorted_by_key(blocks),
        0 < n <= blocks.len(),
        layout_inv(blocks, n - 1, layout, addr),
        follows_main(blocks[n - 1].0),
        0 <= len,
        addr + len <= u16::MAX,
    ensures
        layout_inv(blocks, n, place(layout, addr as u16, blocks[n - 1].0), addr + len),
        pairs_of(place(layout, addr as u16, blocks[n - 1].0)) == paired(
            pairs_of(layout),
            addr as u16,
            blocks[n - 1].0,
        ),
{
    let key = blocks[n - 1].0;
    let at = addr as u16;
    let placed = place(layout, at, key);
    assert forall|i: int| 0 <= i < layout.len() implies (#[trigger] layout[i]).1 != key by {
        assert(placed_key(blocks, n - 1, layout[i].1));
        if layout[i].1 != MAIN_SIG@ {
            let j = choose|j: int|
                0 <= j < n - 1 && j < blocks.len() && (#[trigger] blocks[j]).0 == layout[i].1
                    && follows_main(layout[i].1);
            assert(key_lt(blocks[j].0, blocks[n - 1].0));
            lemma_key_lt_irreflexive(key);
        }
    }
    assert forall|i: int| 0 <= i < layout.len() implies (#[trigger] layout[i]).0 <= at by {
        if i < layout.len() - 1 {
            assert(layout[i].0 < layout[layout.len() - 1].0);
        }
    }
    assert forall|i: int| 0 <= i < placed.len() implies placed_key(
        blocks,
        n,
        (#[trigger] placed[i]).1,
    ) by {
        if placed[i].1 == key {
            assert(blocks[n - 1].0 == key);
        } else {
            assert(placed[i] == layout[i]);
            assert(placed_key(blocks, n - 1, layout[i].1));
            if layout[i].1 != MAIN_SIG@ {
                let j = choose|j: int|
                    0 <= j < n - 1 && j < blocks.len() && (#[trigger] blocks[j]).0 == layout[i].1
                        && follows_main(layout[i].1);
                assert(blocks[j].0 == layout[i].1);
            }
        }
    }
    assert(ascending(placed)) by {
        assert forall|i: int, j: int| 0 <= i < j < placed.len() implies (#[trigger] placed[i]).0 < (
        #[trigger] placed[j]).0 by {
            if j < placed.len() - 1 {
                assert(layout[i].0 < layout[j].0);
            } else if layout.last().0 == at {
                assert(layout[i].0 < layout[layout.len() - 1].0);
            } else {
                assert(layout[i].0 <= layout[layout.len() - 1].0);
            }
        }
    }
    assert(distinct_keys(placed)) by {
        assert forall|i: int, j: int| 0 <= i < j < placed.len() implies (#[trigger] placed[i]).1
            != (#[trigger] placed[j]).1 by {
            if j < placed.len() - 1 {
                assert(layout[i].1 != layout[j].1);
            } else {
                assert(layout[i].1 != key);
            }
        }
    }
    if layout.last().0 == at {
        let shorter = layout.drop_last();
        lemma_ascending_drop_last(layout);
        assert(distinct_keys(shorter)) by {
            assert forall|i: int, j: int| 0 <= i < j < shorter.len() implies (
            #[trigger] shorter[i]).1 != (#[trigger] shorter[j]).1 by {
                assert(layout[i].1 != layout[j].1);
            }
        }
        lemma_pairs_of(shorter);
        assert(placed.drop_last() =~= shorter);
        let base = pairs_of(shorter);
        let old_key = layout.last().1;
        assert forall|l: u16| base.contains_key(l) implies base[l] != old_key by {
            let i = choose|i: int| 0 <= i < shorter.len() && (#[trigger] shorter[i]).0 == l;
            assert(base.contains_pair(shorter[i].0, shorter[i].1));
            assert(layout[i].1 != layout[layout.len() - 1].1);
        }
        assert(paired(paired(base, at, old_key), at, key) =~= paired(base, at, key));
    } else {
        assert(placed.drop_last() =~= layout);
    }
}

/// What holds of the layout after `main` and the first `n` methods of
/// `blocks` were placed, where their bytecode fits into the address space.
pub proof fn lemma_layout_upto(blocks: Seq<(Seq<char>, BaliCodeView)>, main_len: int, n: int)
    requires
        sorted_by_key(blocks),
        0 <= n <= blocks.len(),
        0 <= main_len,
        layout_upto(blocks, main_len, n).1 <= u16::MAX,
    ensures
        layout_inv(
            blocks,
            n,
            layout_upto(blocks, main_len, n).0,
            layout_upto(blocks, main_len, n).1,
        ),
    decreases n,
{
    if n == 0 {
        let layout = layout_upto(blocks, main_len, 0).0;
        assert(layout[0] == (0u16, MAIN_SIG@));
    } else {
        lemma_layout_grows(blocks, main_len, n - 1, n);
        lemma_layout_upto(blocks, main_len, n - 1);
        let (layout, addr) = layout_upto(blocks, main_len, n - 1);
        if follows_main(blocks[n - 1].0) {
            lemma_place(blocks, n, layout, addr, blocks[n - 1].1.code.len() as int);
        } else {
            assert forall|i: int| 0 <= i < layout.len() implies placed_key(
                blocks,
                n,
                (#[trigger] layout[i]).1,
            ) by {
                assert(placed_key(blocks, n - 1, layout[i].1));
                if layout[i].1 != MAIN_SIG@ {
                    let j = choose|j: int|
                        0 <= j < n - 1 && j < blocks.len() && (#[trigger] blocks[j]).0
                            == layout[i].1 && follows_main(layout[i].1);
                    assert(blocks[j].0 == layout[i].1);
                }
            }
        }
    }
}

/// The size of the bytecode of the first `n` entries of a layout depends on
/// these entries alone.
pub proof fn lemma_code_size_prefix(
    a: Seq<(u16, Seq<char>)>,
    b: Seq<(u16, Seq<char>)>,
    blocks: Seq<(Seq<char>, BaliCodeView)>,
    n: int,
)
    requires
        n <= a.len(),
        n <= b.len(),
        forall|i: int| 0 <= i < n ==> a[i] == b[i],
    ensures
        code_size(a, blocks, n) == code_size(b, blocks, n),
    decreases n,
{
    if n > 0 {
        lemma_code_size_prefix(a, b, blocks, n - 1);
    }
}

/// Whether each address of `layout` is the size of the bytecode before it,
/// and `addr` the size of all its bytecode.
pub open spec fn gapless(
    layout: Seq<(u16, Seq<char>)>,
    blocks: Seq<(Seq<char>, BaliCodeView)>,
    addr: int,
) -> bool {
    &&& forall|k: int|
        0 <= k < layout.len() ==> (#[trigger] layout[k]).0 == code_size(layout, blocks, k)
    &&& addr == code_size(layout, blocks, layout.len() as int)
}

/// The methods are placed without gaps: each address is the size of the
/// bytecode of the methods before it.
pub proof fn lemma_layout_gapless(blocks: Seq<(Seq<char>, BaliCodeView)>, main_len: int, n: int)
    requires
        sorted_by_key(blocks),
        0 <= n <= blocks.len(),
        table_get(blocks, MAIN_SIG@) is Some,
        table_get(blocks, MAIN_SIG@)->Some_0.code.len() == main_len,
        layout_upto(blocks, main_len, n).1 <= u16::MAX,
    ensures
        gapless(layout_upto(blocks, main_len, n).0, blocks, layout_upto(blocks, main_len, n).1),
    decreases n,
{
    let (placed, end) = layout_upto(blocks, main_len, n);
    if n == 0 {
        assert(placed[0] == (0u16, MAIN_SIG@));
        assert(code_size(placed, blocks, 0) == 0);
        assert(code_size(placed, blocks, 1) == code_size(placed, blocks, 0) + main_len);
    } else {
        lemma_layout_grows(blocks, main_len, n - 1, n);
        lemma_layout_gapless(blocks, main_len, n - 1);
        lemma_layout_upto(blocks, main_len, n - 1);
        let (layout, addr) = layout_upto(blocks, main_len, n - 1);
        let key = blocks[n - 1].0;
        if follows_main(key) {
            lemma_table_find_sorted(blocks, n - 1);
            let last = layout.len() - 1;
            if layout.last().0 == addr as u16 {
                assert(code_size(layout, blocks, layout.len() as int) == code_size(
                    layout,
                    blocks,
                    last,
                ) + table_get(blocks, layout[last].1)->Some_0.code.len());
                lemma_code_size_prefix(layout, placed, blocks, last);
                assert forall|k: int| 0 <= k < placed.len() implies (#[trigger] placed[k]).0
                    == code_size(placed, blocks, k) by {
                    lemma_code_size_prefix(layout, placed, blocks, k);
                    if k < last {
                        assert(placed[k] == layout[k]);
                    }
                }
                assert(code_size(placed, blocks, placed.len() as int) == code_size(
                    placed,
                    blocks,
                    last,
                ) + table_get(blocks, placed[last].1)->Some_0.code.len());
            } else {
                lemma_code_size_prefix(layout, placed, blocks, layout.len() as int);
                assert forall|k: int| 0 <= k < placed.len() implies (#[trigger] placed[k]).0
                    == code_size(placed, blocks, k) by {
                    lemma_code_size_prefix(layout, placed, blocks, k);
                    if k < layout.len() {
                        assert(placed[k] == layout[k]);
                    }
                }
                assert(code_size(placed, blocks, placed.len() as int) == code_size(
                    placed,
                    blocks,
                    layout.len() as int,
                ) + table_get(blocks, placed[layout.len() as int].1)->Some_0.code.len());
            }
        }
    }
}

/// The layout is injective both ways: no address holds two methods, and no
/// method stands at two addresses.
pub proof fn lemma_layout_injective(blocks: Seq<(Seq<char>, BaliCodeView)>)
    requires
        sorted_by_key(blocks),
        layout_of_blocks(blocks) is Ok,
    ensures
        ascending(layout_of_blocks(blocks)->Ok_0.0),
        distinct_keys(layout_of_blocks(blocks)->Ok_0.0),
        one_to_one(pairs_of(layout_of_blocks(blocks)->Ok_0.0)),
{
    let main = table_get(blocks, MAIN_SIG@)->Some_0;
    lemma_layout_upto(blocks, main.code.len() as int, blocks.len() as int);
    let layout = layout_of_blocks(blocks)->Ok_0.0;
    let pairs = pairs_of(layout);
    lemma_pairs_of(layout);
    assert forall|a: u16, b: u16|
        pairs.contains_key(a) && pairs.contains_key(b) && #[trigger] pairs[a]
            == #[trigger] pairs[b] implies a == b by {
        let i = choose|i: int| 0 <= i < layout.len() && (#[trigger] layout[i]).0 == a;
        let j = choose|j: int| 0 <= j < layout.len() && (#[trigger] layout[j]).0 == b;
        assert(pairs.contains_pair(layout[i].0, layout[i].1));
        assert(pairs.contains_pair(layout[j].0, layout[j].1));
        if i < j {
            assert(layout[i].1 != layout[j].1);
        } else if j < i {
            assert(layout[j].1 != layout[i].1);
        }
    }
}

/// The bytecode of the methods of the layout has as many bytes as the
/// layout says, and each method stands directly behind the one before it.
pub proof fn lemma_layout_size(blocks: Seq<(Seq<char>, BaliCodeView)>)
    requires
        sorted_by_key(blocks),
        layout_of_blocks(blocks) is Ok,
    ensures
        gapless(
            layout_of_blocks(blocks)->Ok_0.0,
            blocks,
            layout_of_blocks(blocks)->Ok_0.1 as int,
        ),
{
    let main = table_get(blocks, MAIN_SIG@)->Some_0;
    lemma_layout_gapless(blocks, main.code.len() as int, blocks.len() as int);
}

/// A layout exists exactly where there is a `main` and the bytecode is not
/// too large, and there is no `main` exactly where the error says so.
pub proof fn lemma_layout_needs_main(blocks: Seq<(Seq<char>, BaliCodeView)>)
    ensures
        layout_of_blocks(blocks) is Ok ==> table_get(blocks, MAIN_SIG@) is Some,
        table_get(blocks, MAIN_SIG@) is None <==> layout_of_blocks(blocks) == Err::<
            (Seq<(u16, Seq<char>)>, u16),
            BaliError,
        >(BaliError::MissingMain),
{
}

/// While `main` is not empty it stays the first method, at address 0.
proof fn lemma_main_stays(blocks: Seq<(Seq<char>, BaliCodeView)>, main_len: int, n: int)
    requires
        0 <= n,
        0 < main_len,
        layout_upto(blocks, main_len, n).1 <= u16::MAX,
    ensures
        layout_upto(blocks, main_len, n).0.len() > 0,
        layout_upto(blocks, main_len, n).0[0] == (0u16, MAIN_SIG@),
        layout_upto(blocks, main_len, n).1 >= main_len,
    decreases n,
{
    if n > 0 {
        lemma_layout_grows(blocks, main_len, n - 1, n);
        lemma_main_stays(blocks, main_len, n - 1);
    }
}

/// `main` stands at address 0, as the first method of the layout, where its
/// bytecode is not empty.
pub proof fn lemma_main_first(blocks: Seq<(Seq<char>, BaliCodeView)>)
    requires
        sorted_by_key(blocks),
        layout_of_blocks(blocks) is Ok,
        table_get(blocks, MAIN_SIG@)->Some_0.code.len() > 0,
    ensures
        layout_of_blocks(blocks)->Ok_0.0[0] == (0u16, MAIN_SIG@),
        pairs_of(layout_of_blocks(blocks)->Ok_0.0).contains_pair(0u16, MAIN_SIG@),
{
    let main = table_get(blocks, MAIN_SIG@)->Some_0;
    lemma_main_stays(blocks, main.code.len() as int, blocks.len() as int);
    lemma_layout_upto(blocks, main.code.len() as int, blocks.len() as int);
    lemma_pairs_of(layout_of_blocks(blocks)->Ok_0.0);
}

/// The constructor has another signature than `main`.
pub proof fn lemma_init_is_not_main()
    ensures
        INIT_SIG@ != MAIN_SIG@,
{
    reveal_strlit("<init>()V");
    reveal_strlit("main([Ljava/lang/String;)V");
    assert(INIT_SIG@.len() == 9);
    assert(MAIN_SIG@.len() == 26);
}

/// The constructor is not in the layout.
pub proof fn lemma_layout_without_init(blocks: Seq<(Seq<char>, BaliCodeView)>)
    requires
        sorted_by_key(blocks),
        layout_of_blocks(blocks) is Ok,
    ensures
        forall|i: int|
            0 <= i < layout_of_blocks(blocks)->Ok_0.0.len() ==> (
            #[trigger] layout_of_blocks(blocks)->Ok_0.0[i]).1 != INIT_SIG@,
{
    let main = table_get(blocks, MAIN_SIG@)->Some_0;
    let n = blocks.len() as int;
    lemma_layout_upto(blocks, main.code.len() as int, n);
    lemma_init_is_not_main();
    let layout = layout_of_blocks(blocks)->Ok_0.0;
    assert forall|i: int| 0 <= i < layout.len() implies (#[trigger] layout[i]).1 != INIT_SIG@ by {
        assert(placed_key(blocks, n, layout[i].1));
    }
}

/// Places the methods of `blocks`.
pub(crate) fn layout_of(blocks: &MethodTable<BaliCode>) -> (r: Result<
    (BiBTreeMap<u16, String>, u16),
    BaliError,
>)
    requires
        sorted_by_key(blocks@),
    ensures
        match r {
            Ok((layout, size)) => {
                &&& layout_of_blocks(blocks@) is Ok
                &&& layout_pairs(layout) == pairs_of(layout_of_blocks(blocks@)->Ok_0.0)
                &&& size == layout_of_blocks(blocks@)->Ok_0.1
            },
            Err(e) => layout_of_blocks(blocks@) == Err::<(Seq<(u16, Seq<char>)>, u16), BaliError>(
                e,
            ),
        },
{
    let main = match blocks.get(MAIN_SIG) {
        Some(main) => main,
        None => {
            return Err(BaliError::MissingMain);
        },
    };
    let main_len: usize = main.code.len();
    let count: usize = blocks.entries.len();
    proof {
        lemma_layout_grows(blocks@, main_len as int, 0, count as int);
    }
    if main_len > 0xffff {
        return Err(BaliError::ImageTooLarge);
    }
    let mut addr: u16 = main_len as u16;
    let mut layout: BiBTreeMap<u16, String> = layout_new();
    layout_insert(&mut layout, 0, String::from_str(MAIN_SIG));
    let ghost mut placed: Seq<(u16, Seq<char>)> = seq![(0u16, MAIN_SIG@)];
    proof {
        assert(placed.drop_last() =~= Seq::<(u16, Seq<char>)>::empty());
        assert(pairs_of(placed.drop_last()) == no_pairs());
        assert(placed.last() == (0u16, MAIN_SIG@));
        assert(pairs_of(placed) == paired(no_pairs(), 0u16, MAIN_SIG@));
        lemma_layout_upto(blocks@, main_len as int, 0);
    }
    let mut i: usize = 0;
    while i < count
        invariant
            i <= count,
            count == blocks@.len(),
            count == blocks.entries@.len(),
            sorted_by_key(blocks@),
            table_get(blocks@, MAIN_SIG@) is Some,
            table_get(blocks@, MAIN_SIG@)->Some_0.code.len() == main_len,
            layout_upto(blocks@, main_len as int, i as int) == (placed, addr as int),
            layout_inv(blocks@, i as int, placed, addr as int),
            layout_pairs(layout) == pairs_of(placed),
        decreases count - i,
    {
        let name: &String = &blocks.entries[i].0;
        let len: usize = blocks.entries[i].1.code.len();
        assert(blocks@[i as int] == (blocks.entries@[i as int].0@, blocks.entries@[i as int].1@));
        if !str_eq(name.as_str(), MAIN_SIG) && !str_eq(name.as_str(), INIT_SIG) {
            if len > (0xffff - addr) as usize {
                proof {
                    lemma_layout_grows(blocks@, main_len as int, i + 1, count as int);
                }
                return Err(BaliError::ImageTooLarge);
            }
            proof {
                lemma_place(blocks@, i + 1, placed, addr as int, len as int);
                placed = place(placed, addr, name@);
            }
            layout_insert(&mut layout, addr, name.clone());
            addr = addr + len as u16;
        } else {
            proof {
                lemma_layout_grows(blocks@, main_len as int, i + 1, count as int);
                lemma_layout_upto(blocks@, main_len as int, i + 1);
            }
        }
        i = i + 1;
    }
    Ok((layout, addr))
}

/// Computes where each method of the class stands in the code region of the
/// image, and the size of that region.
pub fn memlayout(classinfo: &ClassFile) -> (r: Result<(BiBTreeMap<u16, String>, u16), BaliError>)
    requires
        classinfo@.pool_wf(),
    ensures
        match r {
            Ok((layout, size)) => {
                &&& spec_memlayout(classinfo@) is Ok
                &&& layout_pairs(layout) == pairs_of(spec_memlayout(classinfo@)->Ok_0.0)
                &&& size == spec_memlayout(classinfo@)->Ok_0.1
            },
            Err(e) => spec_memlayout(classinfo@) == Err::<(Seq<(u16, Seq<char>)>, u16), BaliError>(
                e,
            ),
        },
{
    let blocks = codeblocks(classinfo)?;
    layout_of(&blocks)
}

} // verus!
