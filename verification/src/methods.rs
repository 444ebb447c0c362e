//! The methods of a class as the image holds them: each under its signature,
//! with its bytecode in normal form.

use crate::error::{is_result, BaliError};
use crate::normalize::{iinc_count, lemma_normalized_len, normalized, replace_iinc};
use crate::pool::{constants, pool_views, spec_constants, text_at, utf8_at};
use crate::reader::{parse_code_attribute, spec_code_attribute};
use crate::signature::{parse_argcount, spec_argcount};
use crate::structs::{
    attribute_views, AttributeInfo, AttributeInfoView, BaliCode, BaliCodeView, ClassFile,
    ClassFileView, ConstPoolValue, ConstPoolValueView, MethodInfo, MethodInfoView,
};
use crate::table::{
    insert_pos, lemma_insert_pos_bounds, lemma_insert_sorted, sorted_by_key, table_insert,
    MethodTable,
};
use crate::text::str_eq;
use std::collections::BTreeMap;
use vstd::prelude::*;

verus! {

/// The index of the first attribute at or behind `from` whose name is `Code`.
///
/// The attributes are looked at in their order up to that one, and it is an
/// error where the name index of one of them is not the index of a UTF-8
/// entry.
pub open spec fn find_code(
    pool: Map<u16, ConstPoolValueView>,
    attributes: Seq<AttributeInfoView>,
    from: int,
) -> Result<Option<int>, BaliError>
    decreases attributes.len() - from,
{
    if from < 0 || from >= attributes.len() {
        Ok(None)
    } else {
        match utf8_at(pool, attributes[from].attribute_name_index) {
            None => Err(BaliError::BadReference),
            Some(name) => if name == "Code"@ {
                Ok(Some(from))
            } else {
                find_code(pool, attributes, from + 1)
            },
        }
    }
}

/// What the image holds of the method `method`: its signature, and the
/// limits and the normalised bytecode of its first `Code` attribute. `None`
/// for a method without such an attribute.
pub open spec fn method_block(pool: Map<u16, ConstPoolValueView>, method: MethodInfoView) -> Result<
    Option<(Seq<char>, BaliCodeView)>,
    BaliError,
> {
    match find_code(pool, method.attributes, 0) {
        Err(e) => Err(e),
        Ok(None) => Ok(None),
        Ok(Some(i)) => match (
            utf8_at(pool, method.name_index),
            utf8_at(pool, method.descriptor_index),
        ) {
            (Some(name), Some(descriptor)) => match spec_code_attribute(method.attributes[i].info) {
                Err(e) => Err(e),
                Ok(attribute) => match spec_argcount(descriptor) {
                    Err(e) => Err(e),
                    Ok(argcount) => match normalized(attribute.code) {
                        Err(e) => Err(e),
                        Ok(code) => Ok(
                            Some(
                                (
                                    name + descriptor,
                                    BaliCodeView {
                                        max_stack: attribute.max_stack,
                                        max_locals: attribute.max_locals,
                                        argcount,
                                        code,
                                    },
                                ),
                            ),
                        ),
                    },
                },
            },
            _ => Err(BaliError::BadReference),
        },
    }
}

/// The table of the first `n` methods of `methods`. A method takes the place
/// of an earlier one with the same signature. The first method that cannot be
/// taken in gives the error.
pub open spec fn blocks_upto(
    pool: Map<u16, ConstPoolValueView>,
    methods: Seq<MethodInfoView>,
    n: int,
) -> Result<Seq<(Seq<char>, BaliCodeView)>, BaliError>
    decreases n,
{
    if n <= 0 {
        Ok(Seq::empty())
    } else {
        match blocks_upto(pool, methods, n - 1) {
            Err(e) => Err(e),
            Ok(table) => match method_block(pool, methods[n - 1]) {
                Err(e) => Err(e),
                Ok(None) => Ok(table),
                Ok(Some((signature, block))) => Ok(table_insert(table, signature, block)),
            },
        }
    }
}

/// The table of the methods of `class` that have bytecode.
pub open spec fn spec_codeblocks(class: ClassFileView) -> Result<
    Seq<(Seq<char>, BaliCodeView)>,
    BaliError,
> {
    blocks_upto(spec_constants(class), class.methods, class.methods.len() as int)
}

/// An error among the first methods is the error of the whole table.
pub proof fn lemma_blocks_error(
    pool: Map<u16, ConstPoolValueView>,
    methods: Seq<MethodInfoView>,
    i: int,
    n: int,
)
    requires
        0 <= i <= n,
        blocks_upto(pool, methods, i) is Err,
    ensures
        blocks_upto(pool, methods, n) == blocks_upto(pool, methods, i),
    decreases n - i,
{
    if i < n {
        lemma_blocks_error(pool, methods, i, n - 1);
    }
}

/// The table of methods has its signatures in ascending order.
pub proof fn lemma_blocks_sorted(
    pool: Map<u16, ConstPoolValueView>,
    methods: Seq<MethodInfoView>,
    n: int,
)
    requires
        blocks_upto(pool, methods, n) is Ok,
    ensures
        sorted_by_key(blocks_upto(pool, methods, n)->Ok_0),
    decreases n,
{
    if n > 0 {
        lemma_blocks_sorted(pool, methods, n - 1);
        let table = blocks_upto(pool, methods, n - 1)->Ok_0;
        match method_block(pool, methods[n - 1]) {
            Ok(Some((signature, block))) => {
                lemma_insert_sorted(table, signature, block);
            },
            _ => {},
        }
    }
}

/// Every entry of the table is the block of one of the methods: its
/// signature is that method's name and descriptor, and its bytecode is the
/// normal form of the bytecode in that method's `Code` attribute.
pub proof fn lemma_blocks_from_methods(
    pool: Map<u16, ConstPoolValueView>,
    methods: Seq<MethodInfoView>,
    n: int,
    k: int,
)
    requires
        0 <= n <= methods.len(),
        blocks_upto(pool, methods, n) is Ok,
        0 <= k < blocks_upto(pool, methods, n)->Ok_0.len(),
    ensures
        exists|i: int|
            0 <= i < n && #[trigger] method_block(pool, methods[i]) == Ok::<
                Option<(Seq<char>, BaliCodeView)>,
                BaliError,
            >(Some(blocks_upto(pool, methods, n)->Ok_0[k])),
    decreases n,
{
    let table = blocks_upto(pool, methods, n - 1)->Ok_0;
    let entry = blocks_upto(pool, methods, n)->Ok_0[k];
    match method_block(pool, methods[n - 1]) {
        Ok(Some((signature, block))) => {
            if entry == (signature, block) {
                assert(method_block(pool, methods[n - 1]) == Ok::<
                    Option<(Seq<char>, BaliCodeView)>,
                    BaliError,
                >(Some(entry)));
            } else {
                let p = insert_pos(table, signature);
                lemma_insert_pos_bounds(table, signature);
                let j = if p < table.len() && table[p].0 == signature {
                    k
                } else if k < p {
                    k
                } else {
                    k - 1
                };
                assert(table[j] == entry);
                lemma_blocks_from_methods(pool, methods, n - 1, j);
            }
        },
        _ => {
            lemma_blocks_from_methods(pool, methods, n - 1, k);
        },
    }
}

/// Every method of the table has the bytecode of one of the methods of the
/// class, in normal form: its length is that of the bytecode in the `Code`
/// attribute plus four bytes for each `iinc` in it.
pub proof fn lemma_codeblocks_are_normalized(class: ClassFileView, k: int)
    requires
        spec_codeblocks(class) is Ok,
        0 <= k < spec_codeblocks(class)->Ok_0.len(),
    ensures
        exists|i: int, j: int|
            {
                &&& 0 <= i < class.methods.len()
                &&& 0 <= j < class.methods[i].attributes.len()
                &&& spec_code_attribute(class.methods[i].attributes[j].info) is Ok
                &&& #[trigger] normalized_code_of(class, i, j) == Ok::<Seq<u8>, BaliError>(
                    spec_codeblocks(class)->Ok_0[k].1.code,
                )
                &&& spec_codeblocks(class)->Ok_0[k].1.code.len() == raw_code_of(class, i, j).len()
                    + 4 * iinc_count(raw_code_of(class, i, j))
            },
{
    let pool = spec_constants(class);
    lemma_blocks_from_methods(pool, class.methods, class.methods.len() as int, k);
    let i = choose|i: int|
        0 <= i < class.methods.len() && #[trigger] method_block(pool, class.methods[i]) == Ok::<
            Option<(Seq<char>, BaliCodeView)>,
            BaliError,
        >(Some(spec_codeblocks(class)->Ok_0[k]));
    let j = find_code(pool, class.methods[i].attributes, 0)->Ok_0->Some_0;
    lemma_find_code_bounds(pool, class.methods[i].attributes, 0);
    lemma_normalized_len(raw_code_of(class, i, j));
    assert(normalized_code_of(class, i, j) == Ok::<Seq<u8>, BaliError>(
        spec_codeblocks(class)->Ok_0[k].1.code,
    ));
}

/// The bytecode in the attribute `j` of the method `i` of `class`, as the
/// class file holds it.
pub open spec fn raw_code_of(class: ClassFileView, i: int, j: int) -> Seq<u8> {
    spec_code_attribute(class.methods[i].attributes[j].info)->Ok_0.code
}

/// The bytecode in the attribute `j` of the method `i` of `class`, in normal
/// form.
pub open spec fn normalized_code_of(class: ClassFileView, i: int, j: int) -> Result<
    Seq<u8>,
    BaliError,
> {
    normalized(raw_code_of(class, i, j))
}

/// The attribute that is found is one of the attributes.
pub proof fn lemma_find_code_bounds(
    pool: Map<u16, ConstPoolValueView>,
    attributes: Seq<AttributeInfoView>,
    from: int,
)
    requires
        0 <= from,
    ensures
        find_code(pool, attributes, from) matches Ok(Some(j)) ==> from <= j < attributes.len(),
    decreases attributes.len() - from,
{
    if from < attributes.len() {
        lemma_find_code_bounds(pool, attributes, from + 1);
    }
}

/// Looks for the first attribute named `Code`.
fn code_attribute_index(
    pool: &BTreeMap<u16, ConstPoolValue>,
    attributes: &Vec<AttributeInfo>,
) -> (r: Result<Option<usize>, BaliError>)
    ensures
        match r {
            Ok(Some(i)) => find_code(pool_views(pool@), attribute_views(attributes@), 0) == Ok::<
                Option<int>,
                BaliError,
            >(Some(i as int)) && i < attributes@.len(),
            Ok(None) => find_code(pool_views(pool@), attribute_views(attributes@), 0) == Ok::<
                Option<int>,
                BaliError,
            >(None),
            Err(e) => find_code(pool_views(pool@), attribute_views(attributes@), 0) == Err::<
                Option<int>,
                BaliError,
            >(e),
        },
{
    let ghost views = attribute_views(attributes@);
    let mut i: usize = 0;
    while i < attributes.len()
        invariant
            i <= attributes@.len(),
            views == attribute_views(attributes@),
            find_code(pool_views(pool@), views, 0) == find_code(pool_views(pool@), views, i as int),
        decreases attributes@.len() - i,
    {
        assert(views[i as int] == attributes@[i as int]@);
        match text_at(pool, attributes[i].attribute_name_index) {
            None => {
                return Err(BaliError::BadReference);
            },
            Some(name) => {
                if str_eq(name.as_str(), "Code") {
                    return Ok(Some(i));
                }
            },
        }
        i = i + 1;
    }
    Ok(None)
}

/// What the image holds of `method`.
fn block_of(pool: &BTreeMap<u16, ConstPoolValue>, method: &MethodInfo) -> (r: Result<
    Option<(String, BaliCode)>,
    BaliError,
>)
    ensures
        match r {
            Ok(Some((signature, block))) => method_block(pool_views(pool@), method@) == Ok::<
                Option<(Seq<char>, BaliCodeView)>,
                BaliError,
            >(Some((signature@, block@))),
            Ok(None) => method_block(pool_views(pool@), method@) == Ok::<
                Option<(Seq<char>, BaliCodeView)>,
                BaliError,
            >(None),
            Err(e) => method_block(pool_views(pool@), method@) == Err::<
                Option<(Seq<char>, BaliCodeView)>,
                BaliError,
            >(e),
        },
{
    let i = match code_attribute_index(pool, &method.attributes)? {
        Some(i) => i,
        None => {
            return Ok(None);
        },
    };
    assert(method@.attributes[i as int] == method.attributes@[i as int]@);
    let (name, descriptor) = match (
        text_at(pool, method.name_index),
        text_at(pool, method.descriptor_index),
    ) {
        (Some(name), Some(descriptor)) => (name, descriptor),
        _ => {
            return Err(BaliError::BadReference);
        },
    };
    let attribute = parse_code_attribute(method.attributes[i].info.as_slice())?;
    let argcount = parse_argcount(descriptor.as_str())?;
    let code = replace_iinc(&attribute.code)?;
    let mut signature = String::from_str(name.as_str());
    signature.append(descriptor.as_str());
    let block = BaliCode {
        max_stack: attribute.max_stack,
        max_locals: attribute.max_locals,
        argcount,
        code,
    };
    Ok(Some((signature, block)))
}

/// Extracts the methods of `class` that have bytecode.
///
/// Each is entered under its signature, the method's name followed by its
/// descriptor, with the stack and local-variable limits of its `Code`
/// attribute, the number of its parameters and its bytecode in normal form.
/// The table is in ascending order of the signatures.
pub fn codeblocks(class: &ClassFile) -> (r: Result<MethodTable<BaliCode>, BaliError>)
    requires
        class@.pool_wf(),
    ensures
        is_result(r, spec_codeblocks(class@)),
        r matches Ok(table) ==> sorted_by_key(table@),
{
    let pool = constants(class);
    let mut table: MethodTable<BaliCode> = MethodTable::new();
    let ghost views = class@.methods;
    let ghost projected = spec_constants(class@);
    let mut i: usize = 0;
    while i < class.methods.len()
        invariant
            i <= class.methods@.len(),
            views == class@.methods,
            projected == pool_views(pool@),
            projected == spec_constants(class@),
            blocks_upto(projected, views, i as int) == Ok::<
                Seq<(Seq<char>, BaliCodeView)>,
                BaliError,
            >(table@),
        decreases class.methods@.len() - i,
    {
        assert(views[i as int] == class.methods@[i as int]@);
        match block_of(&pool, &class.methods[i]) {
            Err(e) => {
                proof {
                    assert(blocks_upto(projected, views, i + 1) == Err::<
                        Seq<(Seq<char>, BaliCodeView)>,
                        BaliError,
                    >(e));
                    lemma_blocks_error(projected, views, i + 1, views.len() as int);
                }
                return Err(e);
            },
            Ok(None) => {},
            Ok(Some((signature, block))) => {
                table.insert(signature, block);
            },
        }
        i = i + 1;
    }
    proof {
        lemma_blocks_sorted(projected, views, views.len() as int);
    }
    Ok(table)
}

} // verus!
