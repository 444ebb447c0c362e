//! The constant pool as the lowering reads it: the entries it understands,
//! under their one-based indices, and the signatures that method references
//! lead to.

use crate::bimaps::{
    lemma_paired_one_to_one, no_pairs, one_to_one, paired, ref_pairs, refs_insert, refs_new,
};
use crate::error::{is_result, BaliError};
use crate::structs::{
    ClassFile, ClassFileView, ConstPoolInfo, ConstPoolInfoView, ConstPoolValue,
    ConstPoolValueView,
};
use bimap::BiMap;
use std::collections::BTreeMap;
use vstd::prelude::*;
use vstd::utf8::{decode_utf8, valid_utf8};

verus! {

/// The signed number that the 32 bits of `bytes` stand for.
pub open spec fn int_value(bytes: u32) -> i32 {
    if bytes >= 0x8000_0000 {
        (bytes - 0x1_0000_0000) as i32
    } else {
        bytes as i32
    }
}

/// What the lowering reads of a pool entry, or `None` for an entry of a kind
/// that it passes over.
pub open spec fn pool_value(info: ConstPoolInfoView) -> Option<ConstPoolValueView> {
    match info {
        ConstPoolInfoView::ConstUTF8 { length, bytes } => Some(
            ConstPoolValueView::UTF8String(decode_utf8(bytes)),
        ),
        ConstPoolInfoView::ConstInt { bytes } => Some(
            ConstPoolValueView::Integer(int_value(bytes)),
        ),
        ConstPoolInfoView::ConstMethodRef { class_index, name_and_type_index } => Some(
            ConstPoolValueView::MethodRef(class_index, name_and_type_index),
        ),
        ConstPoolInfoView::ConstNameAndType { name_index, descriptor_index } => Some(
            ConstPoolValueView::NameAndType(name_index, descriptor_index),
        ),
        ConstPoolInfoView::ConstClass { name_index } => Some(
            ConstPoolValueView::Class(name_index),
        ),
        _ => None,
    }
}

/// The entries among the first `n` of `pool` that the lowering reads, each
/// under its index, which is its position in the pool plus one.
pub open spec fn projected(pool: Seq<ConstPoolInfoView>, n: int) -> Map<u16, ConstPoolValueView> {
    Map::new(
        |k: u16| 1 <= k <= n && k <= pool.len() && pool_value(pool[k - 1]) is Some,
        |k: u16| pool_value(pool[k - 1])->Some_0,
    )
}

/// The constant pool of `class` as the lowering reads it.
pub open spec fn spec_constants(class: ClassFileView) -> Map<u16, ConstPoolValueView> {
    projected(class.constpool, class.constpool.len() as int)
}

/// The views of the values of `pool`, under the same indices.
pub open spec fn pool_views(pool: Map<u16, ConstPoolValue>) -> Map<u16, ConstPoolValueView> {
    Map::new(|k: u16| pool.contains_key(k), |k: u16| pool[k]@)
}

/// The text of the UTF-8 entry at `index`.
pub open spec fn utf8_at(pool: Map<u16, ConstPoolValueView>, index: u16) -> Option<Seq<char>> {
    if pool.contains_key(index) {
        match pool[index] {
            ConstPoolValueView::UTF8String(text) => Some(text),
            _ => None,
        }
    } else {
        None
    }
}

/// The signature that the name-and-type entry at `desc_ref` spells: its name
/// followed by its descriptor.
///
/// It is an error where `desc_ref` is not the index of a name-and-type
/// entry, or where one of the two indices in that entry is not the index of
/// a UTF-8 entry.
pub open spec fn spec_method_signature(
    pool: Map<u16, ConstPoolValueView>,
    desc_ref: u16,
) -> Result<Seq<char>, BaliError> {
    if pool.contains_key(desc_ref) {
        match pool[desc_ref] {
            ConstPoolValueView::NameAndType(name_ref, type_ref) => {
                match (utf8_at(pool, name_ref), utf8_at(pool, type_ref)) {
                    (Some(name), Some(descriptor)) => Ok(name + descriptor),
                    _ => Err(BaliError::BadReference),
                }
            },
            _ => Err(BaliError::BadReference),
        }
    } else {
        Err(BaliError::BadReference)
    }
}

/// Every index of the projected pool lies between 1 and the pool's count,
/// the count left out, and its entry is what the raw pool holds there.
pub proof fn lemma_projection_within_pool(class: ClassFileView, index: u16)
    requires
        class.pool_wf(),
        spec_constants(class).contains_key(index),
    ensures
        1 <= index < class.constpool_count,
        pool_value(class.constpool[index - 1]) == Some(spec_constants(class)[index]),
{
}

/// `std::str::from_utf8`: the text that `bytes` spell, which there is where
/// `bytes` are UTF-8 and only there.
#[verifier::external_body]
pub(crate) fn utf8_text<'a>(bytes: &'a [u8]) -> (r: Option<&'a str>)
    ensures
        r is Some <==> valid_utf8(bytes@),
        r matches Some(text) ==> text@ == decode_utf8(bytes@),
{
    match std::str::from_utf8(bytes) {
        Ok(text) => Some(text),
        Err(_) => None,
    }
}

/// The signed number that the 32 bits of `bytes` stand for.
pub fn signed(bytes: u32) -> (value: i32)
    ensures
        value == int_value(bytes),
{
    if bytes >= 0x8000_0000 {
        let low: i32 = (bytes - 0x8000_0000) as i32;
        low - 0x7fff_ffff - 1
    } else {
        bytes as i32
    }
}

/// Whether the entry `info` is well formed.
fn entry_is_well_formed(info: &ConstPoolInfo) -> (ok: bool)
    ensures
        ok == info@.wf(),
{
    match info {
        ConstPoolInfo::ConstUTF8 { length, bytes } => {
            bytes.len() == *length as usize && utf8_text(bytes.as_slice()).is_some()
        },
        _ => true,
    }
}

/// Whether the entry `info` takes two slots.
fn entry_is_wide(info: &ConstPoolInfo) -> (wide: bool)
    ensures
        wide == info@.is_wide(),
{
    match info {
        ConstPoolInfo::ConstLong { .. } => true,
        ConstPoolInfo::ConstDouble { .. } => true,
        _ => false,
    }
}

/// Whether the entry `info` is the unusable one.
fn entry_is_unusable(info: &ConstPoolInfo) -> (unusable: bool)
    ensures
        unusable == (info@ is ConstUnusable),
{
    match info {
        ConstPoolInfo::ConstUnusable => true,
        _ => false,
    }
}

/// Tells whether the constant pool of `class` is well formed, which is what
/// the functions that read the pool require. A class file that was decoded
/// has a well-formed pool; one that was put together by hand may not.
pub fn pool_is_well_formed(class: &ClassFile) -> (ok: bool)
    ensures
        ok == class@.pool_wf(),
{
    let count: usize = class.constpool.len();
    if class.constpool_count == 0 || count != (class.constpool_count - 1) as usize {
        return false;
    }
    let ghost raw = class@.constpool;
    let mut i: usize = 0;
    while i < count
        invariant
            i <= count,
            count == class.constpool@.len(),
            raw == class@.constpool,
            forall|j: int| 0 <= j < i ==> (#[trigger] raw[j]).wf(),
            forall|j: int|
                0 <= j < i && (#[trigger] raw[j]).is_wide() ==> j + 1 < raw.len() && raw[j + 1]
                    is ConstUnusable,
            forall|j: int|
                0 <= j < i && (#[trigger] raw[j]) is ConstUnusable ==> j > 0 && raw[j
                    - 1].is_wide(),
        decreases count - i,
    {
        assert(raw[i as int] == class.constpool@[i as int]@);
        let entry = &class.constpool[i];
        if !entry_is_well_formed(entry) {
            return false;
        }
        if entry_is_wide(entry) {
            if i + 1 >= count {
                return false;
            }
            assert(raw[i + 1] == class.constpool@[i + 1]@);
            if !entry_is_unusable(&class.constpool[i + 1]) {
                return false;
            }
        }
        if entry_is_unusable(entry) {
            if i == 0 {
                return false;
            }
            assert(raw[i - 1] == class.constpool@[i - 1]@);
            if !entry_is_wide(&class.constpool[i - 1]) {
                return false;
            }
        }
        i = i + 1;
    }
    true
}

/// What the lowering reads of `info`.
fn project(info: &ConstPoolInfo) -> (r: Option<ConstPoolValue>)
    requires
        info@.wf(),
    ensures
        match r {
            Some(value) => pool_value(info@) == Some(value@),
            None => pool_value(info@) is None,
        },
{
    match info {
        ConstPoolInfo::ConstUTF8 { length: _, bytes } => {
            match utf8_text(bytes.as_slice()) {
                Some(text) => Some(ConstPoolValue::UTF8String(String::from_str(text))),
                None => None,
            }
        },
        ConstPoolInfo::ConstInt { bytes } => Some(ConstPoolValue::Integer(signed(*bytes))),
        ConstPoolInfo::ConstMethodRef { class_index, name_and_type_index } => Some(
            ConstPoolValue::MethodRef(*class_index, *name_and_type_index),
        ),
        ConstPoolInfo::ConstNameAndType { name_index, descriptor_index } => Some(
            ConstPoolValue::NameAndType(*name_index, *descriptor_index),
        ),
        ConstPoolInfo::ConstClass { name_index } => Some(ConstPoolValue::Class(*name_index)),
        _ => None,
    }
}

/// Extracts the entries of the constant pool that the lowering reads: UTF-8
/// texts, integers, classes, method references and name-and-type pairs.
///
/// The result maps the one-based index of each such entry to its value.
pub fn constants(class: &ClassFile) -> (constpool: BTreeMap<u16, ConstPoolValue>)
    requires
        class@.pool_wf(),
    ensures
        pool_views(constpool@) == spec_constants(class@),
        forall|index: u16| #[trigger]
            constpool@.contains_key(index) ==> 1 <= index < class.constpool_count,
{
    let mut constpool: BTreeMap<u16, ConstPoolValue> = BTreeMap::new();
    let ghost raw = class@.constpool;
    let mut i: usize = 0;
    assert(pool_views(constpool@) =~= projected(raw, 0));
    while i < class.constpool.len()
        invariant
            i <= class.constpool.len(),
            raw == class@.constpool,
            raw.len() < u16::MAX,
            forall|j: int| 0 <= j < raw.len() ==> (#[trigger] raw[j]).wf(),
            pool_views(constpool@) == projected(raw, i as int),
        decreases class.constpool.len() - i,
    {
        let index: u16 = (i + 1) as u16;
        let ghost before = constpool@;
        assert(raw[i as int] == class.constpool@[i as int]@);
        assert(raw[i as int].wf());
        match project(&class.constpool[i]) {
            Some(value) => {
                constpool.insert(index, value);
                proof {
                    lemma_pool_views_insert(before, index, value);
                    lemma_projected_step(raw, i as int);
                }
            },
            None => {
                proof {
                    lemma_projected_step(raw, i as int);
                }
            },
        }
        i = i + 1;
    }
    assert forall|index: u16| #[trigger] constpool@.contains_key(index) implies 1 <= index
        < class.constpool_count by {
        assert(pool_views(constpool@).contains_key(index));
    }
    constpool
}

/// The projection of one more entry: the entry is added under its index
/// where the lowering reads it, and nothing changes where it does not.
proof fn lemma_projected_step(raw: Seq<ConstPoolInfoView>, i: int)
    requires
        0 <= i < raw.len() < u16::MAX,
    ensures
        projected(raw, i + 1) == match pool_value(raw[i]) {
            Some(value) => projected(raw, i).insert((i + 1) as u16, value),
            None => projected(raw, i),
        },
{
    match pool_value(raw[i]) {
        Some(value) => {
            assert(projected(raw, i + 1) =~= projected(raw, i).insert((i + 1) as u16, value));
        },
        None => {
            assert(projected(raw, i + 1) =~= projected(raw, i));
        },
    }
}

/// The views of a pool with one more value.
proof fn lemma_pool_views_insert(pool: Map<u16, ConstPoolValue>, index: u16, value: ConstPoolValue)
    ensures
        pool_views(pool.insert(index, value)) == pool_views(pool).insert(index, value@),
{
    assert(pool_views(pool.insert(index, value)) =~= pool_views(pool).insert(index, value@));
}

/// The text of the UTF-8 entry of `pool` at `index`.
pub fn text_at<'a>(pool: &'a BTreeMap<u16, ConstPoolValue>, index: u16) -> (r: Option<&'a String>)
    ensures
        match r {
            Some(text) => utf8_at(pool_views(pool@), index) == Some(text@),
            None => utf8_at(pool_views(pool@), index) is None,
        },
{
    match pool.get(&index) {
        Some(ConstPoolValue::UTF8String(text)) => Some(text),
        _ => None,
    }
}

/// The signature that the name-and-type entry of `pool` at `desc_ref` spells.
pub fn signature_in(pool: &BTreeMap<u16, ConstPoolValue>, desc_ref: u16) -> (r: Result<
    String,
    BaliError,
>)
    ensures
        is_result(r, spec_method_signature(pool_views(pool@), desc_ref)),
{
    match pool.get(&desc_ref) {
        Some(ConstPoolValue::NameAndType(name_ref, type_ref)) => {
            match (text_at(pool, *name_ref), text_at(pool, *type_ref)) {
                (Some(name), Some(descriptor)) => {
                    let mut signature = String::from_str(name.as_str());
                    signature.append(descriptor.as_str());
                    Ok(signature)
                },
                _ => Err(BaliError::BadReference),
            }
        },
        _ => Err(BaliError::BadReference),
    }
}

/// Spells the signature of a method from the index of its name-and-type
/// entry: the method's name followed by its descriptor.
pub fn parse_method_signature(classinfo: &ClassFile, desc_ref: &u16) -> (r: Result<
    String,
    BaliError,
>)
    requires
        classinfo@.pool_wf(),
    ensures
        is_result(r, spec_method_signature(spec_constants(classinfo@), *desc_ref)),
{
    let constpool = constants(classinfo);
    signature_in(&constpool, *desc_ref)
}

/// The method references among the pool entries with an index up to `n`,
/// each index paired with the signature that it leads to.
///
/// The pairs are made in ascending order of the indices, and they stay
/// bijective: an index takes over a signature that a smaller index was
/// paired with. The first reference that leads to no signature gives the
/// error.
pub open spec fn refs_upto(pool: Map<u16, ConstPoolValueView>, n: int) -> Result<
    Map<u16, Seq<char>>,
    BaliError,
>
    decreases n,
{
    if n <= 0 {
        Ok(no_pairs())
    } else {
        match refs_upto(pool, n - 1) {
            Err(e) => Err(e),
            Ok(pairs) => {
                if pool.contains_key(n as u16) {
                    match pool[n as u16] {
                        ConstPoolValueView::MethodRef(_, desc_ref) => {
                            match spec_method_signature(pool, desc_ref) {
                                Err(e) => Err(e),
                                Ok(signature) => Ok(paired(pairs, n as u16, signature)),
                            }
                        },
                        _ => Ok(pairs),
                    }
                } else {
                    Ok(pairs)
                }
            },
        }
    }
}

/// The method references of `class`, each index paired with its signature.
pub open spec fn spec_methodrefs(class: ClassFileView) -> Result<Map<u16, Seq<char>>, BaliError> {
    refs_upto(spec_constants(class), class.constpool.len() as int)
}

/// An error among the first references is the error of them all.
pub proof fn lemma_refs_error(pool: Map<u16, ConstPoolValueView>, i: int, n: int)
    requires
        0 <= i <= n,
        refs_upto(pool, i) is Err,
    ensures
        refs_upto(pool, n) == refs_upto(pool, i),
    decreases n - i,
{
    if i < n {
        lemma_refs_error(pool, i, n - 1);
    }
}

/// The method references and their signatures correspond one to one: no
/// signature is paired with two indices.
pub proof fn lemma_refs_one_to_one(pool: Map<u16, ConstPoolValueView>, n: int)
    requires
        refs_upto(pool, n) is Ok,
    ensures
        one_to_one(refs_upto(pool, n)->Ok_0),
    decreases n,
{
    if n > 0 {
        lemma_refs_one_to_one(pool, n - 1);
        let pairs = refs_upto(pool, n - 1)->Ok_0;
        if pool.contains_key(n as u16) {
            match pool[n as u16] {
                ConstPoolValueView::MethodRef(_, desc_ref) => {
                    lemma_paired_one_to_one(
                        pairs,
                        n as u16,
                        spec_method_signature(pool, desc_ref)->Ok_0,
                    );
                },
                _ => {},
            }
        }
    }
}

/// Pairs the index of every method reference of the pool with the signature
/// of the method that it names.
pub fn methodrefs(classinfo: &ClassFile) -> (r: Result<BiMap<u16, String>, BaliError>)
    requires
        classinfo@.pool_wf(),
    ensures
        match r {
            Ok(refmap) => spec_methodrefs(classinfo@) == Ok::<Map<u16, Seq<char>>, BaliError>(
                ref_pairs(refmap),
            ),
            Err(e) => spec_methodrefs(classinfo@) == Err::<Map<u16, Seq<char>>, BaliError>(e),
        },
{
    let constpool = constants(classinfo);
    let mut refmap: BiMap<u16, String> = refs_new();
    let ghost pool = spec_constants(classinfo@);
    let count: usize = classinfo.constpool.len();
    let mut i: usize = 0;
    while i < count
        invariant
            i <= count,
            count == classinfo@.constpool.len(),
            count < u16::MAX,
            pool == pool_views(constpool@),
            pool == spec_constants(classinfo@),
            refs_upto(pool, i as int) == Ok::<Map<u16, Seq<char>>, BaliError>(ref_pairs(refmap)),
        decreases count - i,
    {
        let index: u16 = (i + 1) as u16;
        match constpool.get(&index) {
            Some(ConstPoolValue::MethodRef(_, desc_ref)) => {
                match signature_in(&constpool, *desc_ref) {
                    Ok(signature) => {
                        refs_insert(&mut refmap, index, signature);
                    },
                    Err(e) => {
                        proof {
                            assert(refs_upto(pool, i + 1) == Err::<Map<u16, Seq<char>>, BaliError>(
                                e,
                            ));
                            lemma_refs_error(pool, i + 1, count as int);
                        }
                        return Err(e);
                    },
                }
            },
            _ => {},
        }
        i = i + 1;
    }
    Ok(refmap)
}

} // verus!
