//! The bytes of a class file, written down from the class file.
//!
//! This is the format that the decoder reads, stated the other way round:
//! whatever the decoder makes of a stream of bytes, these functions make the
//! same bytes of it again.

use crate::bytes::{be16, be32, has_bytes};
use crate::error::BaliError;
use crate::reader::{
    spec_attribute, spec_attributes, spec_classfile, spec_code_attribute,
    spec_counted_attributes, spec_counted_fields, spec_counted_methods, spec_counted_pool,
    spec_counted_u16s, spec_exception, spec_exceptions, spec_field, spec_fields, spec_method,
    spec_methods, spec_pool, spec_pool_entry, spec_u16, spec_u16s,
};
use crate::reader::{fields_wf, methods_wf};
use crate::structs::{
    attributes_wf, slots_wf, AttributeInfoView, ClassFileView, CodeAttributeView,
    ConstPoolInfoView, ExceptionTableEntry, FieldInfoView, MethodInfoView,
};
use vstd::prelude::*;

verus! {

/// The two bytes of `v`, high byte first.
pub open spec fn u16_bytes(v: u16) -> Seq<u8> {
    seq![(v / 256) as u8, (v % 256) as u8]
}

/// The four bytes of `v`, high byte first.
pub open spec fn u32_bytes(v: u32) -> Seq<u8> {
    seq![
        (v / 0x100_0000) as u8,
        (v / 0x1_0000 % 256) as u8,
        (v / 0x100 % 256) as u8,
        (v % 256) as u8,
    ]
}

/// The bytes of an attribute: the index of its name, its length, and its
/// content.
pub open spec fn attribute_bytes(a: AttributeInfoView) -> Seq<u8> {
    u16_bytes(a.attribute_name_index) + u32_bytes(a.attribute_length) + a.info
}

/// The bytes of the attributes in `attributes`, one behind the other.
pub open spec fn attributes_bytes(attributes: Seq<AttributeInfoView>) -> Seq<u8>
    decreases attributes.len(),
{
    if attributes.len() == 0 {
        Seq::empty()
    } else {
        attribute_bytes(attributes[0]) + attributes_bytes(attributes.drop_first())
    }
}

/// The bytes of an entry of an exception table.
pub open spec fn exception_bytes(e: ExceptionTableEntry) -> Seq<u8> {
    u16_bytes(e.start_pc) + u16_bytes(e.end_pc) + u16_bytes(e.handler_pc) + u16_bytes(e.catch_type)
}

/// The bytes of the entries in `entries`, one behind the other.
pub open spec fn exceptions_bytes(entries: Seq<ExceptionTableEntry>) -> Seq<u8>
    decreases entries.len(),
{
    if entries.len() == 0 {
        Seq::empty()
    } else {
        exception_bytes(entries[0]) + exceptions_bytes(entries.drop_first())
    }
}

/// The bytes of the limits of a code attribute and of its bytecode behind
/// its length.
pub open spec fn code_head_bytes(c: CodeAttributeView) -> Seq<u8> {
    u16_bytes(c.max_stack) + u16_bytes(c.max_locals) + u32_bytes(c.code_length) + c.code
}

/// The bytes of the two tables of a code attribute, each behind its count.
pub open spec fn code_tables_bytes(c: CodeAttributeView) -> Seq<u8> {
    u16_bytes(c.exception_table_length) + exceptions_bytes(c.exception_table) + u16_bytes(
        c.attributes_count,
    ) + attributes_bytes(c.attributes)
}

/// The bytes of a code attribute: the limits, the bytecode behind its
/// length, and the two tables, each behind its count.
pub open spec fn code_attribute_bytes(c: CodeAttributeView) -> Seq<u8> {
    code_head_bytes(c) + code_tables_bytes(c)
}

/// The bytes of a constant-pool entry: its tag and its content. The
/// unusable entry behind a long or a double has no bytes.
pub open spec fn pool_entry_bytes(e: ConstPoolInfoView) -> Seq<u8> {
    match e {
        ConstPoolInfoView::ConstClass { name_index } => seq![7u8] + u16_bytes(name_index),
        ConstPoolInfoView::ConstFieldRef { class_index, name_and_type_index } => seq![9u8]
            + u16_bytes(class_index) + u16_bytes(name_and_type_index),
        ConstPoolInfoView::ConstMethodRef { class_index, name_and_type_index } => seq![10u8]
            + u16_bytes(class_index) + u16_bytes(name_and_type_index),
        ConstPoolInfoView::ConstInterfaceMethodRef { class_index, name_and_type_index } => seq![
            11u8,
        ] + u16_bytes(class_index) + u16_bytes(name_and_type_index),
        ConstPoolInfoView::ConstString { string_index } => seq![8u8] + u16_bytes(string_index),
        ConstPoolInfoView::ConstInt { bytes } => seq![3u8] + u32_bytes(bytes),
        ConstPoolInfoView::ConstFloat { bytes } => seq![4u8] + u32_bytes(bytes),
        ConstPoolInfoView::ConstLong { high_bytes, low_bytes } => seq![5u8] + u32_bytes(
            high_bytes,
        ) + u32_bytes(low_bytes),
        ConstPoolInfoView::ConstDouble { high_bytes, low_bytes } => seq![6u8] + u32_bytes(
            high_bytes,
        ) + u32_bytes(low_bytes),
        ConstPoolInfoView::ConstNameAndType { name_index, descriptor_index } => seq![12u8]
            + u16_bytes(name_index) + u16_bytes(descriptor_index),
        ConstPoolInfoView::ConstUTF8 { length, bytes } => seq![1u8] + u16_bytes(length) + bytes,
        ConstPoolInfoView::ConstMethodHandle { reference_kind, reference_index } => seq![
            15u8,
            reference_kind,
        ] + u16_bytes(reference_index),
        ConstPoolInfoView::ConstMethodType { descriptor_index } => seq![16u8] + u16_bytes(
            descriptor_index,
        ),
        ConstPoolInfoView::ConstInvokeDynamic {
            bootstrap_method_attr_index,
            name_and_type_index,
        } => seq![18u8] + u16_bytes(bootstrap_method_attr_index) + u16_bytes(name_and_type_index),
        ConstPoolInfoView::ConstUnusable => Seq::empty(),
    }
}

/// The bytes of the entries in `constpool`, one behind the other.
pub open spec fn pool_bytes(constpool: Seq<ConstPoolInfoView>) -> Seq<u8>
    decreases constpool.len(),
{
    if constpool.len() == 0 {
        Seq::empty()
    } else {
        pool_entry_bytes(constpool[0]) + pool_bytes(constpool.drop_first())
    }
}

/// The bytes of the numbers in `items`, one behind the other.
pub open spec fn u16s_bytes(items: Seq<u16>) -> Seq<u8>
    decreases items.len(),
{
    if items.len() == 0 {
        Seq::empty()
    } else {
        u16_bytes(items[0]) + u16s_bytes(items.drop_first())
    }
}

/// The bytes of a field: its flags, the indices of its name and of its
/// descriptor, and its attributes behind their count.
pub open spec fn field_bytes(f: FieldInfoView) -> Seq<u8> {
    u16_bytes(f.access_flags) + u16_bytes(f.name_index) + u16_bytes(f.descriptor_index)
        + u16_bytes(f.attributes_count) + attributes_bytes(f.attributes)
}

/// The bytes of a method: its flags, the indices of its name and of its
/// descriptor, and its attributes behind their count.
pub open spec fn method_bytes(m: MethodInfoView) -> Seq<u8> {
    u16_bytes(m.access_flags) + u16_bytes(m.name_index) + u16_bytes(m.descriptor_index)
        + u16_bytes(m.attributes_count) + attributes_bytes(m.attributes)
}

/// The bytes of the fields in `fields`, one behind the other.
pub open spec fn fields_bytes(fields: Seq<FieldInfoView>) -> Seq<u8>
    decreases fields.len(),
{
    if fields.len() == 0 {
        Seq::empty()
    } else {
        field_bytes(fields[0]) + fields_bytes(fields.drop_first())
    }
}

/// The bytes of the methods in `methods`, one behind the other.
pub open spec fn methods_bytes(methods: Seq<MethodInfoView>) -> Seq<u8>
    decreases methods.len(),
{
    if methods.len() == 0 {
        Seq::empty()
    } else {
        method_bytes(methods[0]) + methods_bytes(methods.drop_first())
    }
}

/// The bytes of the head of a class file: the magic number, the version, and
/// the constant pool behind its count.
pub open spec fn head_bytes(c: ClassFileView) -> Seq<u8> {
    u32_bytes(c.magic) + u16_bytes(c.minor_version) + u16_bytes(c.major_version) + u16_bytes(
        c.constpool_count,
    ) + pool_bytes(c.constpool)
}

/// The bytes of the middle of a class file: the flags, the two class
/// indices, and the interfaces behind their count.
pub open spec fn class_bytes(c: ClassFileView) -> Seq<u8> {
    u16_bytes(c.access_flags) + u16_bytes(c.this_class) + u16_bytes(c.super_class) + u16_bytes(
        c.interfaces_count,
    ) + u16s_bytes(c.interfaces)
}

/// The bytes of the three tables at the end of a class file, each behind its
/// count.
pub open spec fn tables_bytes(c: ClassFileView) -> Seq<u8> {
    u16_bytes(c.fields_count) + fields_bytes(c.fields) + u16_bytes(c.methods_count)
        + methods_bytes(c.methods) + u16_bytes(c.attributes_count) + attributes_bytes(
        c.attributes,
    )
}

/// The bytes of a class file: the magic number and the version, the
/// constant pool, the flags and the two class indices, and the tables of
/// interfaces, fields, methods and attributes, each table behind its count.
pub open spec fn classfile_bytes(c: ClassFileView) -> Seq<u8> {
    head_bytes(c) + class_bytes(c) + tables_bytes(c)
}

/// The two bytes at `pos` are the bytes of the number that they spell.
pub proof fn lemma_u16_bytes(b: Seq<u8>, pos: int)
    requires
        has_bytes(b, pos, 2),
    ensures
        u16_bytes(be16(b, pos) as u16) == b.subrange(pos, pos + 2),
{
    assert(u16_bytes(be16(b, pos) as u16) =~= b.subrange(pos, pos + 2));
}

/// The four bytes at `pos` are the bytes of the number that they spell.
pub proof fn lemma_u32_bytes(b: Seq<u8>, pos: int)
    requires
        has_bytes(b, pos, 4),
    ensures
        u32_bytes(be32(b, pos) as u32) == b.subrange(pos, pos + 4),
{
    assert(u32_bytes(be32(b, pos) as u32) =~= b.subrange(pos, pos + 4));
}

/// Two stretches of `b` that meet are one stretch.
pub proof fn lemma_join(b: Seq<u8>, from: int, mid: int, to: int)
    requires
        0 <= from <= mid <= to <= b.len(),
    ensures
        b.subrange(from, mid) + b.subrange(mid, to) == b.subrange(from, to),
{
    assert(b.subrange(from, mid) + b.subrange(mid, to) =~= b.subrange(from, to));
}

/// An attribute that was decoded has the bytes it was decoded from.
pub proof fn lemma_attribute_bytes(b: Seq<u8>, pos: int)
    requires
        0 <= pos,
        spec_attribute(b, pos) is Ok,
    ensures
        pos <= spec_attribute(b, pos)->Ok_0.1 <= b.len(),
        attribute_bytes(spec_attribute(b, pos)->Ok_0.0) == b.subrange(
            pos,
            spec_attribute(b, pos)->Ok_0.1,
        ),
{
    let (a, end) = spec_attribute(b, pos)->Ok_0;
    lemma_u16_bytes(b, pos);
    lemma_u32_bytes(b, pos + 2);
    lemma_join(b, pos, pos + 2, pos + 6);
    lemma_join(b, pos, pos + 6, end);
}

/// Attributes that were decoded have the bytes they were decoded from.
pub proof fn lemma_attributes_bytes(b: Seq<u8>, pos: int, n: nat)
    requires
        0 <= pos <= b.len(),
        spec_attributes(b, pos, n) is Ok,
    ensures
        pos <= spec_attributes(b, pos, n)->Ok_0.1 <= b.len(),
        spec_attributes(b, pos, n)->Ok_0.0.len() == n,
        attributes_bytes(spec_attributes(b, pos, n)->Ok_0.0) == b.subrange(
            pos,
            spec_attributes(b, pos, n)->Ok_0.1,
        ),
    decreases n,
{
    let (items, end) = spec_attributes(b, pos, n)->Ok_0;
    if n == 0 {
        assert(b.subrange(pos, pos) =~= Seq::<u8>::empty());
    } else {
        let (first, next) = spec_attribute(b, pos)->Ok_0;
        lemma_attribute_bytes(b, pos);
        lemma_attributes_bytes(b, next, (n - 1) as nat);
        let rest = spec_attributes(b, next, (n - 1) as nat)->Ok_0.0;
        assert(items == seq![first] + rest);
        assert(items.drop_first() =~= rest);
        lemma_join(b, pos, next, end);
    }
}

/// An entry of an exception table that was decoded has the bytes it was
/// decoded from.
pub proof fn lemma_exception_bytes(b: Seq<u8>, pos: int)
    requires
        0 <= pos,
        spec_exception(b, pos) is Ok,
    ensures
        pos <= spec_exception(b, pos)->Ok_0.1 <= b.len(),
        exception_bytes(spec_exception(b, pos)->Ok_0.0) == b.subrange(
            pos,
            spec_exception(b, pos)->Ok_0.1,
        ),
{
    lemma_u16_bytes(b, pos);
    lemma_u16_bytes(b, pos + 2);
    lemma_u16_bytes(b, pos + 4);
    lemma_u16_bytes(b, pos + 6);
    lemma_join(b, pos, pos + 2, pos + 4);
    lemma_join(b, pos, pos + 4, pos + 6);
    lemma_join(b, pos, pos + 6, pos + 8);
}

/// Entries of an exception table that were decoded have the bytes they were decoded from.
pub proof fn lemma_exceptions_bytes(b: Seq<u8>, pos: int, n: nat)
    requires
        0 <= pos <= b.len(),
        spec_exceptions(b, pos, n) is Ok,
    ensures
        pos <= spec_exceptions(b, pos, n)->Ok_0.1 <= b.len(),
        spec_exceptions(b, pos, n)->Ok_0.0.len() == n,
        exceptions_bytes(spec_exceptions(b, pos, n)->Ok_0.0) == b.subrange(
            pos,
            spec_exceptions(b, pos, n)->Ok_0.1,
        ),
    decreases n,
{
    let (items, end) = spec_exceptions(b, pos, n)->Ok_0;
    if n == 0 {
        assert(b.subrange(pos, pos) =~= Seq::<u8>::empty());
    } else {
        let (first, next) = spec_exception(b, pos)->Ok_0;
        lemma_exception_bytes(b, pos);
        lemma_exceptions_bytes(b, next, (n - 1) as nat);
        let rest = spec_exceptions(b, next, (n - 1) as nat)->Ok_0.0;
        assert(items == seq![first] + rest);
        assert(items.drop_first() =~= rest);
        lemma_join(b, pos, next, end);
    }
}

/// A 16-bit number that was decoded has the bytes it was decoded from.
pub proof fn lemma_one_u16_bytes(b: Seq<u8>, pos: int)
    requires
        0 <= pos,
        spec_u16(b, pos) is Ok,
    ensures
        spec_u16(b, pos)->Ok_0.1 == pos + 2 <= b.len(),
        u16_bytes(spec_u16(b, pos)->Ok_0.0) == b.subrange(pos, pos + 2),
{
    lemma_u16_bytes(b, pos);
}

/// Numbers that were decoded have the bytes they were decoded from.
pub proof fn lemma_u16s_bytes(b: Seq<u8>, pos: int, n: nat)
    requires
        0 <= pos <= b.len(),
        spec_u16s(b, pos, n) is Ok,
    ensures
        pos <= spec_u16s(b, pos, n)->Ok_0.1 <= b.len(),
        spec_u16s(b, pos, n)->Ok_0.0.len() == n,
        u16s_bytes(spec_u16s(b, pos, n)->Ok_0.0) == b.subrange(
            pos,
            spec_u16s(b, pos, n)->Ok_0.1,
        ),
    decreases n,
{
    let (items, end) = spec_u16s(b, pos, n)->Ok_0;
    if n == 0 {
        assert(b.subrange(pos, pos) =~= Seq::<u8>::empty());
    } else {
        let (first, next) = spec_u16(b, pos)->Ok_0;
        lemma_one_u16_bytes(b, pos);
        lemma_u16s_bytes(b, next, (n - 1) as nat);
        let rest = spec_u16s(b, next, (n - 1) as nat)->Ok_0.0;
        assert(items == seq![first] + rest);
        assert(items.drop_first() =~= rest);
        lemma_join(b, pos, next, end);
    }
}

/// A code attribute that was decoded has the bytes it was decoded from.
pub proof fn lemma_code_attribute_bytes(b: Seq<u8>)
    requires
        spec_code_attribute(b) is Ok,
    ensures
        code_attribute_bytes(spec_code_attribute(b)->Ok_0) == b,
{
    let c = spec_code_attribute(b)->Ok_0;
    let code_end = 8 + be32(b, 4);
    let (table, table_end) = spec_exceptions(b, code_end + 2, be16(b, code_end) as nat)->Ok_0;
    let (attributes, end) = spec_attributes(b, table_end + 2, be16(b, table_end) as nat)->Ok_0;
    assert(code_head_bytes(c) == b.subrange(0, code_end)) by {
        lemma_u16_bytes(b, 0);
        lemma_u16_bytes(b, 2);
        lemma_u32_bytes(b, 4);
        lemma_join(b, 0, 2, 4);
        lemma_join(b, 0, 4, 8);
        lemma_join(b, 0, 8, code_end);
    }
    assert(code_tables_bytes(c) == b.subrange(code_end, end)) by {
        lemma_u16_bytes(b, code_end);
        lemma_exceptions_bytes(b, code_end + 2, be16(b, code_end) as nat);
        lemma_u16_bytes(b, table_end);
        lemma_attributes_bytes(b, table_end + 2, be16(b, table_end) as nat);
        lemma_join(b, code_end, code_end + 2, table_end);
        lemma_join(b, code_end, table_end, table_end + 2);
        lemma_join(b, code_end, table_end + 2, end);
    }
    lemma_join(b, 0, code_end, end);
    assert(b.subrange(0, b.len() as int) =~= b);
}

/// A constant-pool entry that was decoded has the bytes it was decoded
/// from.
pub proof fn lemma_pool_entry_bytes(b: Seq<u8>, pos: int)
    requires
        0 <= pos,
        spec_pool_entry(b, pos) is Ok,
    ensures
        pos < spec_pool_entry(b, pos)->Ok_0.1 <= b.len(),
        spec_pool_entry(b, pos)->Ok_0.0 !is ConstUnusable,
        pool_entry_bytes(spec_pool_entry(b, pos)->Ok_0.0) == b.subrange(
            pos,
            spec_pool_entry(b, pos)->Ok_0.1,
        ),
{
    let (entry, end) = spec_pool_entry(b, pos)->Ok_0;
    let tag = b[pos];
    assert(b.subrange(pos, pos + 1) =~= seq![tag]);
    if tag == 1 {
        lemma_u16_bytes(b, pos + 1);
        lemma_join(b, pos, pos + 1, pos + 3);
        lemma_join(b, pos, pos + 3, end);
    } else if tag == 3 || tag == 4 {
        lemma_u32_bytes(b, pos + 1);
        lemma_join(b, pos, pos + 1, pos + 5);
    } else if tag == 5 || tag == 6 {
        lemma_u32_bytes(b, pos + 1);
        lemma_u32_bytes(b, pos + 5);
        lemma_join(b, pos, pos + 1, pos + 5);
        lemma_join(b, pos, pos + 5, pos + 9);
    } else if tag == 7 || tag == 8 || tag == 16 {
        lemma_u16_bytes(b, pos + 1);
        lemma_join(b, pos, pos + 1, pos + 3);
    } else if tag == 15 {
        lemma_u16_bytes(b, pos + 2);
        assert(b.subrange(pos, pos + 2) =~= seq![tag, b[pos + 1]]);
        lemma_join(b, pos, pos + 2, pos + 4);
    } else {
        lemma_u16_bytes(b, pos + 1);
        lemma_u16_bytes(b, pos + 3);
        lemma_join(b, pos, pos + 1, pos + 3);
        lemma_join(b, pos, pos + 3, pos + 5);
    }
}

/// Constant-pool entries that were decoded have the bytes they were decoded
/// from, and fill the slots they were decoded for.
pub proof fn lemma_pool_bytes(b: Seq<u8>, pos: int, slots: nat)
    requires
        0 <= pos <= b.len(),
        spec_pool(b, pos, slots) is Ok,
    ensures
        pos <= spec_pool(b, pos, slots)->Ok_0.1 <= b.len(),
        spec_pool(b, pos, slots)->Ok_0.0.len() == slots,
        pool_bytes(spec_pool(b, pos, slots)->Ok_0.0) == b.subrange(
            pos,
            spec_pool(b, pos, slots)->Ok_0.1,
        ),
    decreases slots,
{
    let (items, end) = spec_pool(b, pos, slots)->Ok_0;
    if slots == 0 {
        assert(b.subrange(pos, pos) =~= Seq::<u8>::empty());
    } else {
        let (first, next) = spec_pool_entry(b, pos)->Ok_0;
        lemma_pool_entry_bytes(b, pos);
        if first.is_wide() {
            lemma_pool_bytes(b, next, (slots - 2) as nat);
            let rest = spec_pool(b, next, (slots - 2) as nat)->Ok_0.0;
            assert(items == seq![first, ConstPoolInfoView::ConstUnusable] + rest);
            assert(items.drop_first() =~= seq![ConstPoolInfoView::ConstUnusable] + rest);
            assert(items.drop_first().drop_first() =~= rest);
            assert(pool_bytes(items.drop_first()) == Seq::<u8>::empty() + pool_bytes(rest));
            assert(Seq::<u8>::empty() + pool_bytes(rest) =~= pool_bytes(rest));
        } else {
            lemma_pool_bytes(b, next, (slots - 1) as nat);
            let rest = spec_pool(b, next, (slots - 1) as nat)->Ok_0.0;
            assert(items == seq![first] + rest);
            assert(items.drop_first() =~= rest);
        }
        lemma_join(b, pos, next, end);
    }
}

/// A table of attributes that was decoded has the bytes it was decoded
/// from, its count in front.
pub proof fn lemma_counted_attributes_bytes(b: Seq<u8>, pos: int)
    requires
        0 <= pos,
        spec_counted_attributes(b, pos) is Ok,
    ensures
        pos <= spec_counted_attributes(b, pos)->Ok_0.2 <= b.len(),
        spec_counted_attributes(b, pos)->Ok_0.1.len() == spec_counted_attributes(b, pos)->Ok_0.0,
        u16_bytes(spec_counted_attributes(b, pos)->Ok_0.0) + attributes_bytes(
            spec_counted_attributes(b, pos)->Ok_0.1,
        ) == b.subrange(pos, spec_counted_attributes(b, pos)->Ok_0.2),
{
    let (count, items, end) = spec_counted_attributes(b, pos)->Ok_0;
    lemma_u16_bytes(b, pos);
    lemma_attributes_bytes(b, pos + 2, count as nat);
    lemma_join(b, pos, pos + 2, end);
}

/// A field that was decoded has the bytes it was decoded from.
pub proof fn lemma_field_bytes(b: Seq<u8>, pos: int)
    requires
        0 <= pos,
        spec_field(b, pos) is Ok,
    ensures
        pos <= spec_field(b, pos)->Ok_0.1 <= b.len(),
        field_bytes(spec_field(b, pos)->Ok_0.0) == b.subrange(pos, spec_field(b, pos)->Ok_0.1),
{
    let (f, end) = spec_field(b, pos)->Ok_0;
    lemma_u16_bytes(b, pos);
    lemma_u16_bytes(b, pos + 2);
    lemma_u16_bytes(b, pos + 4);
    lemma_counted_attributes_bytes(b, pos + 6);
    lemma_join(b, pos, pos + 2, pos + 4);
    lemma_join(b, pos, pos + 4, pos + 6);
    lemma_join(b, pos, pos + 6, end);
    assert(field_bytes(f) =~= u16_bytes(f.access_flags) + u16_bytes(f.name_index) + u16_bytes(
        f.descriptor_index,
    ) + (u16_bytes(f.attributes_count) + attributes_bytes(f.attributes)));
}

/// A method that was decoded has the bytes it was decoded from.
pub proof fn lemma_method_bytes(b: Seq<u8>, pos: int)
    requires
        0 <= pos,
        spec_method(b, pos) is Ok,
    ensures
        pos <= spec_method(b, pos)->Ok_0.1 <= b.len(),
        method_bytes(spec_method(b, pos)->Ok_0.0) == b.subrange(pos, spec_method(b, pos)->Ok_0.1),
{
    let (m, end) = spec_method(b, pos)->Ok_0;
    lemma_u16_bytes(b, pos);
    lemma_u16_bytes(b, pos + 2);
    lemma_u16_bytes(b, pos + 4);
    lemma_counted_attributes_bytes(b, pos + 6);
    lemma_join(b, pos, pos + 2, pos + 4);
    lemma_join(b, pos, pos + 4, pos + 6);
    lemma_join(b, pos, pos + 6, end);
    assert(method_bytes(m) =~= u16_bytes(m.access_flags) + u16_bytes(m.name_index) + u16_bytes(
        m.descriptor_index,
    ) + (u16_bytes(m.attributes_count) + attributes_bytes(m.attributes)));
}

/// Fields that were decoded have the bytes they were decoded from.
pub proof fn lemma_fields_bytes(b: Seq<u8>, pos: int, n: nat)
    requires
        0 <= pos <= b.len(),
        spec_fields(b, pos, n) is Ok,
    ensures
        pos <= spec_fields(b, pos, n)->Ok_0.1 <= b.len(),
        spec_fields(b, pos, n)->Ok_0.0.len() == n,
        fields_bytes(spec_fields(b, pos, n)->Ok_0.0) == b.subrange(
            pos,
            spec_fields(b, pos, n)->Ok_0.1,
        ),
    decreases n,
{
    let (items, end) = spec_fields(b, pos, n)->Ok_0;
    if n == 0 {
        assert(b.subrange(pos, pos) =~= Seq::<u8>::empty());
    } else {
        let (first, next) = spec_field(b, pos)->Ok_0;
        lemma_field_bytes(b, pos);
        lemma_fields_bytes(b, next, (n - 1) as nat);
        let rest = spec_fields(b, next, (n - 1) as nat)->Ok_0.0;
        assert(items == seq![first] + rest);
        assert(items.drop_first() =~= rest);
        lemma_join(b, pos, next, end);
    }
}

/// Methods that were decoded have the bytes they were decoded from.
pub proof fn lemma_methods_bytes(b: Seq<u8>, pos: int, n: nat)
    requires
        0 <= pos <= b.len(),
        spec_methods(b, pos, n) is Ok,
    ensures
        pos <= spec_methods(b, pos, n)->Ok_0.1 <= b.len(),
        spec_methods(b, pos, n)->Ok_0.0.len() == n,
        methods_bytes(spec_methods(b, pos, n)->Ok_0.0) == b.subrange(
            pos,
            spec_methods(b, pos, n)->Ok_0.1,
        ),
    decreases n,
{
    let (items, end) = spec_methods(b, pos, n)->Ok_0;
    if n == 0 {
        assert(b.subrange(pos, pos) =~= Seq::<u8>::empty());
    } else {
        let (first, next) = spec_method(b, pos)->Ok_0;
        lemma_method_bytes(b, pos);
        lemma_methods_bytes(b, next, (n - 1) as nat);
        let rest = spec_methods(b, next, (n - 1) as nat)->Ok_0.0;
        assert(items == seq![first] + rest);
        assert(items.drop_first() =~= rest);
        lemma_join(b, pos, next, end);
    }
}

/// A table of fields that was decoded has the bytes it was decoded from,
/// its count in front.
pub proof fn lemma_counted_fields_bytes(b: Seq<u8>, pos: int)
    requires
        0 <= pos,
        spec_counted_fields(b, pos) is Ok,
    ensures
        pos <= spec_counted_fields(b, pos)->Ok_0.2 <= b.len(),
        u16_bytes(spec_counted_fields(b, pos)->Ok_0.0) + fields_bytes(
            spec_counted_fields(b, pos)->Ok_0.1,
        ) == b.subrange(pos, spec_counted_fields(b, pos)->Ok_0.2),
{
    let (count, items, end) = spec_counted_fields(b, pos)->Ok_0;
    lemma_u16_bytes(b, pos);
    lemma_fields_bytes(b, pos + 2, count as nat);
    lemma_join(b, pos, pos + 2, end);
}

/// A table of methods that was decoded has the bytes it was decoded from,
/// its count in front.
pub proof fn lemma_counted_methods_bytes(b: Seq<u8>, pos: int)
    requires
        0 <= pos,
        spec_counted_methods(b, pos) is Ok,
    ensures
        pos <= spec_counted_methods(b, pos)->Ok_0.2 <= b.len(),
        u16_bytes(spec_counted_methods(b, pos)->Ok_0.0) + methods_bytes(
            spec_counted_methods(b, pos)->Ok_0.1,
        ) == b.subrange(pos, spec_counted_methods(b, pos)->Ok_0.2),
{
    let (count, items, end) = spec_counted_methods(b, pos)->Ok_0;
    lemma_u16_bytes(b, pos);
    lemma_methods_bytes(b, pos + 2, count as nat);
    lemma_join(b, pos, pos + 2, end);
}

/// A class file that was decoded has the bytes it was decoded from: the
/// decoder reads every byte, and what it makes of them says what they were.
pub proof fn lemma_classfile_bytes(b: Seq<u8>)
    requires
        spec_classfile(b) is Ok,
    ensures
        classfile_bytes(spec_classfile(b)->Ok_0) == b,
{
    let c = spec_classfile(b)->Ok_0;
    let (constpool_count, constpool, at_class) = spec_counted_pool(b, 8)->Ok_0;
    let (interfaces_count, interfaces, at_fields) = spec_counted_u16s(b, at_class + 6)->Ok_0;
    let (fields_count, fields, at_methods) = spec_counted_fields(b, at_fields)->Ok_0;
    let (methods_count, methods, at_attributes) = spec_counted_methods(b, at_methods)->Ok_0;
    let (attributes_count, attributes, end) = spec_counted_attributes(b, at_attributes)->Ok_0;
    assert(10 <= at_class <= b.len() && head_bytes(c) == b.subrange(0, at_class)) by {
        lemma_u32_bytes(b, 0);
        lemma_u16_bytes(b, 4);
        lemma_u16_bytes(b, 6);
        lemma_u16_bytes(b, 8);
        lemma_pool_bytes(b, 10, (constpool_count - 1) as nat);
        lemma_join(b, 0, 4, 6);
        lemma_join(b, 0, 6, 8);
        lemma_join(b, 0, 8, 10);
        lemma_join(b, 0, 10, at_class);
    }
    assert(at_class + 8 <= at_fields <= b.len() && class_bytes(c) == b.subrange(
        at_class,
        at_fields,
    )) by {
        lemma_u16_bytes(b, at_class);
        lemma_u16_bytes(b, at_class + 2);
        lemma_u16_bytes(b, at_class + 4);
        lemma_u16_bytes(b, at_class + 6);
        lemma_u16s_bytes(b, at_class + 8, interfaces_count as nat);
        lemma_join(b, at_class, at_class + 2, at_class + 4);
        lemma_join(b, at_class, at_class + 4, at_class + 6);
        lemma_join(b, at_class, at_class + 6, at_class + 8);
        lemma_join(b, at_class, at_class + 8, at_fields);
    }
    assert(at_fields <= end <= b.len() && tables_bytes(c) == b.subrange(at_fields, end)) by {
        lemma_counted_fields_bytes(b, at_fields);
        lemma_counted_methods_bytes(b, at_methods);
        lemma_counted_attributes_bytes(b, at_attributes);
        lemma_join(b, at_fields, at_methods, at_attributes);
        lemma_join(b, at_fields, at_attributes, end);
        assert(tables_bytes(c) =~= (u16_bytes(fields_count) + fields_bytes(fields)) + (u16_bytes(
            methods_count,
        ) + methods_bytes(methods)) + (u16_bytes(attributes_count) + attributes_bytes(
            attributes,
        )));
    }
    lemma_join(b, 0, at_class, at_fields);
    lemma_join(b, 0, at_fields, end);
    assert(b.subrange(0, b.len() as int) =~= b);
}

/// Whether the bytes `x` stand in `b` at `pos`.
pub open spec fn stands_at(b: Seq<u8>, pos: int, x: Seq<u8>) -> bool {
    0 <= pos && pos + x.len() <= b.len() && b.subrange(pos, pos + x.len()) == x
}

/// Where `x` and `y` stand one behind the other, each of them stands.
pub proof fn lemma_stands_apart(b: Seq<u8>, pos: int, x: Seq<u8>, y: Seq<u8>)
    requires
        stands_at(b, pos, x + y),
    ensures
        stands_at(b, pos, x),
        stands_at(b, pos + x.len(), y),
{
    let both = b.subrange(pos, pos + (x + y).len());
    assert(b.subrange(pos, pos + x.len()) =~= both.subrange(0, x.len() as int));
    assert(both.subrange(0, x.len() as int) =~= x);
    assert(b.subrange(pos + x.len(), pos + x.len() + y.len()) =~= both.subrange(
        x.len() as int,
        both.len() as int,
    ));
    assert(both.subrange(x.len() as int, both.len() as int) =~= y);
}

/// Where the bytes of `v` stand, `v` is what they spell.
pub proof fn lemma_spelt_u16(b: Seq<u8>, pos: int, v: u16)
    requires
        stands_at(b, pos, u16_bytes(v)),
    ensures
        has_bytes(b, pos, 2),
        be16(b, pos) == v,
{
    let part = b.subrange(pos, pos + 2);
    assert(part[0] == b[pos] && part[1] == b[pos + 1]);
}

/// Where the bytes of `v` stand, `v` is what they spell.
pub proof fn lemma_spelt_u32(b: Seq<u8>, pos: int, v: u32)
    requires
        stands_at(b, pos, u32_bytes(v)),
    ensures
        has_bytes(b, pos, 4),
        be32(b, pos) == v,
{
    let part = b.subrange(pos, pos + 4);
    assert(part[0] == b[pos] && part[1] == b[pos + 1] && part[2] == b[pos + 2] && part[3] == b[pos
        + 3]);
}

/// The bytes of a well-formed attribute are decoded to the attribute.
pub proof fn lemma_decode_attribute(b: Seq<u8>, pos: int, a: AttributeInfoView)
    requires
        a.wf(),
        stands_at(b, pos, attribute_bytes(a)),
    ensures
        spec_attribute(b, pos) == Ok::<(AttributeInfoView, int), BaliError>(
            (a, pos + attribute_bytes(a).len()),
        ),
{
    let head = u16_bytes(a.attribute_name_index) + u32_bytes(a.attribute_length);
    lemma_stands_apart(b, pos, head, a.info);
    lemma_stands_apart(b, pos, u16_bytes(a.attribute_name_index), u32_bytes(a.attribute_length));
    lemma_spelt_u16(b, pos, a.attribute_name_index);
    lemma_spelt_u32(b, pos + 2, a.attribute_length);
}

/// The bytes of well-formed attributes are decoded to the attributes.
pub proof fn lemma_decode_attributes(b: Seq<u8>, pos: int, attributes: Seq<AttributeInfoView>)
    requires
        forall|i: int| 0 <= i < attributes.len() ==> (#[trigger] attributes[i]).wf(),
        stands_at(b, pos, attributes_bytes(attributes)),
    ensures
        spec_attributes(b, pos, attributes.len()) == Ok::<(Seq<AttributeInfoView>, int), BaliError>(
            (attributes, pos + attributes_bytes(attributes).len()),
        ),
    decreases attributes.len(),
{
    if attributes.len() > 0 {
        let first = attributes[0];
        let rest = attributes.drop_first();
        lemma_stands_apart(b, pos, attribute_bytes(first), attributes_bytes(rest));
        lemma_decode_attribute(b, pos, first);
        assert forall|i: int| 0 <= i < rest.len() implies (#[trigger] rest[i]).wf() by {
            assert(rest[i] == attributes[i + 1]);
        }
        lemma_decode_attributes(b, pos + attribute_bytes(first).len(), rest);
        assert(seq![first] + rest =~= attributes);
    } else {
        assert(attributes =~= Seq::<AttributeInfoView>::empty());
    }
}

/// The bytes of an entry of an exception table are decoded to the entry.
pub proof fn lemma_decode_exception(b: Seq<u8>, pos: int, e: ExceptionTableEntry)
    requires
        stands_at(b, pos, exception_bytes(e)),
    ensures
        spec_exception(b, pos) == Ok::<(ExceptionTableEntry, int), BaliError>((e, pos + 8)),
{
    let three = u16_bytes(e.start_pc) + u16_bytes(e.end_pc) + u16_bytes(e.handler_pc);
    let two = u16_bytes(e.start_pc) + u16_bytes(e.end_pc);
    lemma_stands_apart(b, pos, three, u16_bytes(e.catch_type));
    lemma_stands_apart(b, pos, two, u16_bytes(e.handler_pc));
    lemma_stands_apart(b, pos, u16_bytes(e.start_pc), u16_bytes(e.end_pc));
    lemma_spelt_u16(b, pos, e.start_pc);
    lemma_spelt_u16(b, pos + 2, e.end_pc);
    lemma_spelt_u16(b, pos + 4, e.handler_pc);
    lemma_spelt_u16(b, pos + 6, e.catch_type);
}

/// The bytes of the entries of an exception table are decoded to the entries.
pub proof fn lemma_decode_exceptions(b: Seq<u8>, pos: int, entries: Seq<ExceptionTableEntry>)
    requires
        stands_at(b, pos, exceptions_bytes(entries)),
    ensures
        spec_exceptions(b, pos, entries.len()) == Ok::<(Seq<ExceptionTableEntry>, int), BaliError>(
            (entries, pos + exceptions_bytes(entries).len()),
        ),
    decreases entries.len(),
{
    if entries.len() > 0 {
        let first = entries[0];
        let rest = entries.drop_first();
        lemma_stands_apart(b, pos, exception_bytes(first), exceptions_bytes(rest));
        lemma_decode_exception(b, pos, first);
        lemma_decode_exceptions(b, pos + 8, rest);
        assert(seq![first] + rest =~= entries);
    } else {
        assert(entries =~= Seq::<ExceptionTableEntry>::empty());
    }
}

/// The bytes of 16-bit numbers are decoded to the numbers.
pub proof fn lemma_decode_u16s(b: Seq<u8>, pos: int, items: Seq<u16>)
    requires
        stands_at(b, pos, u16s_bytes(items)),
    ensures
        spec_u16s(b, pos, items.len()) == Ok::<(Seq<u16>, int), BaliError>(
            (items, pos + u16s_bytes(items).len()),
        ),
    decreases items.len(),
{
    if items.len() > 0 {
        let first = items[0];
        let rest = items.drop_first();
        lemma_stands_apart(b, pos, u16_bytes(first), u16s_bytes(rest));
        lemma_spelt_u16(b, pos, first);
        lemma_decode_u16s(b, pos + 2, rest);
        assert(seq![first] + rest =~= items);
    } else {
        assert(items =~= Seq::<u16>::empty());
    }
}

/// The bytes of the two tables of a code attribute, each behind its count,
/// are decoded to the tables.
proof fn lemma_decode_code_tables(b: Seq<u8>, pos: int, c: CodeAttributeView)
    requires
        c.wf(),
        stands_at(b, pos, code_tables_bytes(c)),
    ensures
        has_bytes(b, pos, 2),
        be16(b, pos) == c.exception_table_length,
        spec_exceptions(b, pos + 2, c.exception_table.len()) == Ok::<
            (Seq<ExceptionTableEntry>, int),
            BaliError,
        >((c.exception_table, pos + 2 + exceptions_bytes(c.exception_table).len())),
        has_bytes(b, pos + 2 + exceptions_bytes(c.exception_table).len(), 2),
        be16(b, pos + 2 + exceptions_bytes(c.exception_table).len()) == c.attributes_count,
        spec_attributes(
            b,
            pos + 4 + exceptions_bytes(c.exception_table).len(),
            c.attributes.len(),
        ) == Ok::<(Seq<AttributeInfoView>, int), BaliError>(
            (c.attributes, pos + code_tables_bytes(c).len()),
        ),
{
    let p1 = u16_bytes(c.exception_table_length);
    let p2 = p1 + exceptions_bytes(c.exception_table);
    let p3 = p2 + u16_bytes(c.attributes_count);
    lemma_stands_apart(b, pos, p3, attributes_bytes(c.attributes));
    lemma_stands_apart(b, pos, p2, u16_bytes(c.attributes_count));
    lemma_stands_apart(b, pos, p1, exceptions_bytes(c.exception_table));
    lemma_spelt_u16(b, pos, c.exception_table_length);
    lemma_decode_exceptions(b, pos + 2, c.exception_table);
    lemma_spelt_u16(b, pos + p2.len(), c.attributes_count);
    lemma_decode_attributes(b, pos + p3.len(), c.attributes);
}

/// The bytes of the limits and of the bytecode of a code attribute are
/// decoded to them.
proof fn lemma_decode_code_head(b: Seq<u8>, c: CodeAttributeView)
    requires
        c.code.len() == c.code_length,
        stands_at(b, 0, code_head_bytes(c)),
    ensures
        has_bytes(b, 0, 8),
        be16(b, 0) == c.max_stack,
        be16(b, 2) == c.max_locals,
        be32(b, 4) == c.code_length,
        code_head_bytes(c).len() == 8 + c.code_length,
        has_bytes(b, 8, c.code_length as int),
        b.subrange(8, 8 + c.code_length) == c.code,
{
    let p1 = u16_bytes(c.max_stack);
    let p2 = p1 + u16_bytes(c.max_locals);
    let p3 = p2 + u32_bytes(c.code_length);
    lemma_stands_apart(b, 0, p3, c.code);
    lemma_stands_apart(b, 0, p2, u32_bytes(c.code_length));
    lemma_stands_apart(b, 0, p1, u16_bytes(c.max_locals));
    lemma_spelt_u16(b, 0, c.max_stack);
    lemma_spelt_u16(b, 2, c.max_locals);
    lemma_spelt_u32(b, 4, c.code_length);
}

/// The bytes of a well-formed code attribute are decoded to the attribute.
pub proof fn lemma_decode_code_attribute(c: CodeAttributeView)
    requires
        c.wf(),
    ensures
        spec_code_attribute(code_attribute_bytes(c)) == Ok::<CodeAttributeView, BaliError>(c),
{
    let b = code_attribute_bytes(c);
    assert(b.subrange(0, b.len() as int) =~= b);
    lemma_stands_apart(b, 0, code_head_bytes(c), code_tables_bytes(c));
    lemma_decode_code_head(b, c);
    lemma_decode_code_tables(b, code_head_bytes(c).len() as int, c);
}

/// The bytes of a well-formed constant-pool entry, other than the unusable
/// one, are decoded to the entry.
pub proof fn lemma_decode_pool_entry(b: Seq<u8>, pos: int, e: ConstPoolInfoView)
    requires
        e.wf(),
        e !is ConstUnusable,
        stands_at(b, pos, pool_entry_bytes(e)),
    ensures
        spec_pool_entry(b, pos) == Ok::<(ConstPoolInfoView, int), BaliError>(
            (e, pos + pool_entry_bytes(e).len()),
        ),
{
    let all = pool_entry_bytes(e);
    assert(b.subrange(pos, pos + all.len())[0] == b[pos]);
    match e {
        ConstPoolInfoView::ConstClass { name_index } => {
            lemma_stands_apart(b, pos, seq![7u8], u16_bytes(name_index));
            lemma_spelt_u16(b, pos + 1, name_index);
        },
        ConstPoolInfoView::ConstString { string_index } => {
            lemma_stands_apart(b, pos, seq![8u8], u16_bytes(string_index));
            lemma_spelt_u16(b, pos + 1, string_index);
        },
        ConstPoolInfoView::ConstMethodType { descriptor_index } => {
            lemma_stands_apart(b, pos, seq![16u8], u16_bytes(descriptor_index));
            lemma_spelt_u16(b, pos + 1, descriptor_index);
        },
        ConstPoolInfoView::ConstFieldRef { class_index, name_and_type_index } => {
            lemma_stands_apart(
                b,
                pos,
                seq![9u8] + u16_bytes(class_index),
                u16_bytes(name_and_type_index),
            );
            lemma_stands_apart(b, pos, seq![9u8], u16_bytes(class_index));
            lemma_spelt_u16(b, pos + 1, class_index);
            lemma_spelt_u16(b, pos + 3, name_and_type_index);
        },
        ConstPoolInfoView::ConstMethodRef { class_index, name_and_type_index } => {
            lemma_stands_apart(
                b,
                pos,
                seq![10u8] + u16_bytes(class_index),
                u16_bytes(name_and_type_index),
            );
            lemma_stands_apart(b, pos, seq![10u8], u16_bytes(class_index));
            lemma_spelt_u16(b, pos + 1, class_index);
            lemma_spelt_u16(b, pos + 3, name_and_type_index);
        },
        ConstPoolInfoView::ConstInterfaceMethodRef { class_index, name_and_type_index } => {
            lemma_stands_apart(
                b,
                pos,
                seq![11u8] + u16_bytes(class_index),
                u16_bytes(name_and_type_index),
            );
            lemma_stands_apart(b, pos, seq![11u8], u16_bytes(class_index));
            lemma_spelt_u16(b, pos + 1, class_index);
            lemma_spelt_u16(b, pos + 3, name_and_type_index);
        },
        ConstPoolInfoView::ConstNameAndType { name_index, descriptor_index } => {
            lemma_stands_apart(
                b,
                pos,
                seq![12u8] + u16_bytes(name_index),
                u16_bytes(descriptor_index),
            );
            lemma_stands_apart(b, pos, seq![12u8], u16_bytes(name_index));
            lemma_spelt_u16(b, pos + 1, name_index);
            lemma_spelt_u16(b, pos + 3, descriptor_index);
        },
        ConstPoolInfoView::ConstInvokeDynamic {
            bootstrap_method_attr_index,
            name_and_type_index,
        } => {
            lemma_stands_apart(
                b,
                pos,
                seq![18u8] + u16_bytes(bootstrap_method_attr_index),
                u16_bytes(name_and_type_index),
            );
            lemma_stands_apart(b, pos, seq![18u8], u16_bytes(bootstrap_method_attr_index));
            lemma_spelt_u16(b, pos + 1, bootstrap_method_attr_index);
            lemma_spelt_u16(b, pos + 3, name_and_type_index);
        },
        ConstPoolInfoView::ConstInt { bytes } => {
            lemma_stands_apart(b, pos, seq![3u8], u32_bytes(bytes));
            lemma_spelt_u32(b, pos + 1, bytes);
        },
        ConstPoolInfoView::ConstFloat { bytes } => {
            lemma_stands_apart(b, pos, seq![4u8], u32_bytes(bytes));
            lemma_spelt_u32(b, pos + 1, bytes);
        },
        ConstPoolInfoView::ConstLong { high_bytes, low_bytes } => {
            lemma_stands_apart(b, pos, seq![5u8] + u32_bytes(high_bytes), u32_bytes(low_bytes));
            lemma_stands_apart(b, pos, seq![5u8], u32_bytes(high_bytes));
            lemma_spelt_u32(b, pos + 1, high_bytes);
            lemma_spelt_u32(b, pos + 5, low_bytes);
        },
        ConstPoolInfoView::ConstDouble { high_bytes, low_bytes } => {
            lemma_stands_apart(b, pos, seq![6u8] + u32_bytes(high_bytes), u32_bytes(low_bytes));
            lemma_stands_apart(b, pos, seq![6u8], u32_bytes(high_bytes));
            lemma_spelt_u32(b, pos + 1, high_bytes);
            lemma_spelt_u32(b, pos + 5, low_bytes);
        },
        ConstPoolInfoView::ConstUTF8 { length, bytes } => {
            lemma_stands_apart(b, pos, seq![1u8] + u16_bytes(length), bytes);
            lemma_stands_apart(b, pos, seq![1u8], u16_bytes(length));
            lemma_spelt_u16(b, pos + 1, length);
        },
        ConstPoolInfoView::ConstMethodHandle { reference_kind, reference_index } => {
            lemma_stands_apart(b, pos, seq![15u8, reference_kind], u16_bytes(reference_index));
            assert(b.subrange(pos, pos + 2)[1] == b[pos + 1]);
            lemma_spelt_u16(b, pos + 2, reference_index);
        },
        ConstPoolInfoView::ConstUnusable => {},
    }
}

/// A well-formed pool is well formed still without its first entry, which
/// takes its unusable slot with it where it is a long or a double.
pub proof fn lemma_slots_wf_rest(constpool: Seq<ConstPoolInfoView>)
    requires
        slots_wf(constpool),
        constpool.len() > 0,
    ensures
        constpool[0].wf(),
        constpool[0] !is ConstUnusable,
        constpool[0].is_wide() ==> constpool.len() >= 2 && constpool[1] is ConstUnusable
            && slots_wf(constpool.skip(2)),
        !constpool[0].is_wide() ==> slots_wf(constpool.skip(1)),
{
    let k: int = if constpool[0].is_wide() {
        2
    } else {
        1
    };
    assert(constpool[0].wf());
    if constpool[0].is_wide() {
        assert(constpool[1] is ConstUnusable);
    }
    let rest = constpool.skip(k);
    assert forall|i: int| 0 <= i < rest.len() implies (#[trigger] rest[i]).wf() by {
        assert(rest[i] == constpool[i + k]);
    }
    assert forall|i: int| 0 <= i < rest.len() && (#[trigger] rest[i]).is_wide() implies i + 1
        < rest.len() && rest[i + 1] is ConstUnusable by {
        assert(rest[i] == constpool[i + k]);
        assert(constpool[i + k + 1] is ConstUnusable);
        assert(rest[i + 1] == constpool[i + k + 1]);
    }
    assert forall|i: int| 0 <= i < rest.len() && (#[trigger] rest[i]) is ConstUnusable implies i
        > 0 && rest[i - 1].is_wide() by {
        assert(rest[i] == constpool[i + k]);
        assert(constpool[i + k - 1].is_wide());
        if i > 0 {
            assert(rest[i - 1] == constpool[i + k - 1]);
        }
    }
}

/// The bytes of a pool are those of its first entry and of the entries
/// behind it; the unusable slot behind a long or a double adds none.
pub proof fn lemma_pool_bytes_rest(constpool: Seq<ConstPoolInfoView>)
    requires
        constpool.len() > 0,
    ensures
        pool_bytes(constpool) == pool_entry_bytes(constpool[0]) + pool_bytes(constpool.skip(1)),
        constpool.len() >= 2 && constpool[1] is ConstUnusable ==> pool_bytes(constpool)
            == pool_entry_bytes(constpool[0]) + pool_bytes(constpool.skip(2)),
{
    assert(constpool.drop_first() =~= constpool.skip(1));
    if constpool.len() >= 2 && constpool[1] is ConstUnusable {
        let rest = constpool.skip(1);
        assert(rest.drop_first() =~= constpool.skip(2));
        assert(rest[0] == constpool[1]);
        assert(pool_bytes(rest) == pool_entry_bytes(rest[0]) + pool_bytes(rest.drop_first()));
        assert(Seq::<u8>::empty() + pool_bytes(constpool.skip(2)) =~= pool_bytes(
            constpool.skip(2),
        ));
    }
}

/// The bytes of a well-formed constant pool are decoded to the pool.
pub proof fn lemma_decode_pool(b: Seq<u8>, pos: int, constpool: Seq<ConstPoolInfoView>)
    requires
        slots_wf(constpool),
        stands_at(b, pos, pool_bytes(constpool)),
    ensures
        spec_pool(b, pos, constpool.len()) == Ok::<(Seq<ConstPoolInfoView>, int), BaliError>(
            (constpool, pos + pool_bytes(constpool).len()),
        ),
    decreases constpool.len(),
{
    if constpool.len() > 0 {
        let first = constpool[0];
        lemma_slots_wf_rest(constpool);
        lemma_pool_bytes_rest(constpool);
        let next = pos + pool_entry_bytes(first).len();
        if first.is_wide() {
            let more = constpool.skip(2);
            lemma_stands_apart(b, pos, pool_entry_bytes(first), pool_bytes(more));
            lemma_decode_pool_entry(b, pos, first);
            lemma_decode_pool(b, next, more);
            assert(seq![first, ConstPoolInfoView::ConstUnusable] + more =~= constpool);
        } else {
            let rest = constpool.skip(1);
            lemma_stands_apart(b, pos, pool_entry_bytes(first), pool_bytes(rest));
            lemma_decode_pool_entry(b, pos, first);
            lemma_decode_pool(b, next, rest);
            assert(seq![first] + rest =~= constpool);
        }
    } else {
        assert(constpool =~= Seq::<ConstPoolInfoView>::empty());
    }
}

/// The bytes of a well-formed field are decoded to the field.
pub proof fn lemma_decode_field(b: Seq<u8>, pos: int, m: FieldInfoView)
    requires
        m.wf(),
        stands_at(b, pos, field_bytes(m)),
    ensures
        spec_field(b, pos) == Ok::<(FieldInfoView, int), BaliError>(
            (m, pos + field_bytes(m).len()),
        ),
{
    let p1 = u16_bytes(m.access_flags);
    let p2 = p1 + u16_bytes(m.name_index);
    let p3 = p2 + u16_bytes(m.descriptor_index);
    let p4 = p3 + u16_bytes(m.attributes_count);
    lemma_stands_apart(b, pos, p4, attributes_bytes(m.attributes));
    lemma_stands_apart(b, pos, p3, u16_bytes(m.attributes_count));
    lemma_stands_apart(b, pos, p2, u16_bytes(m.descriptor_index));
    lemma_stands_apart(b, pos, p1, u16_bytes(m.name_index));
    lemma_spelt_u16(b, pos, m.access_flags);
    lemma_spelt_u16(b, pos + 2, m.name_index);
    lemma_spelt_u16(b, pos + 4, m.descriptor_index);
    lemma_spelt_u16(b, pos + 6, m.attributes_count);
    lemma_decode_attributes(b, pos + 8, m.attributes);
}

/// The bytes of well-formed fields are decoded to the fields.
pub proof fn lemma_decode_fields(b: Seq<u8>, pos: int, items: Seq<FieldInfoView>)
    requires
        forall|i: int| 0 <= i < items.len() ==> (#[trigger] items[i]).wf(),
        stands_at(b, pos, fields_bytes(items)),
    ensures
        spec_fields(b, pos, items.len()) == Ok::<(Seq<FieldInfoView>, int), BaliError>(
            (items, pos + fields_bytes(items).len()),
        ),
    decreases items.len(),
{
    if items.len() > 0 {
        let first = items[0];
        let rest = items.drop_first();
        lemma_stands_apart(b, pos, field_bytes(first), fields_bytes(rest));
        lemma_decode_field(b, pos, first);
        assert forall|i: int| 0 <= i < rest.len() implies (#[trigger] rest[i]).wf() by {
            assert(rest[i] == items[i + 1]);
        }
        lemma_decode_fields(b, pos + field_bytes(first).len(), rest);
        assert(seq![first] + rest =~= items);
    } else {
        assert(items =~= Seq::<FieldInfoView>::empty());
    }
}

/// The bytes of a well-formed method are decoded to the method.
pub proof fn lemma_decode_method(b: Seq<u8>, pos: int, m: MethodInfoView)
    requires
        m.wf(),
        stands_at(b, pos, method_bytes(m)),
    ensures
        spec_method(b, pos) == Ok::<(MethodInfoView, int), BaliError>(
            (m, pos + method_bytes(m).len()),
        ),
{
    let p1 = u16_bytes(m.access_flags);
    let p2 = p1 + u16_bytes(m.name_index);
    let p3 = p2 + u16_bytes(m.descriptor_index);
    let p4 = p3 + u16_bytes(m.attributes_count);
    lemma_stands_apart(b, pos, p4, attributes_bytes(m.attributes));
    lemma_stands_apart(b, pos, p3, u16_bytes(m.attributes_count));
    lemma_stands_apart(b, pos, p2, u16_bytes(m.descriptor_index));
    lemma_stands_apart(b, pos, p1, u16_bytes(m.name_index));
    lemma_spelt_u16(b, pos, m.access_flags);
    lemma_spelt_u16(b, pos + 2, m.name_index);
    lemma_spelt_u16(b, pos + 4, m.descriptor_index);
    lemma_spelt_u16(b, pos + 6, m.attributes_count);
    lemma_decode_attributes(b, pos + 8, m.attributes);
}

/// The bytes of well-formed methods are decoded to the methods.
pub proof fn lemma_decode_methods(b: Seq<u8>, pos: int, items: Seq<MethodInfoView>)
    requires
        forall|i: int| 0 <= i < items.len() ==> (#[trigger] items[i]).wf(),
        stands_at(b, pos, methods_bytes(items)),
    ensures
        spec_methods(b, pos, items.len()) == Ok::<(Seq<MethodInfoView>, int), BaliError>(
            (items, pos + methods_bytes(items).len()),
        ),
    decreases items.len(),
{
    if items.len() > 0 {
        let first = items[0];
        let rest = items.drop_first();
        lemma_stands_apart(b, pos, method_bytes(first), methods_bytes(rest));
        lemma_decode_method(b, pos, first);
        assert forall|i: int| 0 <= i < rest.len() implies (#[trigger] rest[i]).wf() by {
            assert(rest[i] == items[i + 1]);
        }
        lemma_decode_methods(b, pos + method_bytes(first).len(), rest);
        assert(seq![first] + rest =~= items);
    } else {
        assert(items =~= Seq::<MethodInfoView>::empty());
    }
}

/// The head of a well-formed class file is decoded to its constant pool.
proof fn lemma_decode_head(b: Seq<u8>, c: ClassFileView)
    requires
        c.pool_wf(),
        stands_at(b, 0, head_bytes(c)),
    ensures
        has_bytes(b, 0, 10),
        be32(b, 0) == c.magic,
        be16(b, 4) == c.minor_version,
        be16(b, 6) == c.major_version,
        spec_counted_pool(b, 8) == Ok::<(u16, Seq<ConstPoolInfoView>, int), BaliError>(
            (c.constpool_count, c.constpool, head_bytes(c).len() as int),
        ),
{
    let p1 = u32_bytes(c.magic);
    let p2 = p1 + u16_bytes(c.minor_version);
    let p3 = p2 + u16_bytes(c.major_version);
    let p4 = p3 + u16_bytes(c.constpool_count);
    lemma_stands_apart(b, 0, p4, pool_bytes(c.constpool));
    lemma_stands_apart(b, 0, p3, u16_bytes(c.constpool_count));
    lemma_stands_apart(b, 0, p2, u16_bytes(c.major_version));
    lemma_stands_apart(b, 0, p1, u16_bytes(c.minor_version));
    lemma_spelt_u32(b, 0, c.magic);
    lemma_spelt_u16(b, 4, c.minor_version);
    lemma_spelt_u16(b, 6, c.major_version);
    lemma_spelt_u16(b, 8, c.constpool_count);
    lemma_decode_pool(b, 10, c.constpool);
}

/// The middle of a well-formed class file is decoded to its interfaces.
proof fn lemma_decode_class(b: Seq<u8>, pos: int, c: ClassFileView)
    requires
        c.interfaces.len() == c.interfaces_count,
        stands_at(b, pos, class_bytes(c)),
    ensures
        has_bytes(b, pos, 6),
        be16(b, pos) == c.access_flags,
        be16(b, pos + 2) == c.this_class,
        be16(b, pos + 4) == c.super_class,
        spec_counted_u16s(b, pos + 6) == Ok::<(u16, Seq<u16>, int), BaliError>(
            (c.interfaces_count, c.interfaces, pos + class_bytes(c).len()),
        ),
{
    let p1 = u16_bytes(c.access_flags);
    let p2 = p1 + u16_bytes(c.this_class);
    let p3 = p2 + u16_bytes(c.super_class);
    let p4 = p3 + u16_bytes(c.interfaces_count);
    lemma_stands_apart(b, pos, p4, u16s_bytes(c.interfaces));
    lemma_stands_apart(b, pos, p3, u16_bytes(c.interfaces_count));
    lemma_stands_apart(b, pos, p2, u16_bytes(c.super_class));
    lemma_stands_apart(b, pos, p1, u16_bytes(c.this_class));
    lemma_spelt_u16(b, pos, c.access_flags);
    lemma_spelt_u16(b, pos + 2, c.this_class);
    lemma_spelt_u16(b, pos + 4, c.super_class);
    lemma_spelt_u16(b, pos + 6, c.interfaces_count);
    lemma_decode_u16s(b, pos + 8, c.interfaces);
}

/// The tables at the end of a well-formed class file are decoded to the
/// fields, the methods and the attributes.
proof fn lemma_decode_tables(b: Seq<u8>, pos: int, c: ClassFileView)
    requires
        c.wf(),
        stands_at(b, pos, tables_bytes(c)),
    ensures
        spec_counted_fields(b, pos) == Ok::<(u16, Seq<FieldInfoView>, int), BaliError>(
            (c.fields_count, c.fields, pos + 2 + fields_bytes(c.fields).len()),
        ),
        spec_counted_methods(b, pos + 2 + fields_bytes(c.fields).len()) == Ok::<
            (u16, Seq<MethodInfoView>, int),
            BaliError,
        >(
            (
                c.methods_count,
                c.methods,
                pos + 4 + fields_bytes(c.fields).len() + methods_bytes(c.methods).len(),
            ),
        ),
        spec_counted_attributes(
            b,
            pos + 4 + fields_bytes(c.fields).len() + methods_bytes(c.methods).len(),
        ) == Ok::<(u16, Seq<AttributeInfoView>, int), BaliError>(
            (c.attributes_count, c.attributes, pos + tables_bytes(c).len()),
        ),
{
    let p1 = u16_bytes(c.fields_count);
    let p2 = p1 + fields_bytes(c.fields);
    let p3 = p2 + u16_bytes(c.methods_count);
    let p4 = p3 + methods_bytes(c.methods);
    let p5 = p4 + u16_bytes(c.attributes_count);
    lemma_stands_apart(b, pos, p5, attributes_bytes(c.attributes));
    lemma_stands_apart(b, pos, p4, u16_bytes(c.attributes_count));
    lemma_stands_apart(b, pos, p3, methods_bytes(c.methods));
    lemma_stands_apart(b, pos, p2, u16_bytes(c.methods_count));
    lemma_stands_apart(b, pos, p1, fields_bytes(c.fields));
    lemma_spelt_u16(b, pos, c.fields_count);
    lemma_decode_fields(b, pos + 2, c.fields);
    lemma_spelt_u16(b, pos + p2.len(), c.methods_count);
    lemma_decode_methods(b, pos + p3.len(), c.methods);
    lemma_spelt_u16(b, pos + p4.len(), c.attributes_count);
    lemma_decode_attributes(b, pos + p5.len(), c.attributes);
}

/// A stream whose parts are decoded to the parts of `c`, one behind the
/// other and up to its end, is decoded to `c`.
proof fn lemma_decode_parts(
    b: Seq<u8>,
    c: ClassFileView,
    at_class: int,
    at_fields: int,
    at_methods: int,
    at_attributes: int,
)
    requires
        has_bytes(b, 0, 10),
        be32(b, 0) == c.magic,
        be16(b, 4) == c.minor_version,
        be16(b, 6) == c.major_version,
        spec_counted_pool(b, 8) == Ok::<(u16, Seq<ConstPoolInfoView>, int), BaliError>(
            (c.constpool_count, c.constpool, at_class),
        ),
        has_bytes(b, at_class, 6),
        be16(b, at_class) == c.access_flags,
        be16(b, at_class + 2) == c.this_class,
        be16(b, at_class + 4) == c.super_class,
        spec_counted_u16s(b, at_class + 6) == Ok::<(u16, Seq<u16>, int), BaliError>(
            (c.interfaces_count, c.interfaces, at_fields),
        ),
        spec_counted_fields(b, at_fields) == Ok::<(u16, Seq<FieldInfoView>, int), BaliError>(
            (c.fields_count, c.fields, at_methods),
        ),
        spec_counted_methods(b, at_methods) == Ok::<(u16, Seq<MethodInfoView>, int), BaliError>(
            (c.methods_count, c.methods, at_attributes),
        ),
        spec_counted_attributes(b, at_attributes) == Ok::<
            (u16, Seq<AttributeInfoView>, int),
            BaliError,
        >((c.attributes_count, c.attributes, b.len() as int)),
    ensures
        spec_classfile(b) == Ok::<ClassFileView, BaliError>(c),
{
}

/// The bytes of a well-formed class file are decoded to the class file: the
/// decoder accepts what the format says a class file is, and makes of it
/// what it was written from.
pub proof fn lemma_decode_classfile(c: ClassFileView)
    requires
        c.wf(),
    ensures
        spec_classfile(classfile_bytes(c)) == Ok::<ClassFileView, BaliError>(c),
{
    let b = classfile_bytes(c);
    let at_class = head_bytes(c).len() as int;
    let at_fields = at_class + class_bytes(c).len();
    let at_methods = at_fields + 2 + fields_bytes(c.fields).len();
    let at_attributes = at_methods + 2 + methods_bytes(c.methods).len();
    assert(stands_at(b, 0, head_bytes(c)) && stands_at(b, at_class, class_bytes(c)) && stands_at(
        b,
        at_fields,
        tables_bytes(c),
    ) && at_fields + tables_bytes(c).len() == b.len()) by {
        assert(b.subrange(0, b.len() as int) =~= b);
        lemma_stands_apart(b, 0, head_bytes(c) + class_bytes(c), tables_bytes(c));
        lemma_stands_apart(b, 0, head_bytes(c), class_bytes(c));
    }
    lemma_decode_head(b, c);
    lemma_decode_class(b, at_class, c);
    lemma_decode_tables(b, at_fields, c);
    lemma_decode_parts(b, c, at_class, at_fields, at_methods, at_attributes);
}

/// An attribute that was decoded is well formed.
pub proof fn lemma_attribute_wf(b: Seq<u8>, pos: int)
    requires
        spec_attribute(b, pos) is Ok,
    ensures
        spec_attribute(b, pos)->Ok_0.0.wf(),
{
}

/// Attributes that were decoded are well formed.
pub proof fn lemma_attributes_wf(b: Seq<u8>, pos: int, n: nat)
    requires
        spec_attributes(b, pos, n) is Ok,
    ensures
        spec_attributes(b, pos, n)->Ok_0.0.len() == n,
        attributes_wf(spec_attributes(b, pos, n)->Ok_0.0),
    decreases n,
{
    if n > 0 {
        let (first, next) = spec_attribute(b, pos)->Ok_0;
        lemma_attribute_wf(b, pos);
        lemma_attributes_wf(b, next, (n - 1) as nat);
        let rest = spec_attributes(b, next, (n - 1) as nat)->Ok_0.0;
        let items = spec_attributes(b, pos, n)->Ok_0.0;
        assert(items == seq![first] + rest);
        assert forall|i: int| 0 <= i < items.len() implies (#[trigger] items[i]).wf() by {
            if i > 0 {
                assert(items[i] == rest[i - 1]);
            }
        }
    }
}

/// A field that was decoded is well formed.
pub proof fn lemma_field_wf(b: Seq<u8>, pos: int)
    requires
        spec_field(b, pos) is Ok,
    ensures
        spec_field(b, pos)->Ok_0.0.wf(),
{
    lemma_attributes_wf(b, pos + 8, be16(b, pos + 6) as nat);
}

/// A method that was decoded is well formed.
pub proof fn lemma_method_wf(b: Seq<u8>, pos: int)
    requires
        spec_method(b, pos) is Ok,
    ensures
        spec_method(b, pos)->Ok_0.0.wf(),
{
    lemma_attributes_wf(b, pos + 8, be16(b, pos + 6) as nat);
}

/// Fields that were decoded are well formed.
pub proof fn lemma_fields_wf(b: Seq<u8>, pos: int, n: nat)
    requires
        spec_fields(b, pos, n) is Ok,
    ensures
        spec_fields(b, pos, n)->Ok_0.0.len() == n,
        fields_wf(spec_fields(b, pos, n)->Ok_0.0),
    decreases n,
{
    if n > 0 {
        let (first, next) = spec_field(b, pos)->Ok_0;
        lemma_field_wf(b, pos);
        lemma_fields_wf(b, next, (n - 1) as nat);
        let rest = spec_fields(b, next, (n - 1) as nat)->Ok_0.0;
        let items = spec_fields(b, pos, n)->Ok_0.0;
        assert(items == seq![first] + rest);
        assert forall|i: int| 0 <= i < items.len() implies (#[trigger] items[i]).wf() by {
            if i > 0 {
                assert(items[i] == rest[i - 1]);
            }
        }
    }
}

/// Methods that were decoded are well formed.
pub proof fn lemma_methods_wf(b: Seq<u8>, pos: int, n: nat)
    requires
        spec_methods(b, pos, n) is Ok,
    ensures
        spec_methods(b, pos, n)->Ok_0.0.len() == n,
        methods_wf(spec_methods(b, pos, n)->Ok_0.0),
    decreases n,
{
    if n > 0 {
        let (first, next) = spec_method(b, pos)->Ok_0;
        lemma_method_wf(b, pos);
        lemma_methods_wf(b, next, (n - 1) as nat);
        let rest = spec_methods(b, next, (n - 1) as nat)->Ok_0.0;
        let items = spec_methods(b, pos, n)->Ok_0.0;
        assert(items == seq![first] + rest);
        assert forall|i: int| 0 <= i < items.len() implies (#[trigger] items[i]).wf() by {
            if i > 0 {
                assert(items[i] == rest[i - 1]);
            }
        }
    }
}

/// A well-formed pool is well formed still with an entry in front of it,
/// which brings its unusable slot with it where it is a long or a double.
pub proof fn lemma_slots_wf_first(first: ConstPoolInfoView, rest: Seq<ConstPoolInfoView>)
    requires
        first.wf(),
        first !is ConstUnusable,
        slots_wf(rest),
    ensures
        first.is_wide() ==> slots_wf(seq![first, ConstPoolInfoView::ConstUnusable] + rest),
        !first.is_wide() ==> slots_wf(seq![first] + rest),
{
    let k: int = if first.is_wide() {
        2
    } else {
        1
    };
    let all = if first.is_wide() {
        seq![first, ConstPoolInfoView::ConstUnusable] + rest
    } else {
        seq![first] + rest
    };
    assert forall|i: int| 0 <= i < all.len() implies (#[trigger] all[i]).wf() by {
        if i >= k {
            assert(all[i] == rest[i - k]);
        }
    }
    assert forall|i: int| 0 <= i < all.len() && (#[trigger] all[i]).is_wide() implies i + 1
        < all.len() && all[i + 1] is ConstUnusable by {
        if i >= k {
            assert(all[i] == rest[i - k]);
            assert(rest[i - k + 1] is ConstUnusable);
            assert(all[i + 1] == rest[i - k + 1]);
        }
    }
    assert forall|i: int| 0 <= i < all.len() && (#[trigger] all[i]) is ConstUnusable implies i > 0
        && all[i - 1].is_wide() by {
        if i >= k {
            assert(all[i] == rest[i - k]);
            assert(i - k > 0 && rest[i - k - 1].is_wide());
            assert(all[i - 1] == rest[i - k - 1]);
        }
    }
}

/// A constant pool that was decoded is well formed.
pub proof fn lemma_pool_wf(b: Seq<u8>, pos: int, slots: nat)
    requires
        0 <= pos,
        spec_pool(b, pos, slots) is Ok,
    ensures
        spec_pool(b, pos, slots)->Ok_0.0.len() == slots,
        slots_wf(spec_pool(b, pos, slots)->Ok_0.0),
    decreases slots,
{
    if slots > 0 {
        let (first, next) = spec_pool_entry(b, pos)->Ok_0;
        lemma_pool_entry_bytes(b, pos);
        let used: nat = if first.is_wide() {
            2
        } else {
            1
        };
        lemma_pool_wf(b, next, (slots - used) as nat);
        lemma_slots_wf_first(first, spec_pool(b, next, (slots - used) as nat)->Ok_0.0);
    }
}

/// A code attribute that was decoded is well formed.
pub proof fn lemma_code_attribute_wf(b: Seq<u8>)
    requires
        spec_code_attribute(b) is Ok,
    ensures
        spec_code_attribute(b)->Ok_0.wf(),
{
    let code_end = 8 + be32(b, 4);
    lemma_exceptions_bytes(b, code_end + 2, be16(b, code_end) as nat);
    let table_end = spec_exceptions(b, code_end + 2, be16(b, code_end) as nat)->Ok_0.1;
    lemma_attributes_wf(b, table_end + 2, be16(b, table_end) as nat);
}

/// A class file that was decoded is well formed.
pub proof fn lemma_classfile_wf(b: Seq<u8>)
    requires
        spec_classfile(b) is Ok,
    ensures
        spec_classfile(b)->Ok_0.wf(),
{
    let (constpool_count, constpool, at_class) = spec_counted_pool(b, 8)->Ok_0;
    let (interfaces_count, interfaces, at_fields) = spec_counted_u16s(b, at_class + 6)->Ok_0;
    let (fields_count, fields, at_methods) = spec_counted_fields(b, at_fields)->Ok_0;
    let (methods_count, methods, at_attributes) = spec_counted_methods(b, at_methods)->Ok_0;
    lemma_pool_wf(b, 10, (constpool_count - 1) as nat);
    lemma_pool_bytes(b, 10, (constpool_count - 1) as nat);
    lemma_u16s_bytes(b, at_class + 8, interfaces_count as nat);
    lemma_fields_wf(b, at_fields + 2, fields_count as nat);
    lemma_methods_wf(b, at_methods + 2, methods_count as nat);
    lemma_attributes_wf(b, at_attributes + 2, be16(b, at_attributes) as nat);
}

/// The decoder accepts exactly the bytes of the well-formed class files.
pub proof fn lemma_decoder_accepts_the_format(b: Seq<u8>)
    ensures
        spec_classfile(b) is Ok <==> exists|c: ClassFileView|
            c.wf() && #[trigger] classfile_bytes(c) == b,
{
    if spec_classfile(b) is Ok {
        let c = spec_classfile(b)->Ok_0;
        lemma_classfile_wf(b);
        lemma_classfile_bytes(b);
        assert(c.wf() && classfile_bytes(c) == b);
    }
    if exists|c: ClassFileView| c.wf() && #[trigger] classfile_bytes(c) == b {
        let c = choose|c: ClassFileView| c.wf() && #[trigger] classfile_bytes(c) == b;
        lemma_decode_classfile(c);
    }
}

} // verus!
