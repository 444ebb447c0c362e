//! Decoding the class-file format.
//!
//! All numbers are big-endian. A table is preceded by the number of its
//! entries, and exactly that many are decoded. Each decoder is specified by a
//! function on the bytes that says what is decoded or, where the bytes are
//! not of the format, which error is reported and for which offset.

use crate::bytes::{
    be16, be32, has_bytes, read_bytes, read_u16, read_u32, read_u8, truncated_at,
};
use crate::encoding::{
    classfile_bytes, code_attribute_bytes, lemma_classfile_bytes, lemma_code_attribute_bytes,
    lemma_decode_classfile, lemma_decode_code_attribute,
};
use crate::error::{is_result, BaliError};
use crate::pool::utf8_text;
use crate::structs::{
    constant_views, field_views, method_views, slots_wf,
    attribute_views, attributes_wf, AttributeInfo, AttributeInfoView, ClassFile, ClassFileView,
    CodeAttribute, CodeAttributeView, ConstPoolInfo, ConstPoolInfoView, ExceptionTableEntry,
    FieldInfo, FieldInfoView, MethodInfo, MethodInfoView,
};
use vstd::prelude::*;
use vstd::utf8::valid_utf8;

verus! {

/// `prefix` put in front of the table that was decoded behind it.
pub open spec fn with_prefix<T>(prefix: Seq<T>, rest: Result<(Seq<T>, int), BaliError>) -> Result<
    (Seq<T>, int),
    BaliError,
> {
    match rest {
        Ok((items, end)) => Ok((prefix + items, end)),
        Err(e) => Err(e),
    }
}

/// The attribute that starts at `pos`, and where it ends.
pub open spec fn spec_attribute(b: Seq<u8>, pos: int) -> Result<
    (AttributeInfoView, int),
    BaliError,
> {
    if !has_bytes(b, pos, 2) {
        Err(truncated_at(pos))
    } else if !has_bytes(b, pos + 2, 4) {
        Err(truncated_at(pos + 2))
    } else if !has_bytes(b, pos + 6, be32(b, pos + 2)) {
        Err(truncated_at(pos + 6))
    } else {
        let end = pos + 6 + be32(b, pos + 2);
        Ok(
            (
                AttributeInfoView {
                    attribute_name_index: be16(b, pos) as u16,
                    attribute_length: be32(b, pos + 2) as u32,
                    info: b.subrange(pos + 6, end),
                },
                end,
            ),
        )
    }
}

/// The `n` attributes that start at `pos`, and where the last one ends.
pub open spec fn spec_attributes(b: Seq<u8>, pos: int, n: nat) -> Result<
    (Seq<AttributeInfoView>, int),
    BaliError,
>
    decreases n,
{
    if n == 0 {
        Ok((Seq::empty(), pos))
    } else {
        match spec_attribute(b, pos) {
            Ok((first, next)) => with_prefix(seq![first], spec_attributes(b, next, (n - 1) as nat)),
            Err(e) => Err(e),
        }
    }
}

/// The entry of an exception table that starts at `pos`.
pub open spec fn spec_exception(b: Seq<u8>, pos: int) -> Result<
    (ExceptionTableEntry, int),
    BaliError,
> {
    if !has_bytes(b, pos, 2) {
        Err(truncated_at(pos))
    } else if !has_bytes(b, pos + 2, 2) {
        Err(truncated_at(pos + 2))
    } else if !has_bytes(b, pos + 4, 2) {
        Err(truncated_at(pos + 4))
    } else if !has_bytes(b, pos + 6, 2) {
        Err(truncated_at(pos + 6))
    } else {
        Ok(
            (
                ExceptionTableEntry {
                    start_pc: be16(b, pos) as u16,
                    end_pc: be16(b, pos + 2) as u16,
                    handler_pc: be16(b, pos + 4) as u16,
                    catch_type: be16(b, pos + 6) as u16,
                },
                pos + 8,
            ),
        )
    }
}

/// The `n` exception-table entries that start at `pos`.
pub open spec fn spec_exceptions(b: Seq<u8>, pos: int, n: nat) -> Result<
    (Seq<ExceptionTableEntry>, int),
    BaliError,
>
    decreases n,
{
    if n == 0 {
        Ok((Seq::empty(), pos))
    } else {
        match spec_exception(b, pos) {
            Ok((first, next)) => with_prefix(seq![first], spec_exceptions(b, next, (n - 1) as nat)),
            Err(e) => Err(e),
        }
    }
}

/// The code attribute that `b` holds from its first byte to its last.
pub open spec fn spec_code_attribute(b: Seq<u8>) -> Result<CodeAttributeView, BaliError> {
    if !has_bytes(b, 0, 2) {
        Err(truncated_at(0))
    } else if !has_bytes(b, 2, 2) {
        Err(truncated_at(2))
    } else if !has_bytes(b, 4, 4) {
        Err(truncated_at(4))
    } else if !has_bytes(b, 8, be32(b, 4)) {
        Err(truncated_at(8))
    } else {
        let code_end = 8 + be32(b, 4);
        if !has_bytes(b, code_end, 2) {
            Err(truncated_at(code_end))
        } else {
            match spec_exceptions(b, code_end + 2, be16(b, code_end) as nat) {
                Err(e) => Err(e),
                Ok((exception_table, table_end)) => {
                    if !has_bytes(b, table_end, 2) {
                        Err(truncated_at(table_end))
                    } else {
                        match spec_attributes(b, table_end + 2, be16(b, table_end) as nat) {
                            Err(e) => Err(e),
                            Ok((attributes, end)) => {
                                if end != b.len() {
                                    Err(BaliError::TrailingBytes { offset: end as usize })
                                } else {
                                    Ok(
                                        CodeAttributeView {
                                            max_stack: be16(b, 0) as u16,
                                            max_locals: be16(b, 2) as u16,
                                            code_length: be32(b, 4) as u32,
                                            code: b.subrange(8, code_end),
                                            exception_table_length: be16(b, code_end) as u16,
                                            exception_table,
                                            attributes_count: be16(b, table_end) as u16,
                                            attributes,
                                        },
                                    )
                                }
                            },
                        }
                    }
                },
            }
        }
    }
}

/// Decodes the attribute that starts at `pos`.
pub(crate) fn parse_attribute(b: &[u8], pos: usize) -> (r: Result<
    (AttributeInfo, usize),
    BaliError,
>)
    requires
        pos <= b@.len(),
    ensures
        match r {
            Ok((attribute, end)) => spec_attribute(b@, pos as int) == Ok::<
                (AttributeInfoView, int),
                BaliError,
            >((attribute@, end as int)) && attribute@.wf() && pos <= end <= b@.len(),
            Err(e) => spec_attribute(b@, pos as int) == Err::<(AttributeInfoView, int), BaliError>(
                e,
            ),
        },
{
    let attribute_name_index = read_u16(b, pos)?;
    let attribute_length = read_u32(b, pos + 2)?;
    let info = read_bytes(b, pos + 6, attribute_length as usize)?;
    let end = pos + 6 + attribute_length as usize;
    Ok((AttributeInfo { attribute_name_index, attribute_length, info }, end))
}

/// Decodes the `n` attributes that start at `pos`.
pub(crate) fn parse_attributes(b: &[u8], pos: usize, n: u16) -> (r: Result<
    (Vec<AttributeInfo>, usize),
    BaliError,
>)
    requires
        pos <= b@.len(),
    ensures
        match r {
            Ok((attributes, end)) => spec_attributes(b@, pos as int, n as nat) == Ok::<
                (Seq<AttributeInfoView>, int),
                BaliError,
            >((attribute_views(attributes@), end as int)) && attributes@.len() == n
                && attributes_wf(attribute_views(attributes@)) && pos <= end <= b@.len(),
            Err(e) => spec_attributes(b@, pos as int, n as nat) == Err::<
                (Seq<AttributeInfoView>, int),
                BaliError,
            >(e),
        },
{
    let mut attributes: Vec<AttributeInfo> = Vec::new();
    let mut at: usize = pos;
    let mut i: u16 = 0;
    assert(attribute_views(attributes@) =~= Seq::<AttributeInfoView>::empty());
    while i < n
        invariant
            i <= n,
            pos <= at <= b@.len(),
            attributes@.len() == i,
            attributes_wf(attribute_views(attributes@)),
            spec_attributes(b@, pos as int, n as nat) == with_prefix(
                attribute_views(attributes@),
                spec_attributes(b@, at as int, (n - i) as nat),
            ),
        decreases n - i,
    {
        let ghost before = attribute_views(attributes@);
        let (attribute, next) = parse_attribute(b, at)?;
        proof {
            let rest = spec_attributes(b@, next as int, (n - i - 1) as nat);
            if rest is Ok {
                assert(before + (seq![attribute@] + rest->Ok_0.0) =~= before.push(attribute@)
                    + rest->Ok_0.0);
            }
        }
        attributes.push(attribute);
        assert(attribute_views(attributes@) =~= before.push(attribute@));
        at = next;
        i = i + 1;
    }
    assert(attribute_views(attributes@) + Seq::<AttributeInfoView>::empty() =~= attribute_views(
        attributes@,
    ));
    Ok((attributes, at))
}

/// Decodes the exception-table entry that starts at `pos`.
pub(crate) fn parse_exception(b: &[u8], pos: usize) -> (r: Result<
    (ExceptionTableEntry, usize),
    BaliError,
>)
    requires
        pos <= b@.len(),
    ensures
        match r {
            Ok((entry, end)) => spec_exception(b@, pos as int) == Ok::<
                (ExceptionTableEntry, int),
                BaliError,
            >((entry, end as int)) && pos <= end <= b@.len(),
            Err(e) => spec_exception(b@, pos as int) == Err::<
                (ExceptionTableEntry, int),
                BaliError,
            >(e),
        },
{
    let start_pc = read_u16(b, pos)?;
    let end_pc = read_u16(b, pos + 2)?;
    let handler_pc = read_u16(b, pos + 4)?;
    let catch_type = read_u16(b, pos + 6)?;
    Ok((ExceptionTableEntry { start_pc, end_pc, handler_pc, catch_type }, pos + 8))
}

/// Decodes the `n` exception-table entries that start at `pos`.
pub(crate) fn parse_exceptions(b: &[u8], pos: usize, n: u16) -> (r: Result<
    (Vec<ExceptionTableEntry>, usize),
    BaliError,
>)
    requires
        pos <= b@.len(),
    ensures
        match r {
            Ok((entries, end)) => spec_exceptions(b@, pos as int, n as nat) == Ok::<
                (Seq<ExceptionTableEntry>, int),
                BaliError,
            >((entries@, end as int)) && entries@.len() == n && pos <= end <= b@.len(),
            Err(e) => spec_exceptions(b@, pos as int, n as nat) == Err::<
                (Seq<ExceptionTableEntry>, int),
                BaliError,
            >(e),
        },
{
    let mut entries: Vec<ExceptionTableEntry> = Vec::new();
    let mut at: usize = pos;
    let mut i: u16 = 0;
    while i < n
        invariant
            i <= n,
            pos <= at <= b@.len(),
            entries@.len() == i,
            spec_exceptions(b@, pos as int, n as nat) == with_prefix(
                entries@,
                spec_exceptions(b@, at as int, (n - i) as nat),
            ),
        decreases n - i,
    {
        let ghost before = entries@;
        let (entry, next) = parse_exception(b, at)?;
        proof {
            let rest = spec_exceptions(b@, next as int, (n - i - 1) as nat);
            if rest is Ok {
                assert(before + (seq![entry] + rest->Ok_0.0) =~= before.push(entry) + rest->Ok_0.0);
            }
        }
        entries.push(entry);
        at = next;
        i = i + 1;
    }
    assert(entries@ + Seq::<ExceptionTableEntry>::empty() =~= entries@);
    Ok((entries, at))
}

/// Decodes a code attribute from the bytes of the attribute that holds it.
///
/// The bytes must hold one code attribute and nothing behind it. They are
/// accepted where they are the bytes of a well-formed code attribute, which
/// is then the result, and only there.
pub fn parse_code_attribute(b: &[u8]) -> (r: Result<CodeAttribute, BaliError>)
    ensures
        is_result(r, spec_code_attribute(b@)),
        r matches Ok(code) ==> code@.wf() && code_attribute_bytes(code@) == b@,
        r is Err ==> forall|c: CodeAttributeView|
            c.wf() ==> #[trigger] code_attribute_bytes(c) != b@,
{
    proof {
        if spec_code_attribute(b@) is Ok {
            lemma_code_attribute_bytes(b@);
        }
        assert forall|c: CodeAttributeView| c.wf() && #[trigger] code_attribute_bytes(c)
            == b@ implies spec_code_attribute(b@) is Ok by {
            lemma_decode_code_attribute(c);
        }
    }
    let max_stack = read_u16(b, 0)?;
    let max_locals = read_u16(b, 2)?;
    let code_length = read_u32(b, 4)?;
    let code = read_bytes(b, 8, code_length as usize)?;
    let code_end: usize = 8 + code_length as usize;
    let exception_table_length = read_u16(b, code_end)?;
    let (exception_table, table_end) = parse_exceptions(b, code_end + 2, exception_table_length)?;
    let attributes_count = read_u16(b, table_end)?;
    let (attributes, end) = parse_attributes(b, table_end + 2, attributes_count)?;
    if end != b.len() {
        return Err(BaliError::TrailingBytes { offset: end });
    }
    Ok(
        CodeAttribute {
            max_stack,
            max_locals,
            code_length,
            code,
            exception_table_length,
            exception_table,
            attributes_count,
            attributes,
        },
    )
}

/// The 16-bit number at `pos`, and where it ends.
pub open spec fn spec_u16(b: Seq<u8>, pos: int) -> Result<(u16, int), BaliError> {
    if !has_bytes(b, pos, 2) {
        Err(truncated_at(pos))
    } else {
        Ok((be16(b, pos) as u16, pos + 2))
    }
}

/// The two 16-bit numbers at `pos`.
pub open spec fn spec_u16_pair(b: Seq<u8>, pos: int) -> Result<(u16, u16), BaliError> {
    if !has_bytes(b, pos, 2) {
        Err(truncated_at(pos))
    } else if !has_bytes(b, pos + 2, 2) {
        Err(truncated_at(pos + 2))
    } else {
        Ok((be16(b, pos) as u16, be16(b, pos + 2) as u16))
    }
}

/// The 32-bit number at `pos`.
pub open spec fn spec_u32(b: Seq<u8>, pos: int) -> Result<u32, BaliError> {
    if !has_bytes(b, pos, 4) {
        Err(truncated_at(pos))
    } else {
        Ok(be32(b, pos) as u32)
    }
}

/// The two 32-bit numbers at `pos`.
pub open spec fn spec_u32_pair(b: Seq<u8>, pos: int) -> Result<(u32, u32), BaliError> {
    if !has_bytes(b, pos, 4) {
        Err(truncated_at(pos))
    } else if !has_bytes(b, pos + 4, 4) {
        Err(truncated_at(pos + 4))
    } else {
        Ok((be32(b, pos) as u32, be32(b, pos + 4) as u32))
    }
}

/// The UTF-8 constant whose length stands at `pos`, and where it ends. The
/// offset of an error for text that is not UTF-8 is that of the text.
pub open spec fn spec_utf8_entry(b: Seq<u8>, pos: int) -> Result<
    (ConstPoolInfoView, int),
    BaliError,
> {
    if !has_bytes(b, pos, 2) {
        Err(truncated_at(pos))
    } else if !has_bytes(b, pos + 2, be16(b, pos)) {
        Err(truncated_at(pos + 2))
    } else {
        let end = pos + 2 + be16(b, pos);
        if !valid_utf8(b.subrange(pos + 2, end)) {
            Err(BaliError::InvalidUtf8 { offset: (pos + 2) as usize })
        } else {
            Ok(
                (
                    ConstPoolInfoView::ConstUTF8 {
                        length: be16(b, pos) as u16,
                        bytes: b.subrange(pos + 2, end),
                    },
                    end,
                ),
            )
        }
    }
}

/// The constant-pool entry whose tag stands at `pos`, and where it ends.
pub open spec fn spec_pool_entry(b: Seq<u8>, pos: int) -> Result<
    (ConstPoolInfoView, int),
    BaliError,
> {
    if !has_bytes(b, pos, 1) {
        Err(truncated_at(pos))
    } else if b[pos] == 1 {
        spec_utf8_entry(b, pos + 1)
    } else if b[pos] == 3 {
        match spec_u32(b, pos + 1) {
            Ok(bytes) => Ok((ConstPoolInfoView::ConstInt { bytes }, pos + 5)),
            Err(e) => Err(e),
        }
    } else if b[pos] == 4 {
        match spec_u32(b, pos + 1) {
            Ok(bytes) => Ok((ConstPoolInfoView::ConstFloat { bytes }, pos + 5)),
            Err(e) => Err(e),
        }
    } else if b[pos] == 5 {
        match spec_u32_pair(b, pos + 1) {
            Ok((high_bytes, low_bytes)) => Ok(
                (ConstPoolInfoView::ConstLong { high_bytes, low_bytes }, pos + 9),
            ),
            Err(e) => Err(e),
        }
    } else if b[pos] == 6 {
        match spec_u32_pair(b, pos + 1) {
            Ok((high_bytes, low_bytes)) => Ok(
                (ConstPoolInfoView::ConstDouble { high_bytes, low_bytes }, pos + 9),
            ),
            Err(e) => Err(e),
        }
    } else if b[pos] == 7 {
        match spec_u16(b, pos + 1) {
            Ok((name_index, end)) => Ok((ConstPoolInfoView::ConstClass { name_index }, end)),
            Err(e) => Err(e),
        }
    } else if b[pos] == 8 {
        match spec_u16(b, pos + 1) {
            Ok((string_index, end)) => Ok((ConstPoolInfoView::ConstString { string_index }, end)),
            Err(e) => Err(e),
        }
    } else if b[pos] == 9 {
        match spec_u16_pair(b, pos + 1) {
            Ok((class_index, name_and_type_index)) => Ok(
                (ConstPoolInfoView::ConstFieldRef { class_index, name_and_type_index }, pos + 5),
            ),
            Err(e) => Err(e),
        }
    } else if b[pos] == 10 {
        match spec_u16_pair(b, pos + 1) {
            Ok((class_index, name_and_type_index)) => Ok(
                (ConstPoolInfoView::ConstMethodRef { class_index, name_and_type_index }, pos + 5),
            ),
            Err(e) => Err(e),
        }
    } else if b[pos] == 11 {
        match spec_u16_pair(b, pos + 1) {
            Ok((class_index, name_and_type_index)) => Ok(
                (
                    ConstPoolInfoView::ConstInterfaceMethodRef { class_index, name_and_type_index },
                    pos + 5,
                ),
            ),
            Err(e) => Err(e),
        }
    } else if b[pos] == 12 {
        match spec_u16_pair(b, pos + 1) {
            Ok((name_index, descriptor_index)) => Ok(
                (ConstPoolInfoView::ConstNameAndType { name_index, descriptor_index }, pos + 5),
            ),
            Err(e) => Err(e),
        }
    } else if b[pos] == 15 {
        if !has_bytes(b, pos + 1, 1) {
            Err(truncated_at(pos + 1))
        } else {
            match spec_u16(b, pos + 2) {
                Ok((reference_index, end)) => Ok(
                    (
                        ConstPoolInfoView::ConstMethodHandle {
                            reference_kind: b[pos + 1],
                            reference_index,
                        },
                        end,
                    ),
                ),
                Err(e) => Err(e),
            }
        }
    } else if b[pos] == 16 {
        match spec_u16(b, pos + 1) {
            Ok((descriptor_index, end)) => Ok(
                (ConstPoolInfoView::ConstMethodType { descriptor_index }, end),
            ),
            Err(e) => Err(e),
        }
    } else if b[pos] == 18 {
        match spec_u16_pair(b, pos + 1) {
            Ok((bootstrap_method_attr_index, name_and_type_index)) => Ok(
                (
                    ConstPoolInfoView::ConstInvokeDynamic {
                        bootstrap_method_attr_index,
                        name_and_type_index,
                    },
                    pos + 5,
                ),
            ),
            Err(e) => Err(e),
        }
    } else {
        Err(BaliError::UnknownTag { offset: pos as usize })
    }
}

/// The constant-pool entries that start at `pos` and fill `slots` slots, and
/// where the last one ends.
///
/// A long or a double fills two slots, of which the second holds the
/// unusable entry. It is an error where one starts in the last slot.
pub open spec fn spec_pool(b: Seq<u8>, pos: int, slots: nat) -> Result<
    (Seq<ConstPoolInfoView>, int),
    BaliError,
>
    decreases slots,
{
    if slots == 0 {
        Ok((Seq::empty(), pos))
    } else {
        match spec_pool_entry(b, pos) {
            Err(e) => Err(e),
            Ok((entry, next)) => {
                if entry.is_wide() {
                    if slots < 2 {
                        Err(BaliError::PoolOverrun { offset: pos as usize })
                    } else {
                        with_prefix(
                            seq![entry, ConstPoolInfoView::ConstUnusable],
                            spec_pool(b, next, (slots - 2) as nat),
                        )
                    }
                } else {
                    with_prefix(seq![entry], spec_pool(b, next, (slots - 1) as nat))
                }
            },
        }
    }
}

/// The `n` 16-bit numbers that start at `pos`.
pub open spec fn spec_u16s(b: Seq<u8>, pos: int, n: nat) -> Result<(Seq<u16>, int), BaliError>
    decreases n,
{
    if n == 0 {
        Ok((Seq::empty(), pos))
    } else {
        match spec_u16(b, pos) {
            Ok((first, next)) => with_prefix(seq![first], spec_u16s(b, next, (n - 1) as nat)),
            Err(e) => Err(e),
        }
    }
}

/// The attribute table that starts with its count at `pos`.
pub open spec fn spec_counted_attributes(b: Seq<u8>, pos: int) -> Result<
    (u16, Seq<AttributeInfoView>, int),
    BaliError,
> {
    match spec_u16(b, pos) {
        Err(e) => Err(e),
        Ok((count, next)) => match spec_attributes(b, next, count as nat) {
            Err(e) => Err(e),
            Ok((attributes, end)) => Ok((count, attributes, end)),
        },
    }
}

/// The field that starts at `pos`, and where it ends.
pub open spec fn spec_field(b: Seq<u8>, pos: int) -> Result<(FieldInfoView, int), BaliError> {
    if !has_bytes(b, pos, 2) {
        Err(truncated_at(pos))
    } else if !has_bytes(b, pos + 2, 2) {
        Err(truncated_at(pos + 2))
    } else if !has_bytes(b, pos + 4, 2) {
        Err(truncated_at(pos + 4))
    } else {
        match spec_counted_attributes(b, pos + 6) {
            Err(e) => Err(e),
            Ok((attributes_count, attributes, end)) => Ok(
                (
                    FieldInfoView {
                        access_flags: be16(b, pos) as u16,
                        name_index: be16(b, pos + 2) as u16,
                        descriptor_index: be16(b, pos + 4) as u16,
                        attributes_count,
                        attributes,
                    },
                    end,
                ),
            ),
        }
    }
}

/// The method that starts at `pos`, and where it ends.
pub open spec fn spec_method(b: Seq<u8>, pos: int) -> Result<(MethodInfoView, int), BaliError> {
    if !has_bytes(b, pos, 2) {
        Err(truncated_at(pos))
    } else if !has_bytes(b, pos + 2, 2) {
        Err(truncated_at(pos + 2))
    } else if !has_bytes(b, pos + 4, 2) {
        Err(truncated_at(pos + 4))
    } else {
        match spec_counted_attributes(b, pos + 6) {
            Err(e) => Err(e),
            Ok((attributes_count, attributes, end)) => Ok(
                (
                    MethodInfoView {
                        access_flags: be16(b, pos) as u16,
                        name_index: be16(b, pos + 2) as u16,
                        descriptor_index: be16(b, pos + 4) as u16,
                        attributes_count,
                        attributes,
                    },
                    end,
                ),
            ),
        }
    }
}

/// The `n` fields that start at `pos`.
pub open spec fn spec_fields(b: Seq<u8>, pos: int, n: nat) -> Result<
    (Seq<FieldInfoView>, int),
    BaliError,
>
    decreases n,
{
    if n == 0 {
        Ok((Seq::empty(), pos))
    } else {
        match spec_field(b, pos) {
            Ok((first, next)) => with_prefix(seq![first], spec_fields(b, next, (n - 1) as nat)),
            Err(e) => Err(e),
        }
    }
}

/// The `n` methods that start at `pos`.
pub open spec fn spec_methods(b: Seq<u8>, pos: int, n: nat) -> Result<
    (Seq<MethodInfoView>, int),
    BaliError,
>
    decreases n,
{
    if n == 0 {
        Ok((Seq::empty(), pos))
    } else {
        match spec_method(b, pos) {
            Ok((first, next)) => with_prefix(seq![first], spec_methods(b, next, (n - 1) as nat)),
            Err(e) => Err(e),
        }
    }
}

/// The constant pool that starts with its count at `pos`. A count of zero
/// is an error: the count is the number of slots plus one.
pub open spec fn spec_counted_pool(b: Seq<u8>, pos: int) -> Result<
    (u16, Seq<ConstPoolInfoView>, int),
    BaliError,
> {
    match spec_u16(b, pos) {
        Err(e) => Err(e),
        Ok((count, next)) => if count == 0 {
            Err(BaliError::EmptyPool { offset: pos as usize })
        } else {
            match spec_pool(b, next, (count - 1) as nat) {
                Err(e) => Err(e),
                Ok((constpool, end)) => Ok((count, constpool, end)),
            }
        },
    }
}

/// The table of interfaces that starts with its count at `pos`.
pub open spec fn spec_counted_u16s(b: Seq<u8>, pos: int) -> Result<
    (u16, Seq<u16>, int),
    BaliError,
> {
    match spec_u16(b, pos) {
        Err(e) => Err(e),
        Ok((count, next)) => match spec_u16s(b, next, count as nat) {
            Err(e) => Err(e),
            Ok((items, end)) => Ok((count, items, end)),
        },
    }
}

/// The table of fields that starts with its count at `pos`.
pub open spec fn spec_counted_fields(b: Seq<u8>, pos: int) -> Result<
    (u16, Seq<FieldInfoView>, int),
    BaliError,
> {
    match spec_u16(b, pos) {
        Err(e) => Err(e),
        Ok((count, next)) => match spec_fields(b, next, count as nat) {
            Err(e) => Err(e),
            Ok((fields, end)) => Ok((count, fields, end)),
        },
    }
}

/// The table of methods that starts with its count at `pos`.
pub open spec fn spec_counted_methods(b: Seq<u8>, pos: int) -> Result<
    (u16, Seq<MethodInfoView>, int),
    BaliError,
> {
    match spec_u16(b, pos) {
        Err(e) => Err(e),
        Ok((count, next)) => match spec_methods(b, next, count as nat) {
            Err(e) => Err(e),
            Ok((methods, end)) => Ok((count, methods, end)),
        },
    }
}

/// The class file that `b` holds from its first byte to its last.
///
/// The magic number is decoded and not looked at.
pub open spec fn spec_classfile(b: Seq<u8>) -> Result<ClassFileView, BaliError> {
    if !has_bytes(b, 0, 4) {
        Err(truncated_at(0))
    } else if !has_bytes(b, 4, 2) {
        Err(truncated_at(4))
    } else if !has_bytes(b, 6, 2) {
        Err(truncated_at(6))
    } else {
        match spec_counted_pool(b, 8) {
            Err(e) => Err(e),
            Ok((constpool_count, constpool, at_class)) => {
                if !has_bytes(b, at_class, 2) {
                    Err(truncated_at(at_class))
                } else if !has_bytes(b, at_class + 2, 2) {
                    Err(truncated_at(at_class + 2))
                } else if !has_bytes(b, at_class + 4, 2) {
                    Err(truncated_at(at_class + 4))
                } else {
                    match spec_counted_u16s(b, at_class + 6) {
                        Err(e) => Err(e),
                        Ok((interfaces_count, interfaces, at_fields)) => match spec_counted_fields(
                            b,
                            at_fields,
                        ) {
                            Err(e) => Err(e),
                            Ok((fields_count, fields, at_methods)) => match spec_counted_methods(
                                b,
                                at_methods,
                            ) {
                                Err(e) => Err(e),
                                Ok(
                                    (methods_count, methods, at_attributes),
                                ) => match spec_counted_attributes(b, at_attributes) {
                                    Err(e) => Err(e),
                                    Ok((attributes_count, attributes, end)) => {
                                        if end != b.len() {
                                            Err(BaliError::TrailingBytes { offset: end as usize })
                                        } else {
                                            Ok(
                                                ClassFileView {
                                                    magic: be32(b, 0) as u32,
                                                    minor_version: be16(b, 4) as u16,
                                                    major_version: be16(b, 6) as u16,
                                                    constpool_count,
                                                    constpool,
                                                    access_flags: be16(b, at_class) as u16,
                                                    this_class: be16(b, at_class + 2) as u16,
                                                    super_class: be16(b, at_class + 4) as u16,
                                                    interfaces_count,
                                                    interfaces,
                                                    fields_count,
                                                    fields,
                                                    methods_count,
                                                    methods,
                                                    attributes_count,
                                                    attributes,
                                                },
                                            )
                                        }
                                    },
                                },
                            },
                        },
                    }
                }
            },
        }
    }
}

/// Decodes the constant-pool entry whose tag stands at `pos`.
pub(crate) fn parse_pool_entry(b: &[u8], pos: usize) -> (r: Result<
    (ConstPoolInfo, usize),
    BaliError,
>)
    requires
        pos <= b@.len(),
    ensures
        match r {
            Ok((entry, end)) => {
                &&& spec_pool_entry(b@, pos as int) == Ok::<(ConstPoolInfoView, int), BaliError>(
                    (entry@, end as int),
                )
                &&& entry@.wf()
                &&& entry@ !is ConstUnusable
                &&& pos <= end <= b@.len()
            },
            Err(e) => spec_pool_entry(b@, pos as int) == Err::<(ConstPoolInfoView, int), BaliError>(
                e,
            ),
        },
{
    let tag = read_u8(b, pos)?;
    let at: usize = pos + 1;
    if tag == 1 {
        let length = read_u16(b, at)?;
        let bytes = read_bytes(b, at + 2, length as usize)?;
        if utf8_text(bytes.as_slice()).is_none() {
            return Err(BaliError::InvalidUtf8 { offset: at + 2 });
        }
        Ok((ConstPoolInfo::ConstUTF8 { length, bytes }, at + 2 + length as usize))
    } else if tag == 3 {
        let bytes = read_u32(b, at)?;
        Ok((ConstPoolInfo::ConstInt { bytes }, at + 4))
    } else if tag == 4 {
        let bytes = read_u32(b, at)?;
        Ok((ConstPoolInfo::ConstFloat { bytes }, at + 4))
    } else if tag == 5 {
        let high_bytes = read_u32(b, at)?;
        let low_bytes = read_u32(b, at + 4)?;
        Ok((ConstPoolInfo::ConstLong { high_bytes, low_bytes }, at + 8))
    } else if tag == 6 {
        let high_bytes = read_u32(b, at)?;
        let low_bytes = read_u32(b, at + 4)?;
        Ok((ConstPoolInfo::ConstDouble { high_bytes, low_bytes }, at + 8))
    } else if tag == 7 {
        let name_index = read_u16(b, at)?;
        Ok((ConstPoolInfo::ConstClass { name_index }, at + 2))
    } else if tag == 8 {
        let string_index = read_u16(b, at)?;
        Ok((ConstPoolInfo::ConstString { string_index }, at + 2))
    } else if tag == 9 {
        let class_index = read_u16(b, at)?;
        let name_and_type_index = read_u16(b, at + 2)?;
        Ok((ConstPoolInfo::ConstFieldRef { class_index, name_and_type_index }, at + 4))
    } else if tag == 10 {
        let class_index = read_u16(b, at)?;
        let name_and_type_index = read_u16(b, at + 2)?;
        Ok((ConstPoolInfo::ConstMethodRef { class_index, name_and_type_index }, at + 4))
    } else if tag == 11 {
        let class_index = read_u16(b, at)?;
        let name_and_type_index = read_u16(b, at + 2)?;
        Ok((ConstPoolInfo::ConstInterfaceMethodRef { class_index, name_and_type_index }, at + 4))
    } else if tag == 12 {
        let name_index = read_u16(b, at)?;
        let descriptor_index = read_u16(b, at + 2)?;
        Ok((ConstPoolInfo::ConstNameAndType { name_index, descriptor_index }, at + 4))
    } else if tag == 15 {
        let reference_kind = read_u8(b, at)?;
        let reference_index = read_u16(b, at + 1)?;
        Ok((ConstPoolInfo::ConstMethodHandle { reference_kind, reference_index }, at + 3))
    } else if tag == 16 {
        let descriptor_index = read_u16(b, at)?;
        Ok((ConstPoolInfo::ConstMethodType { descriptor_index }, at + 2))
    } else if tag == 18 {
        let bootstrap_method_attr_index = read_u16(b, at)?;
        let name_and_type_index = read_u16(b, at + 2)?;
        Ok(
            (
                ConstPoolInfo::ConstInvokeDynamic {
                    bootstrap_method_attr_index,
                    name_and_type_index,
                },
                at + 4,
            ),
        )
    } else {
        Err(BaliError::UnknownTag { offset: pos })
    }
}

/// Decodes the constant-pool entries that start at `pos` and fill `slots`
/// slots.
pub(crate) fn parse_pool(b: &[u8], pos: usize, slots: u16) -> (r: Result<
    (Vec<ConstPoolInfo>, usize),
    BaliError,
>)
    requires
        pos <= b@.len(),
    ensures
        match r {
            Ok((constpool, end)) => {
                &&& spec_pool(b@, pos as int, slots as nat) == Ok::<
                    (Seq<ConstPoolInfoView>, int),
                    BaliError,
                >((constant_views(constpool@), end as int))
                &&& constpool@.len() == slots
                &&& slots_wf(constant_views(constpool@))
                &&& pos <= end <= b@.len()
            },
            Err(e) => spec_pool(b@, pos as int, slots as nat) == Err::<
                (Seq<ConstPoolInfoView>, int),
                BaliError,
            >(e),
        },
{
    let mut constpool: Vec<ConstPoolInfo> = Vec::new();
    let mut at: usize = pos;
    let mut filled: u16 = 0;
    assert(constant_views(constpool@) =~= Seq::<ConstPoolInfoView>::empty());
    while filled < slots
        invariant
            filled <= slots,
            pos <= at <= b@.len(),
            constpool@.len() == filled,
            slots_wf(constant_views(constpool@)),
            spec_pool(b@, pos as int, slots as nat) == with_prefix(
                constant_views(constpool@),
                spec_pool(b@, at as int, (slots - filled) as nat),
            ),
        decreases slots - filled,
    {
        let ghost before = constant_views(constpool@);
        let (entry, next) = parse_pool_entry(b, at)?;
        let ghost first = entry@;
        let wide = match entry {
            ConstPoolInfo::ConstLong { .. } => true,
            ConstPoolInfo::ConstDouble { .. } => true,
            _ => false,
        };
        if wide {
            if slots - filled < 2 {
                return Err(BaliError::PoolOverrun { offset: at });
            }
            proof {
                let rest = spec_pool(b@, next as int, (slots - filled - 2) as nat);
                if rest is Ok {
                    assert(before + (seq![first, ConstPoolInfoView::ConstUnusable] + rest->Ok_0.0)
                        =~= before.push(first).push(ConstPoolInfoView::ConstUnusable)
                        + rest->Ok_0.0);
                }
            }
            constpool.push(entry);
            constpool.push(ConstPoolInfo::ConstUnusable);
            assert(constant_views(constpool@) =~= before.push(first).push(
                ConstPoolInfoView::ConstUnusable,
            ));
            filled = filled + 2;
        } else {
            proof {
                let rest = spec_pool(b@, next as int, (slots - filled - 1) as nat);
                if rest is Ok {
                    assert(before + (seq![first] + rest->Ok_0.0) =~= before.push(first)
                        + rest->Ok_0.0);
                }
            }
            constpool.push(entry);
            assert(constant_views(constpool@) =~= before.push(first));
            filled = filled + 1;
        }
        at = next;
    }
    assert(constant_views(constpool@) + Seq::<ConstPoolInfoView>::empty() =~= constant_views(
        constpool@,
    ));
    Ok((constpool, at))
}

/// Decodes the `n` 16-bit numbers that start at `pos`.
pub(crate) fn parse_u16s(b: &[u8], pos: usize, n: u16) -> (r: Result<(Vec<u16>, usize), BaliError>)
    requires
        pos <= b@.len(),
    ensures
        match r {
            Ok((items, end)) => {
                &&& spec_u16s(b@, pos as int, n as nat) == Ok::<(Seq<u16>, int), BaliError>(
                    (items@, end as int),
                )
                &&& items@.len() == n
                &&& pos <= end <= b@.len()
            },
            Err(e) => spec_u16s(b@, pos as int, n as nat) == Err::<(Seq<u16>, int), BaliError>(e),
        },
{
    let mut items: Vec<u16> = Vec::new();
    let mut at: usize = pos;
    let mut i: u16 = 0;
    while i < n
        invariant
            i <= n,
            pos <= at <= b@.len(),
            items@.len() == i,
            spec_u16s(b@, pos as int, n as nat) == with_prefix(
                items@,
                spec_u16s(b@, at as int, (n - i) as nat),
            ),
        decreases n - i,
    {
        let ghost before = items@;
        let item = read_u16(b, at)?;
        proof {
            let rest = spec_u16s(b@, at + 2, (n - i - 1) as nat);
            if rest is Ok {
                assert(before + (seq![item] + rest->Ok_0.0) =~= before.push(item) + rest->Ok_0.0);
            }
        }
        items.push(item);
        at = at + 2;
        i = i + 1;
    }
    assert(items@ + Seq::<u16>::empty() =~= items@);
    Ok((items, at))
}

/// Decodes the field that starts at `pos`.
pub(crate) fn parse_field(b: &[u8], pos: usize) -> (r: Result<(FieldInfo, usize), BaliError>)
    requires
        pos <= b@.len(),
    ensures
        match r {
            Ok((field, end)) => {
                &&& spec_field(b@, pos as int) == Ok::<(FieldInfoView, int), BaliError>(
                    (field@, end as int),
                )
                &&& field@.wf()
                &&& pos <= end <= b@.len()
            },
            Err(e) => spec_field(b@, pos as int) == Err::<(FieldInfoView, int), BaliError>(e),
        },
{
    let access_flags = read_u16(b, pos)?;
    let name_index = read_u16(b, pos + 2)?;
    let descriptor_index = read_u16(b, pos + 4)?;
    let attributes_count = read_u16(b, pos + 6)?;
    let (attributes, end) = parse_attributes(b, pos + 8, attributes_count)?;
    Ok(
        (
            FieldInfo { access_flags, name_index, descriptor_index, attributes_count, attributes },
            end,
        ),
    )
}

/// Decodes the method that starts at `pos`.
pub(crate) fn parse_method(b: &[u8], pos: usize) -> (r: Result<(MethodInfo, usize), BaliError>)
    requires
        pos <= b@.len(),
    ensures
        match r {
            Ok((method, end)) => {
                &&& spec_method(b@, pos as int) == Ok::<(MethodInfoView, int), BaliError>(
                    (method@, end as int),
                )
                &&& method@.wf()
                &&& pos <= end <= b@.len()
            },
            Err(e) => spec_method(b@, pos as int) == Err::<(MethodInfoView, int), BaliError>(e),
        },
{
    let access_flags = read_u16(b, pos)?;
    let name_index = read_u16(b, pos + 2)?;
    let descriptor_index = read_u16(b, pos + 4)?;
    let attributes_count = read_u16(b, pos + 6)?;
    let (attributes, end) = parse_attributes(b, pos + 8, attributes_count)?;
    Ok(
        (
            MethodInfo { access_flags, name_index, descriptor_index, attributes_count, attributes },
            end,
        ),
    )
}

/// Every field of `fields` is well formed.
pub open spec fn fields_wf(fields: Seq<FieldInfoView>) -> bool {
    forall|i: int| 0 <= i < fields.len() ==> (#[trigger] fields[i]).wf()
}

/// Every method of `methods` is well formed.
pub open spec fn methods_wf(methods: Seq<MethodInfoView>) -> bool {
    forall|i: int| 0 <= i < methods.len() ==> (#[trigger] methods[i]).wf()
}

/// Decodes the `n` fields that start at `pos`.
pub(crate) fn parse_fields(b: &[u8], pos: usize, n: u16) -> (r: Result<
    (Vec<FieldInfo>, usize),
    BaliError,
>)
    requires
        pos <= b@.len(),
    ensures
        match r {
            Ok((fields, end)) => {
                &&& spec_fields(b@, pos as int, n as nat) == Ok::<
                    (Seq<FieldInfoView>, int),
                    BaliError,
                >((field_views(fields@), end as int))
                &&& fields@.len() == n
                &&& fields_wf(field_views(fields@))
                &&& pos <= end <= b@.len()
            },
            Err(e) => spec_fields(b@, pos as int, n as nat) == Err::<
                (Seq<FieldInfoView>, int),
                BaliError,
            >(e),
        },
{
    let mut fields: Vec<FieldInfo> = Vec::new();
    let mut at: usize = pos;
    let mut i: u16 = 0;
    assert(field_views(fields@) =~= Seq::<FieldInfoView>::empty());
    while i < n
        invariant
            i <= n,
            pos <= at <= b@.len(),
            fields@.len() == i,
            fields_wf(field_views(fields@)),
            spec_fields(b@, pos as int, n as nat) == with_prefix(
                field_views(fields@),
                spec_fields(b@, at as int, (n - i) as nat),
            ),
        decreases n - i,
    {
        let ghost before = field_views(fields@);
        let (field, next) = parse_field(b, at)?;
        proof {
            let rest = spec_fields(b@, next as int, (n - i - 1) as nat);
            if rest is Ok {
                assert(before + (seq![field@] + rest->Ok_0.0) =~= before.push(field@)
                    + rest->Ok_0.0);
            }
        }
        fields.push(field);
        assert(field_views(fields@) =~= before.push(field@));
        at = next;
        i = i + 1;
    }
    assert(field_views(fields@) + Seq::<FieldInfoView>::empty() =~= field_views(fields@));
    Ok((fields, at))
}

/// Decodes the `n` methods that start at `pos`.
pub(crate) fn parse_methods(b: &[u8], pos: usize, n: u16) -> (r: Result<
    (Vec<MethodInfo>, usize),
    BaliError,
>)
    requires
        pos <= b@.len(),
    ensures
        match r {
            Ok((methods, end)) => {
                &&& spec_methods(b@, pos as int, n as nat) == Ok::<
                    (Seq<MethodInfoView>, int),
                    BaliError,
                >((method_views(methods@), end as int))
                &&& methods@.len() == n
                &&& methods_wf(method_views(methods@))
                &&& pos <= end <= b@.len()
            },
            Err(e) => spec_methods(b@, pos as int, n as nat) == Err::<
                (Seq<MethodInfoView>, int),
                BaliError,
            >(e),
        },
{
    let mut methods: Vec<MethodInfo> = Vec::new();
    let mut at: usize = pos;
    let mut i: u16 = 0;
    assert(method_views(methods@) =~= Seq::<MethodInfoView>::empty());
    while i < n
        invariant
            i <= n,
            pos <= at <= b@.len(),
            methods@.len() == i,
            methods_wf(method_views(methods@)),
            spec_methods(b@, pos as int, n as nat) == with_prefix(
                method_views(methods@),
                spec_methods(b@, at as int, (n - i) as nat),
            ),
        decreases n - i,
    {
        let ghost before = method_views(methods@);
        let (method, next) = parse_method(b, at)?;
        proof {
            let rest = spec_methods(b@, next as int, (n - i - 1) as nat);
            if rest is Ok {
                assert(before + (seq![method@] + rest->Ok_0.0) =~= before.push(method@)
                    + rest->Ok_0.0);
            }
        }
        methods.push(method);
        assert(method_views(methods@) =~= before.push(method@));
        at = next;
        i = i + 1;
    }
    assert(method_views(methods@) + Seq::<MethodInfoView>::empty() =~= method_views(methods@));
    Ok((methods, at))
}

/// Decodes a class file from the bytes of the file.
///
/// The bytes must hold one class file and nothing behind it. They are
/// accepted where they are the bytes of a well-formed class file, which is
/// then the result, and only there. A class file is well formed where its
/// counts are the lengths of its tables, a long or a double in its pool is
/// followed by an unusable slot, and the text of its UTF-8 constants is
/// UTF-8.
pub fn parse_classfile(b: &[u8]) -> (r: Result<ClassFile, BaliError>)
    ensures
        is_result(r, spec_classfile(b@)),
        r matches Ok(class) ==> class@.wf() && classfile_bytes(class@) == b@,
        r is Err ==> forall|c: ClassFileView| c.wf() ==> #[trigger] classfile_bytes(c) != b@,
{
    proof {
        if spec_classfile(b@) is Ok {
            lemma_classfile_bytes(b@);
        }
        assert forall|c: ClassFileView| c.wf() && #[trigger] classfile_bytes(c)
            == b@ implies spec_classfile(b@) is Ok by {
            lemma_decode_classfile(c);
        }
    }
    let magic = read_u32(b, 0)?;
    let minor_version = read_u16(b, 4)?;
    let major_version = read_u16(b, 6)?;
    let constpool_count = read_u16(b, 8)?;
    if constpool_count == 0 {
        return Err(BaliError::EmptyPool { offset: 8 });
    }
    let (constpool, at_class) = parse_pool(b, 10, constpool_count - 1)?;
    let access_flags = read_u16(b, at_class)?;
    let this_class = read_u16(b, at_class + 2)?;
    let super_class = read_u16(b, at_class + 4)?;
    let interfaces_count = read_u16(b, at_class + 6)?;
    let (interfaces, at_fields) = parse_u16s(b, at_class + 8, interfaces_count)?;
    let fields_count = read_u16(b, at_fields)?;
    let (fields, at_methods) = parse_fields(b, at_fields + 2, fields_count)?;
    let methods_count = read_u16(b, at_methods)?;
    let (methods, at_attributes) = parse_methods(b, at_methods + 2, methods_count)?;
    let attributes_count = read_u16(b, at_attributes)?;
    let (attributes, end) = parse_attributes(b, at_attributes + 2, attributes_count)?;
    if end != b.len() {
        return Err(BaliError::TrailingBytes { offset: end });
    }
    Ok(
        ClassFile {
            magic,
            minor_version,
            major_version,
            constpool_count,
            constpool,
            access_flags,
            this_class,
            super_class,
            interfaces_count,
            interfaces,
            fields_count,
            fields,
            methods_count,
            methods,
            attributes_count,
            attributes,
        },
    )
}

} // verus!
