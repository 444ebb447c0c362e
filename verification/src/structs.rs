//! The class file as data, and the mathematical view of each of its parts.
//!
//! A value of these types is plain data: nothing in it is checked when it is
//! built by hand. `ClassFileView::wf` says when the counts and the contents
//! agree, which is what the decoder establishes. The lowering relies on the
//! part of it that is about the constant pool, `ClassFileView::pool_wf`.

use vstd::prelude::*;
use vstd::utf8::*;

verus! {

/// One entry of the constant pool as it stands in the class file.
#[allow(inconsistent_fields)]
#[derive(Debug)]
pub enum ConstPoolInfo {
    ConstClass { name_index: u16 },
    ConstFieldRef { class_index: u16, name_and_type_index: u16 },
    ConstMethodRef { class_index: u16, name_and_type_index: u16 },
    ConstInterfaceMethodRef { class_index: u16, name_and_type_index: u16 },
    ConstString { string_index: u16 },
    ConstInt { bytes: u32 },
    ConstFloat { bytes: u32 },
    ConstLong { high_bytes: u32, low_bytes: u32 },
    ConstDouble { high_bytes: u32, low_bytes: u32 },
    ConstNameAndType { name_index: u16, descriptor_index: u16 },
    ConstUTF8 { length: u16, bytes: Vec<u8> },
    ConstMethodHandle { reference_kind: u8, reference_index: u16 },
    ConstMethodType { descriptor_index: u16 },
    ConstInvokeDynamic { bootstrap_method_attr_index: u16, name_and_type_index: u16 },
    /// The slot after a `ConstLong` or `ConstDouble`, which no index may name.
    ConstUnusable,
}

/// A constant-pool entry that the lowering reads.
#[derive(Debug)]
pub enum ConstPoolValue {
    Class(u16),
    Integer(i32),
    MethodRef(u16, u16),
    NameAndType(u16, u16),
    UTF8String(String),
}

/// A field of the class.
#[derive(Debug)]
pub struct FieldInfo {
    pub access_flags: u16,
    pub name_index: u16,
    pub descriptor_index: u16,
    pub attributes_count: u16,
    pub attributes: Vec<AttributeInfo>,
}

/// A method of the class.
#[derive(Debug)]
pub struct MethodInfo {
    pub access_flags: u16,
    pub name_index: u16,
    pub descriptor_index: u16,
    pub attributes_count: u16,
    pub attributes: Vec<AttributeInfo>,
}

/// An attribute of a class, a field, a method or a code block, not decoded.
#[derive(Debug)]
pub struct AttributeInfo {
    pub attribute_name_index: u16,
    pub attribute_length: u32,
    pub info: Vec<u8>,
}

/// One entry of the exception table of a code attribute.
#[derive(Clone, Copy, Debug, PartialEq, Eq, Structural)]
pub struct ExceptionTableEntry {
    pub start_pc: u16,
    pub end_pc: u16,
    pub handler_pc: u16,
    pub catch_type: u16,
}

/// The decoded `Code` attribute of a method.
#[derive(Debug)]
pub struct CodeAttribute {
    pub max_stack: u16,
    pub max_locals: u16,
    pub code_length: u32,
    pub code: Vec<u8>,
    pub exception_table_length: u16,
    pub exception_table: Vec<ExceptionTableEntry>,
    pub attributes_count: u16,
    pub attributes: Vec<AttributeInfo>,
}

/// What the image needs to know of one method.
#[derive(Debug)]
pub struct BaliCode {
    pub max_stack: u16,
    pub max_locals: u16,
    pub argcount: u16,
    pub code: Vec<u8>,
}

/// A whole class file.
#[derive(Debug)]
pub struct ClassFile {
    pub magic: u32,
    pub minor_version: u16,
    pub major_version: u16,
    pub constpool_count: u16,
    pub constpool: Vec<ConstPoolInfo>,
    pub access_flags: u16,
    pub this_class: u16,
    pub super_class: u16,
    pub interfaces_count: u16,
    pub interfaces: Vec<u16>,
    pub fields_count: u16,
    pub fields: Vec<FieldInfo>,
    pub methods_count: u16,
    pub methods: Vec<MethodInfo>,
    pub attributes_count: u16,
    pub attributes: Vec<AttributeInfo>,
}

/// A constant-pool entry as the contracts speak of it.
#[allow(inconsistent_fields)]
pub ghost enum ConstPoolInfoView {
    ConstClass { name_index: u16 },
    ConstFieldRef { class_index: u16, name_and_type_index: u16 },
    ConstMethodRef { class_index: u16, name_and_type_index: u16 },
    ConstInterfaceMethodRef { class_index: u16, name_and_type_index: u16 },
    ConstString { string_index: u16 },
    ConstInt { bytes: u32 },
    ConstFloat { bytes: u32 },
    ConstLong { high_bytes: u32, low_bytes: u32 },
    ConstDouble { high_bytes: u32, low_bytes: u32 },
    ConstNameAndType { name_index: u16, descriptor_index: u16 },
    ConstUTF8 { length: u16, bytes: Seq<u8> },
    ConstMethodHandle { reference_kind: u8, reference_index: u16 },
    ConstMethodType { descriptor_index: u16 },
    ConstInvokeDynamic { bootstrap_method_attr_index: u16, name_and_type_index: u16 },
    ConstUnusable,
}

/// A constant that the lowering reads, as the contracts speak of it.
pub ghost enum ConstPoolValueView {
    Class(u16),
    Integer(i32),
    MethodRef(u16, u16),
    NameAndType(u16, u16),
    UTF8String(Seq<char>),
}

/// An attribute as the contracts speak of it.
pub ghost struct AttributeInfoView {
    pub attribute_name_index: u16,
    pub attribute_length: u32,
    pub info: Seq<u8>,
}

/// A field as the contracts speak of it.
pub ghost struct FieldInfoView {
    pub access_flags: u16,
    pub name_index: u16,
    pub descriptor_index: u16,
    pub attributes_count: u16,
    pub attributes: Seq<AttributeInfoView>,
}

/// A method as the contracts speak of it.
pub ghost struct MethodInfoView {
    pub access_flags: u16,
    pub name_index: u16,
    pub descriptor_index: u16,
    pub attributes_count: u16,
    pub attributes: Seq<AttributeInfoView>,
}

/// A code attribute as the contracts speak of it.
pub ghost struct CodeAttributeView {
    pub max_stack: u16,
    pub max_locals: u16,
    pub code_length: u32,
    pub code: Seq<u8>,
    pub exception_table_length: u16,
    pub exception_table: Seq<ExceptionTableEntry>,
    pub attributes_count: u16,
    pub attributes: Seq<AttributeInfoView>,
}

/// A method of the image as the contracts speak of it.
pub ghost struct BaliCodeView {
    pub max_stack: u16,
    pub max_locals: u16,
    pub argcount: u16,
    pub code: Seq<u8>,
}

/// A class file as the contracts speak of it.
pub ghost struct ClassFileView {
    pub magic: u32,
    pub minor_version: u16,
    pub major_version: u16,
    pub constpool_count: u16,
    pub constpool: Seq<ConstPoolInfoView>,
    pub access_flags: u16,
    pub this_class: u16,
    pub super_class: u16,
    pub interfaces_count: u16,
    pub interfaces: Seq<u16>,
    pub fields_count: u16,
    pub fields: Seq<FieldInfoView>,
    pub methods_count: u16,
    pub methods: Seq<MethodInfoView>,
    pub attributes_count: u16,
    pub attributes: Seq<AttributeInfoView>,
}

impl View for ConstPoolInfo {
    type V = ConstPoolInfoView;

    open spec fn view(&self) -> ConstPoolInfoView {
        match *self {
            ConstPoolInfo::ConstClass { name_index } => ConstPoolInfoView::ConstClass {
                name_index,
            },
            ConstPoolInfo::ConstFieldRef {
                class_index,
                name_and_type_index,
            } => ConstPoolInfoView::ConstFieldRef { class_index, name_and_type_index },
            ConstPoolInfo::ConstMethodRef {
                class_index,
                name_and_type_index,
            } => ConstPoolInfoView::ConstMethodRef { class_index, name_and_type_index },
            ConstPoolInfo::ConstInterfaceMethodRef {
                class_index,
                name_and_type_index,
            } => ConstPoolInfoView::ConstInterfaceMethodRef { class_index, name_and_type_index },
            ConstPoolInfo::ConstString { string_index } => ConstPoolInfoView::ConstString {
                string_index,
            },
            ConstPoolInfo::ConstInt { bytes } => ConstPoolInfoView::ConstInt { bytes },
            ConstPoolInfo::ConstFloat { bytes } => ConstPoolInfoView::ConstFloat { bytes },
            ConstPoolInfo::ConstLong { high_bytes, low_bytes } => ConstPoolInfoView::ConstLong {
                high_bytes,
                low_bytes,
            },
            ConstPoolInfo::ConstDouble {
                high_bytes,
                low_bytes,
            } => ConstPoolInfoView::ConstDouble { high_bytes, low_bytes },
            ConstPoolInfo::ConstNameAndType {
                name_index,
                descriptor_index,
            } => ConstPoolInfoView::ConstNameAndType { name_index, descriptor_index },
            ConstPoolInfo::ConstUTF8 { length, bytes } => ConstPoolInfoView::ConstUTF8 {
                length,
                bytes: bytes@,
            },
            ConstPoolInfo::ConstMethodHandle {
                reference_kind,
                reference_index,
            } => ConstPoolInfoView::ConstMethodHandle { reference_kind, reference_index },
            ConstPoolInfo::ConstMethodType {
                descriptor_index,
            } => ConstPoolInfoView::ConstMethodType { descriptor_index },
            ConstPoolInfo::ConstInvokeDynamic {
                bootstrap_method_attr_index,
                name_and_type_index,
            } => ConstPoolInfoView::ConstInvokeDynamic {
                bootstrap_method_attr_index,
                name_and_type_index,
            },
            ConstPoolInfo::ConstUnusable => ConstPoolInfoView::ConstUnusable,
        }
    }
}

impl View for ConstPoolValue {
    type V = ConstPoolValueView;

    open spec fn view(&self) -> ConstPoolValueView {
        match *self {
            ConstPoolValue::Class(name_index) => ConstPoolValueView::Class(name_index),
            ConstPoolValue::Integer(value) => ConstPoolValueView::Integer(value),
            ConstPoolValue::MethodRef(class_index, name_and_type_index) => {
                ConstPoolValueView::MethodRef(class_index, name_and_type_index)
            },
            ConstPoolValue::NameAndType(name_index, descriptor_index) => {
                ConstPoolValueView::NameAndType(name_index, descriptor_index)
            },
            ConstPoolValue::UTF8String(text) => ConstPoolValueView::UTF8String(text@),
        }
    }
}

impl View for AttributeInfo {
    type V = AttributeInfoView;

    open spec fn view(&self) -> AttributeInfoView {
        AttributeInfoView {
            attribute_name_index: self.attribute_name_index,
            attribute_length: self.attribute_length,
            info: self.info@,
        }
    }
}

/// The views of the attributes in `attributes`, in the same order.
pub open spec fn attribute_views(attributes: Seq<AttributeInfo>) -> Seq<AttributeInfoView> {
    attributes.map_values(|a: AttributeInfo| a@)
}

impl View for FieldInfo {
    type V = FieldInfoView;

    open spec fn view(&self) -> FieldInfoView {
        FieldInfoView {
            access_flags: self.access_flags,
            name_index: self.name_index,
            descriptor_index: self.descriptor_index,
            attributes_count: self.attributes_count,
            attributes: attribute_views(self.attributes@),
        }
    }
}

impl View for MethodInfo {
    type V = MethodInfoView;

    open spec fn view(&self) -> MethodInfoView {
        MethodInfoView {
            access_flags: self.access_flags,
            name_index: self.name_index,
            descriptor_index: self.descriptor_index,
            attributes_count: self.attributes_count,
            attributes: attribute_views(self.attributes@),
        }
    }
}

impl View for CodeAttribute {
    type V = CodeAttributeView;

    open spec fn view(&self) -> CodeAttributeView {
        CodeAttributeView {
            max_stack: self.max_stack,
            max_locals: self.max_locals,
            code_length: self.code_length,
            code: self.code@,
            exception_table_length: self.exception_table_length,
            exception_table: self.exception_table@,
            attributes_count: self.attributes_count,
            attributes: attribute_views(self.attributes@),
        }
    }
}

impl View for BaliCode {
    type V = BaliCodeView;

    open spec fn view(&self) -> BaliCodeView {
        BaliCodeView {
            max_stack: self.max_stack,
            max_locals: self.max_locals,
            argcount: self.argcount,
            code: self.code@,
        }
    }
}

/// The views of the pool entries in `constpool`, in the same order.
pub open spec fn constant_views(constpool: Seq<ConstPoolInfo>) -> Seq<ConstPoolInfoView> {
    constpool.map_values(|c: ConstPoolInfo| c@)
}

/// The views of the fields in `fields`, in the same order.
pub open spec fn field_views(fields: Seq<FieldInfo>) -> Seq<FieldInfoView> {
    fields.map_values(|f: FieldInfo| f@)
}

/// The views of the methods in `methods`, in the same order.
pub open spec fn method_views(methods: Seq<MethodInfo>) -> Seq<MethodInfoView> {
    methods.map_values(|m: MethodInfo| m@)
}

impl View for ClassFile {
    type V = ClassFileView;

    open spec fn view(&self) -> ClassFileView {
        ClassFileView {
            magic: self.magic,
            minor_version: self.minor_version,
            major_version: self.major_version,
            constpool_count: self.constpool_count,
            constpool: constant_views(self.constpool@),
            access_flags: self.access_flags,
            this_class: self.this_class,
            super_class: self.super_class,
            interfaces_count: self.interfaces_count,
            interfaces: self.interfaces@,
            fields_count: self.fields_count,
            fields: field_views(self.fields@),
            methods_count: self.methods_count,
            methods: method_views(self.methods@),
            attributes_count: self.attributes_count,
            attributes: attribute_views(self.attributes@),
        }
    }
}

impl ConstPoolInfoView {
    /// Whether the entry takes two slots of the pool.
    pub open spec fn is_wide(self) -> bool {
        self is ConstLong || self is ConstDouble
    }

    /// A UTF-8 entry holds as many bytes as it says, and they are UTF-8.
    pub open spec fn wf(self) -> bool {
        self matches ConstPoolInfoView::ConstUTF8 { length, bytes } ==> bytes.len() == length
            && valid_utf8(bytes)
    }
}

impl AttributeInfoView {
    /// The attribute holds as many bytes as it says.
    pub open spec fn wf(self) -> bool {
        self.info.len() == self.attribute_length
    }
}

/// Every attribute of `attributes` holds as many bytes as it says.
pub open spec fn attributes_wf(attributes: Seq<AttributeInfoView>) -> bool {
    forall|i: int| 0 <= i < attributes.len() ==> (#[trigger] attributes[i]).wf()
}

impl FieldInfoView {
    /// The field has as many attributes as it says, and they are well formed.
    pub open spec fn wf(self) -> bool {
        &&& self.attributes.len() == self.attributes_count
        &&& attributes_wf(self.attributes)
    }
}

impl MethodInfoView {
    /// The method has as many attributes as it says, and they are well formed.
    pub open spec fn wf(self) -> bool {
        &&& self.attributes.len() == self.attributes_count
        &&& attributes_wf(self.attributes)
    }
}

impl CodeAttributeView {
    /// Each count is the length of its table, and the attributes are well
    /// formed.
    pub open spec fn wf(self) -> bool {
        &&& self.code.len() == self.code_length
        &&& self.exception_table.len() == self.exception_table_length
        &&& self.attributes.len() == self.attributes_count
        &&& attributes_wf(self.attributes)
    }
}

/// Every UTF-8 entry of `constpool` is well formed, a two-slot constant is
/// followed by its unusable slot, and no other slot is unusable.
pub open spec fn slots_wf(constpool: Seq<ConstPoolInfoView>) -> bool {
    &&& forall|i: int| 0 <= i < constpool.len() ==> (#[trigger] constpool[i]).wf()
    &&& forall|i: int|
        0 <= i < constpool.len() && (#[trigger] constpool[i]).is_wide() ==> i + 1
            < constpool.len() && constpool[i + 1] is ConstUnusable
    &&& forall|i: int|
        0 <= i < constpool.len() && (#[trigger] constpool[i]) is ConstUnusable ==> i > 0
            && constpool[i - 1].is_wide()
}

impl ClassFileView {
    /// The pool has one slot for each index from 1 below its count, and its
    /// slots are well formed.
    pub open spec fn pool_wf(self) -> bool {
        &&& self.constpool_count >= 1
        &&& self.constpool.len() == self.constpool_count - 1
        &&& slots_wf(self.constpool)
    }

    /// Every count is the length of its table, at every level.
    pub open spec fn wf(self) -> bool {
        &&& self.pool_wf()
        &&& self.interfaces.len() == self.interfaces_count
        &&& self.fields.len() == self.fields_count
        &&& forall|i: int| 0 <= i < self.fields.len() ==> (#[trigger] self.fields[i]).wf()
        &&& self.methods.len() == self.methods_count
        &&& forall|i: int| 0 <= i < self.methods.len() ==> (#[trigger] self.methods[i]).wf()
        &&& self.attributes.len() == self.attributes_count
        &&& attributes_wf(self.attributes)
    }
}

} // verus!
