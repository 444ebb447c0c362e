//! Lowering of a Java class file into a flat program image for the Bali
//! stack processor.
//!
//! The image starts with a table of four-byte entries, one for each method
//! and one for each integer constant, and continues with the bytecode of the
//! methods. Calls and constant loads in that bytecode name entries of the
//! table, so that the processor needs no constant pool.
//!
//! The steps from the bytes of a class file to the image are
//! [`parse_classfile`], [`constants`], [`codeblocks`], [`memlayout`],
//! [`luts`] and [`binarygen`], of which the last runs the ones before it.
//!
//! Every function is verified against a contract that says what it returns,
//! and on which input it fails with which error. What holds of every image
//! is proved in [`laws`], and that the decoder reads the class-file format
//! in [`encoding`]. What is taken on trust about the maps of the `bimap`
//! crate stands in [`bimaps`].

pub mod bimaps;
pub mod bytes;
pub mod encoding;
pub mod error;
pub mod format;
pub mod laws;
pub mod layout;
pub mod lut;
pub mod memory;
pub mod methods;
pub mod normalize;
pub mod opcodes;
pub mod pool;
pub mod print;
pub mod reader;
pub mod signature;
pub mod structs;
pub mod table;
pub mod text;
pub mod uart;

pub use error::BaliError;
pub use layout::memlayout;
pub use lut::luts;
pub use memory::binarygen;
pub use methods::codeblocks;
pub use normalize::replace_iinc;
pub use opcodes::{op_map, Op};
pub use pool::{constants, methodrefs, parse_method_signature, pool_is_well_formed};
pub use print::{constoutput, fieldtype, memfile_text, method_listing, methodstring};
pub use reader::{parse_classfile, parse_code_attribute};
pub use signature::{parse_argcount, INIT_SIG, MAIN_SIG};
pub use structs::{
    AttributeInfo, BaliCode, ClassFile, CodeAttribute, ConstPoolInfo, ConstPoolValue,
    ExceptionTableEntry, FieldInfo, MethodInfo,
};
pub use table::MethodTable;
pub use uart::{transfer_frame, turnaround, CYCLE_BYTES};
