//! The instruction set that the lowering understands.
//!
//! Every instruction is one opcode byte followed by zero, one or two operand
//! bytes. Instructions with longer or variable operands are not listed, and
//! bytecode that uses them is rejected.

use std::collections::HashMap;
use vstd::prelude::*;

verus! {

pub const IINC: u8 = 0x84;

pub const ILOAD: u8 = 0x15;

pub const BIPUSH: u8 = 0x10;

pub const IADD: u8 = 0x60;

pub const ISTORE: u8 = 0x36;

pub const LDC: u8 = 0x12;

pub const INVOKESTATIC: u8 = 0xb8;

pub const RETURN: u8 = 0xb1;

/// The byte that halts the processor.
pub const HALT: u8 = 0xff;

/// One line of the opcode table.
#[derive(Debug)]
pub struct Op {
    pub opcode: [u8; 1],
    pub mnemonic: String,
    pub args: u8,
}

/// The opcode table: the mnemonic of `opcode` and the number of operand bytes
/// that follow it, or `None` where the table has no line for `opcode`.
pub open spec fn op_entry(opcode: u8) -> Option<(Seq<char>, u8)> {
    match opcode {
        0x00 => Some(("nop"@, 0u8)),
        0x01 => Some(("aconst_null"@, 0u8)),
        0x02 => Some(("iconst_m1"@, 0u8)),
        0x03 => Some(("iconst_0"@, 0u8)),
        0x04 => Some(("iconst_1"@, 0u8)),
        0x05 => Some(("iconst_2"@, 0u8)),
        0x06 => Some(("iconst_3"@, 0u8)),
        0x07 => Some(("iconst_4"@, 0u8)),
        0x08 => Some(("iconst_5"@, 0u8)),
        0x09 => Some(("lconst_0"@, 0u8)),
        0x0a => Some(("lconst_1"@, 0u8)),
        0x0b => Some(("fconst_0"@, 0u8)),
        0x0c => Some(("fconst_1"@, 0u8)),
        0x0d => Some(("fconst_2"@, 0u8)),
        0x0e => Some(("dconst_0"@, 0u8)),
        0x0f => Some(("dconst_1"@, 0u8)),
        0x10 => Some(("bipush"@, 1u8)),
        0x11 => Some(("sipush"@, 2u8)),
        0x12 => Some(("ldc"@, 1u8)),
        0x13 => Some(("ldc_w"@, 2u8)),
        0x14 => Some(("ldc2_w"@, 2u8)),
        0x15 => Some(("iload"@, 1u8)),
        0x16 => Some(("lload"@, 1u8)),
        0x17 => Some(("fload"@, 1u8)),
        0x18 => Some(("dload"@, 1u8)),
        0x19 => Some(("aload"@, 1u8)),
        0x1a => Some(("iload_0"@, 0u8)),
        0x1b => Some(("iload_1"@, 0u8)),
        0x1c => Some(("iload_2"@, 0u8)),
        0x1d => Some(("iload_3"@, 0u8)),
        0x1e => Some(("lload_0"@, 0u8)),
        0x1f => Some(("lload_1"@, 0u8)),
        0x20 => Some(("lload_2"@, 0u8)),
        0x21 => Some(("lload_3"@, 0u8)),
        0x22 => Some(("fload_0"@, 0u8)),
        0x23 => Some(("fload_1"@, 0u8)),
        0x24 => Some(("fload_2"@, 0u8)),
        0x25 => Some(("fload_3"@, 0u8)),
        0x26 => Some(("dload_0"@, 0u8)),
        0x27 => Some(("dload_1"@, 0u8)),
        0x28 => Some(("dload_2"@, 0u8)),
        0x29 => Some(("dload_3"@, 0u8)),
        0x2a => Some(("aload_0"@, 0u8)),
        0x2b => Some(("aload_1"@, 0u8)),
        0x2c => Some(("aload_2"@, 0u8)),
        0x2d => Some(("aload_3"@, 0u8)),
        0x2e => Some(("iaload"@, 0u8)),
        0x2f => Some(("laload"@, 0u8)),
        0x30 => Some(("faload"@, 0u8)),
        0x31 => Some(("daload"@, 0u8)),
        0x32 => Some(("aaload"@, 0u8)),
        0x33 => Some(("baload"@, 0u8)),
        0x34 => Some(("caload"@, 0u8)),
        0x35 => Some(("saload"@, 0u8)),
        0x36 => Some(("istore"@, 1u8)),
        0x37 => Some(("lstore"@, 1u8)),
        0x38 => Some(("fstore"@, 1u8)),
        0x39 => Some(("dstore"@, 1u8)),
        0x3a => Some(("astore"@, 1u8)),
        0x3b => Some(("istore_0"@, 0u8)),
        0x3c => Some(("istore_1"@, 0u8)),
        0x3d => Some(("istore_2"@, 0u8)),
        0x3e => Some(("istore_3"@, 0u8)),
        0x3f => Some(("lstore_0"@, 0u8)),
        0x40 => Some(("lstore_1"@, 0u8)),
        0x41 => Some(("lstore_2"@, 0u8)),
        0x42 => Some(("lstore_3"@, 0u8)),
        0x43 => Some(("fstore_0"@, 0u8)),
        0x44 => Some(("fstore_1"@, 0u8)),
        0x45 => Some(("fstore_2"@, 0u8)),
        0x46 => Some(("fstore_3"@, 0u8)),
        0x47 => Some(("dstore_0"@, 0u8)),
        0x48 => Some(("dstore_1"@, 0u8)),
        0x49 => Some(("dstore_2"@, 0u8)),
        0x4a => Some(("dstore_3"@, 0u8)),
        0x4b => Some(("astore_0"@, 0u8)),
        0x4c => Some(("astore_1"@, 0u8)),
        0x4d => Some(("astore_2"@, 0u8)),
        0x4e => Some(("astore_3"@, 0u8)),
        0x4f => Some(("iastore"@, 0u8)),
        0x50 => Some(("lastore"@, 0u8)),
        0x51 => Some(("fastore"@, 0u8)),
        0x52 => Some(("dastore"@, 0u8)),
        0x53 => Some(("aastore"@, 0u8)),
        0x54 => Some(("bastore"@, 0u8)),
        0x55 => Some(("castore"@, 0u8)),
        0x56 => Some(("sastore"@, 0u8)),
        0x57 => Some(("pop"@, 0u8)),
        0x58 => Some(("pop2"@, 0u8)),
        0x59 => Some(("dup"@, 0u8)),
        0x5a => Some(("dup_x1"@, 0u8)),
        0x5b => Some(("dup_x2"@, 0u8)),
        0x5c => Some(("dup2"@, 0u8)),
        0x5d => Some(("dup2_x1"@, 0u8)),
        0x5e => Some(("dup2_x2"@, 0u8)),
        0x5f => Some(("swap"@, 0u8)),
        0x60 => Some(("iadd"@, 0u8)),
        0x61 => Some(("ladd"@, 0u8)),
        0x62 => Some(("fadd"@, 0u8)),
        0x63 => Some(("dadd"@, 0u8)),
        0x64 => Some(("isub"@, 0u8)),
        0x65 => Some(("lsub"@, 0u8)),
        0x66 => Some(("fsub"@, 0u8)),
        0x67 => Some(("dsub"@, 0u8)),
        0x68 => Some(("imul"@, 0u8)),
        0x69 => Some(("lmul"@, 0u8)),
        0x6a => Some(("fmul"@, 0u8)),
        0x6b => Some(("dmul"@, 0u8)),
        0x6c => Some(("idiv"@, 0u8)),
        0x6d => Some(("ldiv"@, 0u8)),
        0x6e => Some(("fdiv"@, 0u8)),
        0x6f => Some(("ddiv"@, 0u8)),
        0x70 => Some(("irem"@, 0u8)),
        0x71 => Some(("lrem"@, 0u8)),
        0x72 => Some(("frem"@, 0u8)),
        0x73 => Some(("drem"@, 0u8)),
        0x74 => Some(("ineg"@, 0u8)),
        0x75 => Some(("lneg"@, 0u8)),
        0x76 => Some(("fneg"@, 0u8)),
        0x77 => Some(("dneg"@, 0u8)),
        0x78 => Some(("ishl"@, 0u8)),
        0x79 => Some(("lshl"@, 0u8)),
        0x7a => Some(("ishr"@, 0u8)),
        0x7b => Some(("lshr"@, 0u8)),
        0x7c => Some(("iushr"@, 0u8)),
        0x7d => Some(("lushr"@, 0u8)),
        0x7e => Some(("iand"@, 0u8)),
        0x7f => Some(("land"@, 0u8)),
        0x80 => Some(("ior"@, 0u8)),
        0x81 => Some(("lor"@, 0u8)),
        0x82 => Some(("ixor"@, 0u8)),
        0x83 => Some(("lxor"@, 0u8)),
        0x84 => Some(("iinc"@, 2u8)),
        0x85 => Some(("i2l"@, 0u8)),
        0x86 => Some(("i2f"@, 0u8)),
        0x87 => Some(("i2d"@, 0u8)),
        0x88 => Some(("l2i"@, 0u8)),
        0x89 => Some(("l2f"@, 0u8)),
        0x8a => Some(("l2d"@, 0u8)),
        0x8b => Some(("f2i"@, 0u8)),
        0x8c => Some(("f2l"@, 0u8)),
        0x8d => Some(("f2d"@, 0u8)),
        0x8e => Some(("d2i"@, 0u8)),
        0x8f => Some(("d2l"@, 0u8)),
        0x90 => Some(("d2f"@, 0u8)),
        0x91 => Some(("i2b"@, 0u8)),
        0x92 => Some(("i2c"@, 0u8)),
        0x93 => Some(("i2s"@, 0u8)),
        0x94 => Some(("lcmp"@, 0u8)),
        0x95 => Some(("fcmpl"@, 0u8)),
        0x96 => Some(("fcmpg"@, 0u8)),
        0x97 => Some(("dcmpl"@, 0u8)),
        0x98 => Some(("dcmpg"@, 0u8)),
        0x99 => Some(("ifeq"@, 2u8)),
        0x9a => Some(("ifne"@, 2u8)),
        0x9b => Some(("iflt"@, 2u8)),
        0x9c => Some(("ifge"@, 2u8)),
        0x9d => Some(("ifgt"@, 2u8)),
        0x9e => Some(("ifle"@, 2u8)),
        0x9f => Some(("if_icmpeq"@, 2u8)),
        0xa0 => Some(("if_icmpne"@, 2u8)),
        0xa1 => Some(("if_icmplt"@, 2u8)),
        0xa2 => Some(("if_icmpge"@, 2u8)),
        0xa3 => Some(("if_icmpgt"@, 2u8)),
        0xa4 => Some(("if_icmple"@, 2u8)),
        0xa5 => Some(("if_acmpeq"@, 2u8)),
        0xa6 => Some(("if_acmpne"@, 2u8)),
        0xa7 => Some(("goto"@, 2u8)),
        0xa8 => Some(("jsr"@, 2u8)),
        0xa9 => Some(("ret"@, 1u8)),
        0xac => Some(("ireturn"@, 0u8)),
        0xad => Some(("lreturn"@, 0u8)),
        0xae => Some(("freturn"@, 0u8)),
        0xaf => Some(("dreturn"@, 0u8)),
        0xb0 => Some(("areturn"@, 0u8)),
        0xb1 => Some(("return"@, 0u8)),
        0xb2 => Some(("getstatic"@, 2u8)),
        0xb3 => Some(("putstatic"@, 2u8)),
        0xb4 => Some(("getfield"@, 2u8)),
        0xb5 => Some(("putfield"@, 2u8)),
        0xb6 => Some(("invokevirtual"@, 2u8)),
        0xb7 => Some(("invokespecial"@, 2u8)),
        0xb8 => Some(("invokestatic"@, 2u8)),
        0xbb => Some(("new"@, 2u8)),
        0xbc => Some(("newarray"@, 1u8)),
        0xbd => Some(("anewarray"@, 2u8)),
        0xbe => Some(("arraylength"@, 0u8)),
        0xbf => Some(("athrow"@, 0u8)),
        0xc0 => Some(("checkcast"@, 2u8)),
        0xc1 => Some(("instanceof"@, 2u8)),
        0xc2 => Some(("monitorenter"@, 0u8)),
        0xc3 => Some(("monitorexit"@, 0u8)),
        0xc6 => Some(("ifnull"@, 2u8)),
        0xc7 => Some(("ifnonnull"@, 2u8)),
        _ => None,
    }
}

/// The number of operand bytes of `opcode`.
pub open spec fn op_args(opcode: u8) -> Option<u8> {
    match op_entry(opcode) {
        Some((_, args)) => Some(args),
        None => None,
    }
}

/// Whether the table lists `opcode`.
pub open spec fn op_known(opcode: u8) -> bool {
    op_entry(opcode) is Some
}

/// Looks `opcode` up in the table.
pub fn op_lookup(opcode: u8) -> (r: Option<(&'static str, u8)>)
    ensures
        match r {
            Some((name, args)) => op_entry(opcode) == Some((name@, args)),
            None => op_entry(opcode) is None,
        },
{
    match opcode {
        0x00 => Some(("nop", 0u8)),
        0x01 => Some(("aconst_null", 0u8)),
        0x02 => Some(("iconst_m1", 0u8)),
        0x03 => Some(("iconst_0", 0u8)),
        0x04 => Some(("iconst_1", 0u8)),
        0x05 => Some(("iconst_2", 0u8)),
        0x06 => Some(("iconst_3", 0u8)),
        0x07 => Some(("iconst_4", 0u8)),
        0x08 => Some(("iconst_5", 0u8)),
        0x09 => Some(("lconst_0", 0u8)),
        0x0a => Some(("lconst_1", 0u8)),
        0x0b => Some(("fconst_0", 0u8)),
        0x0c => Some(("fconst_1", 0u8)),
        0x0d => Some(("fconst_2", 0u8)),
        0x0e => Some(("dconst_0", 0u8)),
        0x0f => Some(("dconst_1", 0u8)),
        0x10 => Some(("bipush", 1u8)),
        0x11 => Some(("sipush", 2u8)),
        0x12 => Some(("ldc", 1u8)),
        0x13 => Some(("ldc_w", 2u8)),
        0x14 => Some(("ldc2_w", 2u8)),
        0x15 => Some(("iload", 1u8)),
        0x16 => Some(("lload", 1u8)),
        0x17 => Some(("fload", 1u8)),
        0x18 => Some(("dload", 1u8)),
        0x19 => Some(("aload", 1u8)),
        0x1a => Some(("iload_0", 0u8)),
        0x1b => Some(("iload_1", 0u8)),
        0x1c => Some(("iload_2", 0u8)),
        0x1d => Some(("iload_3", 0u8)),
        0x1e => Some(("lload_0", 0u8)),
        0x1f => Some(("lload_1", 0u8)),
        0x20 => Some(("lload_2", 0u8)),
        0x21 => Some(("lload_3", 0u8)),
        0x22 => Some(("fload_0", 0u8)),
        0x23 => Some(("fload_1", 0u8)),
        0x24 => Some(("fload_2", 0u8)),
        0x25 => Some(("fload_3", 0u8)),
        0x26 => Some(("dload_0", 0u8)),
        0x27 => Some(("dload_1", 0u8)),
        0x28 => Some(("dload_2", 0u8)),
        0x29 => Some(("dload_3", 0u8)),
        0x2a => Some(("aload_0", 0u8)),
        0x2b => Some(("aload_1", 0u8)),
        0x2c => Some(("aload_2", 0u8)),
        0x2d => Some(("aload_3", 0u8)),
        0x2e => Some(("iaload", 0u8)),
        0x2f => Some(("laload", 0u8)),
        0x30 => Some(("faload", 0u8)),
        0x31 => Some(("daload", 0u8)),
        0x32 => Some(("aaload", 0u8)),
        0x33 => Some(("baload", 0u8)),
        0x34 => Some(("caload", 0u8)),
        0x35 => Some(("saload", 0u8)),
        0x36 => Some(("istore", 1u8)),
        0x37 => Some(("lstore", 1u8)),
        0x38 => Some(("fstore", 1u8)),
        0x39 => Some(("dstore", 1u8)),
        0x3a => Some(("astore", 1u8)),
        0x3b => Some(("istore_0", 0u8)),
        0x3c => Some(("istore_1", 0u8)),
        0x3d => Some(("istore_2", 0u8)),
        0x3e => Some(("istore_3", 0u8)),
        0x3f => Some(("lstore_0", 0u8)),
        0x40 => Some(("lstore_1", 0u8)),
        0x41 => Some(("lstore_2", 0u8)),
        0x42 => Some(("lstore_3", 0u8)),
        0x43 => Some(("fstore_0", 0u8)),
        0x44 => Some(("fstore_1", 0u8)),
        0x45 => Some(("fstore_2", 0u8)),
        0x46 => Some(("fstore_3", 0u8)),
        0x47 => Some(("dstore_0", 0u8)),
        0x48 => Some(("dstore_1", 0u8)),
        0x49 => Some(("dstore_2", 0u8)),
        0x4a => Some(("dstore_3", 0u8)),
        0x4b => Some(("astore_0", 0u8)),
        0x4c => Some(("astore_1", 0u8)),
        0x4d => Some(("astore_2", 0u8)),
        0x4e => Some(("astore_3", 0u8)),
        0x4f => Some(("iastore", 0u8)),
        0x50 => Some(("lastore", 0u8)),
        0x51 => Some(("fastore", 0u8)),
        0x52 => Some(("dastore", 0u8)),
        0x53 => Some(("aastore", 0u8)),
        0x54 => Some(("bastore", 0u8)),
        0x55 => Some(("castore", 0u8)),
        0x56 => Some(("sastore", 0u8)),
        0x57 => Some(("pop", 0u8)),
        0x58 => Some(("pop2", 0u8)),
        0x59 => Some(("dup", 0u8)),
        0x5a => Some(("dup_x1", 0u8)),
        0x5b => Some(("dup_x2", 0u8)),
        0x5c => Some(("dup2", 0u8)),
        0x5d => Some(("dup2_x1", 0u8)),
        0x5e => Some(("dup2_x2", 0u8)),
        0x5f => Some(("swap", 0u8)),
        0x60 => Some(("iadd", 0u8)),
        0x61 => Some(("ladd", 0u8)),
        0x62 => Some(("fadd", 0u8)),
        0x63 => Some(("dadd", 0u8)),
        0x64 => Some(("isub", 0u8)),
        0x65 => Some(("lsub", 0u8)),
        0x66 => Some(("fsub", 0u8)),
        0x67 => Some(("dsub", 0u8)),
        0x68 => Some(("imul", 0u8)),
        0x69 => Some(("lmul", 0u8)),
        0x6a => Some(("fmul", 0u8)),
        0x6b => Some(("dmul", 0u8)),
        0x6c => Some(("idiv", 0u8)),
        0x6d => Some(("ldiv", 0u8)),
        0x6e => Some(("fdiv", 0u8)),
        0x6f => Some(("ddiv", 0u8)),
        0x70 => Some(("irem", 0u8)),
        0x71 => Some(("lrem", 0u8)),
        0x72 => Some(("frem", 0u8)),
        0x73 => Some(("drem", 0u8)),
        0x74 => Some(("ineg", 0u8)),
        0x75 => Some(("lneg", 0u8)),
        0x76 => Some(("fneg", 0u8)),
        0x77 => Some(("dneg", 0u8)),
        0x78 => Some(("ishl", 0u8)),
        0x79 => Some(("lshl", 0u8)),
        0x7a => Some(("ishr", 0u8)),
        0x7b => Some(("lshr", 0u8)),
        0x7c => Some(("iushr", 0u8)),
        0x7d => Some(("lushr", 0u8)),
        0x7e => Some(("iand", 0u8)),
        0x7f => Some(("land", 0u8)),
        0x80 => Some(("ior", 0u8)),
        0x81 => Some(("lor", 0u8)),
        0x82 => Some(("ixor", 0u8)),
        0x83 => Some(("lxor", 0u8)),
        0x84 => Some(("iinc", 2u8)),
        0x85 => Some(("i2l", 0u8)),
        0x86 => Some(("i2f", 0u8)),
        0x87 => Some(("i2d", 0u8)),
        0x88 => Some(("l2i", 0u8)),
        0x89 => Some(("l2f", 0u8)),
        0x8a => Some(("l2d", 0u8)),
        0x8b => Some(("f2i", 0u8)),
        0x8c => Some(("f2l", 0u8)),
        0x8d => Some(("f2d", 0u8)),
        0x8e => Some(("d2i", 0u8)),
        0x8f => Some(("d2l", 0u8)),
        0x90 => Some(("d2f", 0u8)),
        0x91 => Some(("i2b", 0u8)),
        0x92 => Some(("i2c", 0u8)),
        0x93 => Some(("i2s", 0u8)),
        0x94 => Some(("lcmp", 0u8)),
        0x95 => Some(("fcmpl", 0u8)),
        0x96 => Some(("fcmpg", 0u8)),
        0x97 => Some(("dcmpl", 0u8)),
        0x98 => Some(("dcmpg", 0u8)),
        0x99 => Some(("ifeq", 2u8)),
        0x9a => Some(("ifne", 2u8)),
        0x9b => Some(("iflt", 2u8)),
        0x9c => Some(("ifge", 2u8)),
        0x9d => Some(("ifgt", 2u8)),
        0x9e => Some(("ifle", 2u8)),
        0x9f => Some(("if_icmpeq", 2u8)),
        0xa0 => Some(("if_icmpne", 2u8)),
        0xa1 => Some(("if_icmplt", 2u8)),
        0xa2 => Some(("if_icmpge", 2u8)),
        0xa3 => Some(("if_icmpgt", 2u8)),
        0xa4 => Some(("if_icmple", 2u8)),
        0xa5 => Some(("if_acmpeq", 2u8)),
        0xa6 => Some(("if_acmpne", 2u8)),
        0xa7 => Some(("goto", 2u8)),
        0xa8 => Some(("jsr", 2u8)),
        0xa9 => Some(("ret", 1u8)),
        0xac => Some(("ireturn", 0u8)),
        0xad => Some(("lreturn", 0u8)),
        0xae => Some(("freturn", 0u8)),
        0xaf => Some(("dreturn", 0u8)),
        0xb0 => Some(("areturn", 0u8)),
        0xb1 => Some(("return", 0u8)),
        0xb2 => Some(("getstatic", 2u8)),
        0xb3 => Some(("putstatic", 2u8)),
        0xb4 => Some(("getfield", 2u8)),
        0xb5 => Some(("putfield", 2u8)),
        0xb6 => Some(("invokevirtual", 2u8)),
        0xb7 => Some(("invokespecial", 2u8)),
        0xb8 => Some(("invokestatic", 2u8)),
        0xbb => Some(("new", 2u8)),
        0xbc => Some(("newarray", 1u8)),
        0xbd => Some(("anewarray", 2u8)),
        0xbe => Some(("arraylength", 0u8)),
        0xbf => Some(("athrow", 0u8)),
        0xc0 => Some(("checkcast", 2u8)),
        0xc1 => Some(("instanceof", 2u8)),
        0xc2 => Some(("monitorenter", 0u8)),
        0xc3 => Some(("monitorexit", 0u8)),
        0xc6 => Some(("ifnull", 2u8)),
        0xc7 => Some(("ifnonnull", 2u8)),
        _ => None,
    }
}

/// The number of operand bytes of `opcode`, without its mnemonic.
pub fn op_width(opcode: u8) -> (r: Option<u8>)
    ensures
        r == op_args(opcode),
{
    match op_lookup(opcode) {
        Some((_, args)) => Some(args),
        None => None,
    }
}

/// No instruction of the table has more than two operand bytes.
pub proof fn lemma_args_at_most_two(opcode: u8)
    ensures
        op_args(opcode) matches Some(args) ==> args <= 2,
{
}

/// Whether `m` holds the table: a line for each opcode that the table lists,
/// and no other.
pub open spec fn is_op_table(m: Map<u8, Op>) -> bool {
    forall|opcode: u8|
        match #[trigger] op_entry(opcode) {
            Some((name, args)) => {
                &&& m.contains_key(opcode)
                &&& m[opcode].opcode[0] == opcode
                &&& m[opcode].mnemonic@ == name
                &&& m[opcode].args == args
            },
            None => !m.contains_key(opcode),
        }
}

/// Builds the opcode table as a map from opcode to its line.
pub fn op_map() -> (opmap: HashMap<u8, Op>)
    ensures
        is_op_table(opmap@),
{
    let mut opmap: HashMap<u8, Op> = HashMap::new();
    let mut next: u16 = 0;
    while next < 256
        invariant
            next <= 256,
            forall|opcode: u8|
                opcode < next ==> match #[trigger] op_entry(opcode) {
                    Some((name, args)) => {
                        &&& opmap@.contains_key(opcode)
                        &&& opmap@[opcode].opcode[0] == opcode
                        &&& opmap@[opcode].mnemonic@ == name
                        &&& opmap@[opcode].args == args
                    },
                    None => !opmap@.contains_key(opcode),
                },
            forall|opcode: u8| opcode >= next ==> !opmap@.contains_key(opcode),
        decreases 256 - next,
    {
        let opcode: u8 = next as u8;
        match op_lookup(opcode) {
            Some((name, args)) => {
                let op = Op { opcode: [opcode], mnemonic: String::from_str(name), args };
                opmap.insert(opcode, op);
            },
            None => {},
        }
        next = next + 1;
    }
    opmap
}

} // verus!
