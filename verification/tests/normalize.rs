use bali_image::memory::rewrite;
use bali_image::opcodes::{op_lookup, op_width};
use bali_image::{op_map, replace_iinc, BaliError};
use std::collections::{BTreeMap, HashMap};

#[test]
fn iinc_becomes_load_push_add_store() {
    assert_eq!(
        replace_iinc(&vec![0x84, 3, 1, 0xb1]),
        Ok(vec![0x15, 3, 0x10, 1, 0x60, 0x36, 3, 0xb1])
    );
}

#[test]
fn code_without_iinc_is_kept() {
    let code = vec![0x10, 0x2a, 0x3c, 0x1b, 0x11, 0x01, 0x00, 0x60, 0xac];
    assert_eq!(replace_iinc(&code), Ok(code.clone()));
    assert_eq!(replace_iinc(&vec![]), Ok(vec![]));
}

#[test]
fn each_iinc_adds_four_bytes() {
    let code = vec![0x84, 1, 1, 0x1b, 0x84, 2, 0xff, 0x84, 1, 2, 0xb1];
    let out = replace_iinc(&code).unwrap();
    assert_eq!(out.len(), code.len() + 4 * 3);
    assert_eq!(
        out,
        vec![
            0x15, 1, 0x10, 1, 0x60, 0x36, 1, 0x1b, 0x15, 2, 0x10, 0xff, 0x60, 0x36, 2, 0x15, 1,
            0x10, 2, 0x60, 0x36, 1, 0xb1
        ]
    );
}

#[test]
fn operand_that_looks_like_iinc_is_kept() {
    let code = vec![0x10, 0x84, 0x11, 0x84, 0x84, 0xb1];
    assert_eq!(replace_iinc(&code), Ok(code.clone()));
}

#[test]
fn iinc_without_its_operands_is_an_error() {
    assert_eq!(replace_iinc(&vec![0x84, 1]), Err(BaliError::TruncatedCode));
    assert_eq!(replace_iinc(&vec![0x00, 0x84]), Err(BaliError::TruncatedCode));
}

#[test]
fn other_instruction_cut_short_is_kept() {
    assert_eq!(replace_iinc(&vec![0x00, 0x11, 0x01]), Ok(vec![0x00, 0x11, 0x01]));
}

#[test]
fn opcode_outside_the_table_is_an_error() {
    assert_eq!(replace_iinc(&vec![0x00, 0xc4, 0x84, 1, 1]), Err(BaliError::UnknownOpcode));
    assert_eq!(replace_iinc(&vec![0xff]), Err(BaliError::UnknownOpcode));
}

#[test]
fn first_error_in_the_code_is_reported() {
    assert_eq!(replace_iinc(&vec![0xba, 0x84]), Err(BaliError::UnknownOpcode));
    assert_eq!(replace_iinc(&vec![0x84, 0xba]), Err(BaliError::TruncatedCode));
}

#[test]
fn table_lists_the_instructions_of_the_core() {
    assert_eq!(op_lookup(0x10), Some(("bipush", 1)));
    assert_eq!(op_lookup(0x15), Some(("iload", 1)));
    assert_eq!(op_lookup(0x36), Some(("istore", 1)));
    assert_eq!(op_lookup(0x60), Some(("iadd", 0)));
    assert_eq!(op_lookup(0x84), Some(("iinc", 2)));
    assert_eq!(op_lookup(0x12), Some(("ldc", 1)));
    assert_eq!(op_lookup(0xb8), Some(("invokestatic", 2)));
    assert_eq!(op_lookup(0xb1), Some(("return", 0)));
    assert_eq!(op_lookup(0xaa), None);
    assert_eq!(op_lookup(0xb9), None);
    assert_eq!(op_lookup(0xff), None);
    assert_eq!(op_width(0xa7), Some(2));
    assert_eq!(op_width(0xc5), None);
}

#[test]
fn table_as_a_map_has_a_line_for_each_opcode() {
    let table = op_map();
    assert_eq!(table.len(), 194);
    for opcode in 0..=255u8 {
        match op_lookup(opcode) {
            Some((mnemonic, args)) => {
                let op = &table[&opcode];
                assert_eq!(op.opcode, [opcode]);
                assert_eq!(op.mnemonic, mnemonic);
                assert_eq!(op.args, args);
                assert!(args <= 2);
            }
            None => assert!(!table.contains_key(&opcode)),
        }
    }
    assert_eq!(table[&0xb8].mnemonic, "invokestatic");
}

#[test]
fn linking_replaces_operands_and_keeps_the_length() {
    let refaddr: HashMap<u16, u16> = [(5, 1), (0x0102, 0x0304)].into_iter().collect();
    let intrefs: BTreeMap<u16, u16> = [(7, 2)].into_iter().collect();
    let code = vec![0x12, 7, 0xb8, 0x01, 0x02, 0xb8, 0, 5, 0x10, 0x12, 0xb1];
    assert_eq!(
        rewrite(&code, false, &refaddr, &intrefs),
        Ok(vec![0x12, 2, 0xb8, 0x03, 0x04, 0xb8, 0, 1, 0x10, 0x12, 0xb1])
    );
    assert_eq!(
        rewrite(&code, true, &refaddr, &intrefs),
        Ok(vec![0x12, 2, 0xb8, 0x03, 0x04, 0xb8, 0, 1, 0x10, 0x12, 0xff])
    );
    assert_eq!(rewrite(&vec![0x12, 8], true, &refaddr, &intrefs), Err(BaliError::NotAnInteger));
    assert_eq!(
        rewrite(&vec![0xb8, 0, 6], true, &refaddr, &intrefs),
        Err(BaliError::UnresolvedMethod)
    );
    assert_eq!(rewrite(&vec![0xb8, 0], true, &refaddr, &intrefs), Err(BaliError::TruncatedCode));
    assert_eq!(rewrite(&vec![0xcb], true, &refaddr, &intrefs), Err(BaliError::UnknownOpcode));
    assert_eq!(rewrite(&vec![0x11, 0xb1], true, &refaddr, &intrefs), Ok(vec![0x11, 0xb1]));
}
