use bali_image::{
    constants, methodrefs, parse_classfile, parse_code_attribute, parse_method_signature,
    pool_is_well_formed, BaliError, ConstPoolInfo, ConstPoolValue,
};

fn u2(v: u16) -> Vec<u8> {
    v.to_be_bytes().to_vec()
}

fn utf8(text: &[u8]) -> Vec<u8> {
    let mut entry = vec![1];
    entry.extend(u2(text.len() as u16));
    entry.extend_from_slice(text);
    entry
}

fn pair(tag: u8, first: u16, second: u16) -> Vec<u8> {
    let mut entry = vec![tag];
    entry.extend(u2(first));
    entry.extend(u2(second));
    entry
}

/// A class file with the pool `pool`, which fills `slots` slots, and
/// nothing else.
fn pool_only(slots: u16, pool: &[Vec<u8>]) -> Vec<u8> {
    let mut bytes = vec![0xca, 0xfe, 0xba, 0xbe, 0, 3, 0, 45];
    bytes.extend(u2(slots + 1));
    for entry in pool {
        bytes.extend_from_slice(entry);
    }
    bytes.extend_from_slice(&[0, 0x21, 0, 2, 0, 3, 0, 0, 0, 0, 0, 0, 0, 0]);
    bytes
}

#[test]
fn header_and_counts_are_decoded() {
    let class = parse_classfile(&pool_only(1, &[utf8(b"x")])).unwrap();
    assert_eq!(class.magic, 0xcafebabe);
    assert_eq!(class.minor_version, 3);
    assert_eq!(class.major_version, 45);
    assert_eq!(class.constpool_count, 2);
    assert_eq!(class.constpool.len(), 1);
    assert_eq!(class.access_flags, 0x21);
    assert_eq!(class.this_class, 2);
    assert_eq!(class.super_class, 3);
    assert_eq!(class.interfaces_count, 0);
    assert_eq!(class.fields_count, 0);
    assert_eq!(class.methods_count, 0);
    assert_eq!(class.attributes_count, 0);
}

#[test]
fn magic_is_not_checked() {
    let mut bytes = pool_only(1, &[utf8(b"x")]);
    bytes[0] = 0;
    assert_eq!(parse_classfile(&bytes).unwrap().magic, 0x00febabe);
}

#[test]
fn every_kind_of_constant_is_decoded() {
    let pool = vec![
        vec![7, 0, 2],
        pair(9, 1, 2),
        pair(10, 3, 4),
        pair(11, 5, 6),
        vec![8, 0, 9],
        vec![3, 0xff, 0xff, 0xff, 0xff],
        vec![4, 0x3f, 0x80, 0, 0],
        vec![5, 0, 0, 0, 1, 0, 0, 0, 2],
        vec![6, 0, 0, 0, 3, 0, 0, 0, 4],
        pair(12, 7, 8),
        utf8(b"text"),
        vec![15, 6, 0, 3],
        vec![16, 0, 11],
        pair(18, 0, 10),
    ];
    let class = parse_classfile(&pool_only(16, &pool)).unwrap();
    let c = &class.constpool;
    assert_eq!(c.len(), 16);
    assert!(matches!(c[0], ConstPoolInfo::ConstClass { name_index: 2 }));
    assert!(matches!(c[1], ConstPoolInfo::ConstFieldRef { class_index: 1, name_and_type_index: 2 }));
    assert!(matches!(c[2], ConstPoolInfo::ConstMethodRef { class_index: 3, name_and_type_index: 4 }));
    assert!(matches!(
        c[3],
        ConstPoolInfo::ConstInterfaceMethodRef { class_index: 5, name_and_type_index: 6 }
    ));
    assert!(matches!(c[4], ConstPoolInfo::ConstString { string_index: 9 }));
    assert!(matches!(c[5], ConstPoolInfo::ConstInt { bytes: 0xffff_ffff }));
    assert!(matches!(c[6], ConstPoolInfo::ConstFloat { bytes: 0x3f80_0000 }));
    assert!(matches!(c[7], ConstPoolInfo::ConstLong { high_bytes: 1, low_bytes: 2 }));
    assert!(matches!(c[8], ConstPoolInfo::ConstUnusable));
    assert!(matches!(c[9], ConstPoolInfo::ConstDouble { high_bytes: 3, low_bytes: 4 }));
    assert!(matches!(c[10], ConstPoolInfo::ConstUnusable));
    assert!(matches!(c[11], ConstPoolInfo::ConstNameAndType { name_index: 7, descriptor_index: 8 }));
    match &c[12] {
        ConstPoolInfo::ConstUTF8 { length, bytes } => {
            assert_eq!(*length, 4);
            assert_eq!(bytes, b"text");
        }
        _ => panic!("not a text"),
    }
    assert!(matches!(
        c[13],
        ConstPoolInfo::ConstMethodHandle { reference_kind: 6, reference_index: 3 }
    ));
    assert!(matches!(c[14], ConstPoolInfo::ConstMethodType { descriptor_index: 11 }));
    assert!(matches!(
        c[15],
        ConstPoolInfo::ConstInvokeDynamic { bootstrap_method_attr_index: 0, name_and_type_index: 10 }
    ));
}

#[test]
fn projection_keeps_five_kinds_under_their_indices() {
    let pool = vec![
        vec![5, 0, 0, 0, 1, 0, 0, 0, 2],
        vec![3, 0, 0, 0, 42],
        vec![7, 0, 5],
        pair(10, 4, 6),
        pair(12, 7, 8),
        utf8("gr\u{fc}n".as_bytes()),
        utf8(b"()V"),
        vec![8, 0, 7],
    ];
    let class = parse_classfile(&pool_only(9, &pool)).unwrap();
    let values = constants(&class);
    let keys: Vec<u16> = values.keys().copied().collect();
    assert_eq!(keys, vec![3, 4, 5, 6, 7, 8]);
    assert!(matches!(values[&3], ConstPoolValue::Integer(42)));
    assert!(matches!(values[&4], ConstPoolValue::Class(5)));
    assert!(matches!(values[&5], ConstPoolValue::MethodRef(4, 6)));
    assert!(matches!(values[&6], ConstPoolValue::NameAndType(7, 8)));
    assert!(matches!(&values[&7], ConstPoolValue::UTF8String(s) if s == "gr\u{fc}n"));
    assert!(keys.iter().all(|k| 1 <= *k && *k < class.constpool_count));
    assert_eq!(parse_method_signature(&class, &6), Ok("gr\u{fc}n()V".to_string()));
    assert_eq!(parse_method_signature(&class, &5), Err(BaliError::BadReference));
    assert_eq!(parse_method_signature(&class, &1), Err(BaliError::BadReference));
    assert_eq!(parse_method_signature(&class, &99), Err(BaliError::BadReference));
    let refs = methodrefs(&class).unwrap();
    assert_eq!(refs.len(), 1);
    assert_eq!(refs.get_by_left(&5), Some(&"gr\u{fc}n()V".to_string()));
    assert_eq!(refs.get_by_right(&"gr\u{fc}n()V".to_string()), Some(&5));
}

#[test]
fn later_reference_takes_over_a_signature() {
    let pool =
        vec![pair(10, 0, 3), pair(10, 0, 3), pair(12, 4, 5), utf8(b"f"), utf8(b"()V")];
    let class = parse_classfile(&pool_only(5, &pool)).unwrap();
    let refs = methodrefs(&class).unwrap();
    assert_eq!(refs.len(), 1);
    assert_eq!(refs.get_by_left(&1), None);
    assert_eq!(refs.get_by_left(&2), Some(&"f()V".to_string()));
}

#[test]
fn reference_without_name_is_an_error() {
    let pool = vec![pair(10, 0, 2), pair(12, 3, 1), utf8(b"f")];
    let class = parse_classfile(&pool_only(3, &pool)).unwrap();
    assert_eq!(methodrefs(&class).err(), Some(BaliError::BadReference));
}

#[test]
fn stream_that_ends_early_is_an_error() {
    let bytes = pool_only(1, &[utf8(b"x")]);
    assert_eq!(parse_classfile(&[]).err(), Some(BaliError::Truncated { offset: 0 }));
    assert_eq!(parse_classfile(&bytes[..3]).err(), Some(BaliError::Truncated { offset: 0 }));
    assert_eq!(parse_classfile(&bytes[..5]).err(), Some(BaliError::Truncated { offset: 4 }));
    assert_eq!(parse_classfile(&bytes[..9]).err(), Some(BaliError::Truncated { offset: 8 }));
    assert_eq!(parse_classfile(&bytes[..10]).err(), Some(BaliError::Truncated { offset: 10 }));
    assert_eq!(parse_classfile(&bytes[..12]).err(), Some(BaliError::Truncated { offset: 11 }));
    assert_eq!(parse_classfile(&bytes[..13]).err(), Some(BaliError::Truncated { offset: 13 }));
    assert_eq!(parse_classfile(&bytes[..14]).err(), Some(BaliError::Truncated { offset: 14 }));
    assert_eq!(parse_classfile(&bytes[..17]).err(), Some(BaliError::Truncated { offset: 16 }));
    let end = bytes.len();
    assert_eq!(
        parse_classfile(&bytes[..end - 1]).err(),
        Some(BaliError::Truncated { offset: end - 2 })
    );
}

#[test]
fn unknown_tag_is_an_error() {
    let bytes = pool_only(2, &[utf8(b"x"), vec![2, 0, 0]]);
    assert_eq!(parse_classfile(&bytes).err(), Some(BaliError::UnknownTag { offset: 14 }));
}

#[test]
fn text_that_is_not_utf8_is_an_error() {
    let bytes = pool_only(1, &[utf8(&[0x61, 0xc0, 0x80])]);
    assert_eq!(parse_classfile(&bytes).err(), Some(BaliError::InvalidUtf8 { offset: 13 }));
}

#[test]
fn pool_count_of_zero_is_an_error() {
    let mut bytes = pool_only(0, &[]);
    assert!(parse_classfile(&bytes).is_ok());
    bytes[9] = 0;
    assert_eq!(parse_classfile(&bytes).err(), Some(BaliError::EmptyPool { offset: 8 }));
}

#[test]
fn long_in_the_last_slot_is_an_error() {
    let long = vec![5, 0, 0, 0, 0, 0, 0, 0, 1];
    assert!(parse_classfile(&pool_only(3, &[utf8(b"x"), long.clone()])).is_ok());
    assert_eq!(
        parse_classfile(&pool_only(2, &[utf8(b"x"), long])).err(),
        Some(BaliError::PoolOverrun { offset: 14 })
    );
}

#[test]
fn bytes_behind_the_class_are_an_error() {
    let mut bytes = pool_only(1, &[utf8(b"x")]);
    let end = bytes.len();
    bytes.push(0);
    assert_eq!(parse_classfile(&bytes).err(), Some(BaliError::TrailingBytes { offset: end }));
}

#[test]
fn fields_interfaces_and_attributes_are_decoded() {
    let mut bytes = vec![0xca, 0xfe, 0xba, 0xbe, 0, 0, 0, 52, 0, 2];
    bytes.extend(utf8(b"x"));
    bytes.extend_from_slice(&[0, 1, 0, 2, 0, 3]);
    bytes.extend_from_slice(&[0, 2, 0, 8, 0, 9]);
    bytes.extend_from_slice(&[0, 1, 0, 2, 0, 1, 0, 1, 0, 1, 0, 1, 0, 0, 0, 2, 7, 8]);
    bytes.extend_from_slice(&[0, 1, 0, 9, 0, 1, 0, 1, 0, 0]);
    bytes.extend_from_slice(&[0, 1, 0, 1, 0, 0, 0, 0]);
    let class = parse_classfile(&bytes).unwrap();
    assert_eq!(class.interfaces, vec![8, 9]);
    assert_eq!(class.fields.len(), 1);
    assert_eq!(class.fields[0].access_flags, 2);
    assert_eq!(class.fields[0].attributes_count, 1);
    assert_eq!(class.fields[0].attributes[0].attribute_length, 2);
    assert_eq!(class.fields[0].attributes[0].info, vec![7, 8]);
    assert_eq!(class.methods.len(), 1);
    assert_eq!(class.methods[0].name_index, 1);
    assert!(class.methods[0].attributes.is_empty());
    assert_eq!(class.attributes.len(), 1);
    assert_eq!(class.attributes[0].attribute_name_index, 1);
    assert!(class.attributes[0].info.is_empty());
}

#[test]
fn code_attribute_is_decoded() {
    let mut info = vec![0, 2, 0, 3, 0, 0, 0, 2, 0x03, 0xac];
    info.extend_from_slice(&[0, 1, 0, 0, 0, 1, 0, 2, 0, 7]);
    info.extend_from_slice(&[0, 1, 0, 5, 0, 0, 0, 1, 9]);
    let code = parse_code_attribute(&info).unwrap();
    assert_eq!(code.max_stack, 2);
    assert_eq!(code.max_locals, 3);
    assert_eq!(code.code_length, 2);
    assert_eq!(code.code, vec![0x03, 0xac]);
    assert_eq!(code.exception_table_length, 1);
    assert_eq!(code.exception_table[0].end_pc, 1);
    assert_eq!(code.exception_table[0].handler_pc, 2);
    assert_eq!(code.exception_table[0].catch_type, 7);
    assert_eq!(code.attributes_count, 1);
    assert_eq!(code.attributes[0].info, vec![9]);
    info.push(0);
    assert_eq!(
        parse_code_attribute(&info).err(),
        Some(BaliError::TrailingBytes { offset: info.len() - 1 })
    );
    assert_eq!(
        parse_code_attribute(&info[..14]).err(),
        Some(BaliError::Truncated { offset: 14 })
    );
}

#[test]
fn pool_of_a_decoded_class_is_well_formed() {
    let long = vec![5, 0, 0, 0, 0, 0, 0, 0, 1];
    let mut class = parse_classfile(&pool_only(3, &[utf8(b"x"), long])).unwrap();
    assert!(pool_is_well_formed(&class));
    class.constpool_count = 3;
    assert!(!pool_is_well_formed(&class));
    class.constpool_count = 4;
    class.constpool[0] = ConstPoolInfo::ConstUTF8 { length: 1, bytes: vec![0xff] };
    assert!(!pool_is_well_formed(&class));
    class.constpool[0] = ConstPoolInfo::ConstUTF8 { length: 2, bytes: vec![0x61] };
    assert!(!pool_is_well_formed(&class));
    class.constpool[0] = ConstPoolInfo::ConstUnusable;
    assert!(!pool_is_well_formed(&class));
    class.constpool[0] = ConstPoolInfo::ConstInt { bytes: 1 };
    assert!(pool_is_well_formed(&class));
    class.constpool[2] = ConstPoolInfo::ConstInt { bytes: 1 };
    assert!(!pool_is_well_formed(&class));
}
