use bali_image::{
    binarygen, codeblocks, constants, luts, memlayout, methodrefs, parse_classfile, BaliError,
    ClassFile, ConstPoolValue,
};

const MAIN: &str = "main([Ljava/lang/String;)V";

fn u2(v: u16) -> Vec<u8> {
    v.to_be_bytes().to_vec()
}

fn utf8(text: &str) -> Vec<u8> {
    let mut entry = vec![1];
    entry.extend(u2(text.len() as u16));
    entry.extend_from_slice(text.as_bytes());
    entry
}

fn integer(v: i32) -> Vec<u8> {
    let mut entry = vec![3];
    entry.extend_from_slice(&v.to_be_bytes());
    entry
}

fn class_ref(name: u16) -> Vec<u8> {
    let mut entry = vec![7];
    entry.extend(u2(name));
    entry
}

fn method_ref(class: u16, name_and_type: u16) -> Vec<u8> {
    let mut entry = vec![10];
    entry.extend(u2(class));
    entry.extend(u2(name_and_type));
    entry
}

fn name_and_type(name: u16, descriptor: u16) -> Vec<u8> {
    let mut entry = vec![12];
    entry.extend(u2(name));
    entry.extend(u2(descriptor));
    entry
}

fn attribute(name: u16, info: &[u8]) -> Vec<u8> {
    let mut bytes = u2(name);
    bytes.extend_from_slice(&(info.len() as u32).to_be_bytes());
    bytes.extend_from_slice(info);
    bytes
}

fn code(name: u16, max_stack: u16, max_locals: u16, code: &[u8]) -> Vec<u8> {
    let mut info = u2(max_stack);
    info.extend(u2(max_locals));
    info.extend_from_slice(&(code.len() as u32).to_be_bytes());
    info.extend_from_slice(code);
    info.extend(u2(0));
    info.extend(u2(0));
    attribute(name, &info)
}

fn method(name: u16, descriptor: u16, attributes: &[Vec<u8>]) -> Vec<u8> {
    let mut bytes = u2(0x0009);
    bytes.extend(u2(name));
    bytes.extend(u2(descriptor));
    bytes.extend(u2(attributes.len() as u16));
    for a in attributes {
        bytes.extend_from_slice(a);
    }
    bytes
}

fn class_bytes(pool: &[Vec<u8>], methods: &[Vec<u8>]) -> Vec<u8> {
    let mut bytes = vec![0xca, 0xfe, 0xba, 0xbe, 0, 0, 0, 52];
    bytes.extend(u2(pool.len() as u16 + 1));
    for entry in pool {
        bytes.extend_from_slice(entry);
    }
    bytes.extend(u2(0x0021));
    bytes.extend(u2(0));
    bytes.extend(u2(0));
    bytes.extend(u2(0));
    bytes.extend(u2(0));
    bytes.extend(u2(methods.len() as u16));
    for m in methods {
        bytes.extend_from_slice(m);
    }
    bytes.extend(u2(0));
    bytes
}

fn class(pool: &[Vec<u8>], methods: &[Vec<u8>]) -> ClassFile {
    parse_classfile(&class_bytes(pool, methods)).unwrap()
}

/// Pool entries 1 to 3: the name and the descriptor of `main`, and `Code`.
fn main_pool() -> Vec<Vec<u8>> {
    vec![utf8("main"), utf8("([Ljava/lang/String;)V"), utf8("Code")]
}

#[test]
fn empty_main_gives_five_bytes() {
    let class = class(&main_pool(), &[method(1, 2, &[code(3, 0, 0, &[0xb1])])]);
    assert_eq!(binarygen(&class), Ok(vec![0x00, 0x04, 0x00, 0x00, 0xff]));
}

#[test]
fn constant_load_names_the_integer_entry() {
    let mut pool = main_pool();
    pool.push(utf8("a"));
    pool.push(utf8("b"));
    pool.push(utf8("c"));
    pool.push(integer(0x11223344));
    let class = class(&pool, &[method(1, 2, &[code(3, 1, 0, &[0x12, 7, 0xac])])]);
    let image = binarygen(&class).unwrap();
    assert_eq!(image, vec![0x00, 0x08, 0x00, 0x00, 0x11, 0x22, 0x33, 0x44, 0x12, 0x01, 0xac]);
    let (lut, constmap, nameindex) = luts(&class).unwrap();
    assert_eq!(lut, vec![0x00, 0x08, 0x00, 0x00, 0x11, 0x22, 0x33, 0x44]);
    assert_eq!(constmap.len(), 1);
    assert_eq!(constmap[&7], 1);
    assert_eq!(nameindex.entries, vec![(MAIN.to_string(), 0)]);
}

/// Pool: 4 a class, 5 a reference to `foo()V`, 6 its name and type, 7 and 8
/// its name and its descriptor.
fn call_pool() -> Vec<Vec<u8>> {
    let mut pool = main_pool();
    pool.push(class_ref(7));
    pool.push(method_ref(4, 6));
    pool.push(name_and_type(7, 8));
    pool.push(utf8("foo"));
    pool.push(utf8("()V"));
    pool
}

#[test]
fn static_call_names_the_method_entry() {
    let methods = [
        method(7, 8, &[code(3, 0, 2, &[0xb1])]),
        method(1, 2, &[code(3, 1, 1, &[0xb8, 0x00, 0x05, 0xb1])]),
    ];
    let class = class(&call_pool(), &methods);
    let image = binarygen(&class).unwrap();
    assert_eq!(
        image,
        vec![0x00, 0x08, 0x00, 0x01, 0x00, 0x0c, 0x00, 0x02, 0xb8, 0x00, 0x01, 0xff, 0xb1]
    );
    let (layout, size) = memlayout(&class).unwrap();
    assert_eq!(size, 5);
    assert_eq!(layout.len(), 2);
    assert_eq!(layout.get_by_left(&0), Some(&MAIN.to_string()));
    assert_eq!(layout.get_by_left(&4), Some(&"foo()V".to_string()));
    assert_eq!(layout.get_by_right(&"foo()V".to_string()), Some(&4));
}

#[test]
fn return_is_kept_outside_main() {
    let methods = [
        method(7, 8, &[code(3, 0, 0, &[0xb1, 0xb1])]),
        method(1, 2, &[code(3, 0, 0, &[0xb1, 0x00, 0xb1])]),
    ];
    let image = binarygen(&class(&call_pool(), &methods)).unwrap();
    assert_eq!(&image[8..], &[0xff, 0x00, 0xff, 0xb1, 0xb1]);
}

#[test]
fn main_without_return_is_left_alone() {
    let class = class(&main_pool(), &[method(1, 2, &[code(3, 0, 0, &[0x03, 0x57])])]);
    assert_eq!(binarygen(&class), Ok(vec![0x00, 0x04, 0x00, 0x00, 0x03, 0x57]));
}

#[test]
fn constructor_is_left_out() {
    let mut pool = main_pool();
    pool.push(utf8("<init>"));
    pool.push(utf8("()V"));
    let methods = [
        method(4, 5, &[code(3, 1, 1, &[0x2a, 0xb1])]),
        method(1, 2, &[code(3, 0, 1, &[0xb1])]),
    ];
    let class = class(&pool, &methods);
    let blocks = codeblocks(&class).unwrap();
    assert_eq!(blocks.len(), 2);
    let (lut, constmap, nameindex) = luts(&class).unwrap();
    assert_eq!(lut, vec![0x00, 0x04, 0x00, 0x01]);
    assert!(constmap.is_empty());
    assert_eq!(nameindex.len(), 1);
    assert!(nameindex.get("<init>()V").is_none());
    let (layout, size) = memlayout(&class).unwrap();
    assert_eq!(size, 1);
    assert!(!layout.contains_right(&"<init>()V".to_string()));
    assert_eq!(binarygen(&class), Ok(vec![0x00, 0x04, 0x00, 0x01, 0xff]));
}

#[test]
fn references_to_the_constructor_are_not_linked() {
    let mut pool = main_pool();
    pool.push(class_ref(7));
    pool.push(method_ref(4, 6));
    pool.push(name_and_type(7, 8));
    pool.push(utf8("<init>"));
    pool.push(utf8("()V"));
    let class = class(&pool, &[method(1, 2, &[code(3, 0, 0, &[0xb1])])]);
    assert_eq!(binarygen(&class), Ok(vec![0x00, 0x04, 0x00, 0x00, 0xff]));
    let refs = methodrefs(&class).unwrap();
    assert_eq!(refs.get_by_left(&5), Some(&"<init>()V".to_string()));
}

#[test]
fn overloaded_methods_have_entries_of_their_own() {
    let mut pool = main_pool();
    pool.push(utf8("f"));
    pool.push(utf8("(I)I"));
    pool.push(utf8("(II)I"));
    let methods = [
        method(4, 6, &[code(3, 2, 2, &[0x1a, 0x1b, 0x60, 0xac])]),
        method(4, 5, &[code(3, 1, 1, &[0x1a, 0xac])]),
        method(1, 2, &[code(3, 0, 1, &[0xb1])]),
    ];
    let class = class(&pool, &methods);
    let blocks = codeblocks(&class).unwrap();
    let keys: Vec<&str> = blocks.entries.iter().map(|e| e.0.as_str()).collect();
    assert_eq!(keys, vec!["f(I)I", "f(II)I", MAIN]);
    assert_eq!(blocks.get("f(I)I").unwrap().argcount, 1);
    assert_eq!(blocks.get("f(II)I").unwrap().argcount, 2);
    let (layout, size) = memlayout(&class).unwrap();
    assert_eq!(size, 7);
    assert_eq!(layout.get_by_right(&"f(I)I".to_string()), Some(&1));
    assert_eq!(layout.get_by_right(&"f(II)I".to_string()), Some(&3));
    let image = binarygen(&class).unwrap();
    assert_eq!(
        image,
        vec![
            0x00, 0x0c, 0x00, 0x01, 0x00, 0x0d, 0x01, 0x01, 0x00, 0x0f, 0x02, 0x02, 0xff, 0x1a,
            0xac, 0x1a, 0x1b, 0x60, 0xac
        ]
    );
}

#[test]
fn iinc_is_expanded_before_the_layout() {
    let class = class(&main_pool(), &[method(1, 2, &[code(3, 1, 4, &[0x84, 3, 1, 0xb1])])]);
    let blocks = codeblocks(&class).unwrap();
    assert_eq!(blocks.get(MAIN).unwrap().code, vec![0x15, 3, 0x10, 1, 0x60, 0x36, 3, 0xb1]);
    let (_, size) = memlayout(&class).unwrap();
    assert_eq!(size, 8);
    assert_eq!(
        binarygen(&class),
        Ok(vec![0x00, 0x04, 0x00, 0x04, 0x15, 3, 0x10, 1, 0x60, 0x36, 3, 0xff])
    );
}

#[test]
fn negative_integers_are_stored_in_twos_complement() {
    let mut pool = main_pool();
    pool.push(integer(-2));
    pool.push(integer(i32::MIN));
    let class = class(&pool, &[method(1, 2, &[code(3, 1, 0, &[0x12, 5, 0x12, 4, 0xb1])])]);
    let values = constants(&class);
    assert!(matches!(values[&4], ConstPoolValue::Integer(-2)));
    assert!(matches!(values[&5], ConstPoolValue::Integer(i32::MIN)));
    assert_eq!(
        binarygen(&class),
        Ok(vec![
            0x00, 0x0c, 0x00, 0x00, 0xff, 0xff, 0xff, 0xfe, 0x80, 0x00, 0x00, 0x00, 0x12, 0x02,
            0x12, 0x01, 0xff
        ])
    );
}

#[test]
fn images_of_the_same_class_are_the_same() {
    let methods = [
        method(7, 8, &[code(3, 0, 2, &[0xb1])]),
        method(1, 2, &[code(3, 1, 1, &[0xb8, 0x00, 0x05, 0xb1])]),
    ];
    let bytes = class_bytes(&call_pool(), &methods);
    let first = binarygen(&parse_classfile(&bytes).unwrap());
    let second = binarygen(&parse_classfile(&bytes).unwrap());
    assert!(first.is_ok());
    assert_eq!(first, second);
}

#[test]
fn method_without_code_is_passed_over() {
    let mut pool = main_pool();
    pool.push(utf8("g"));
    pool.push(utf8("()V"));
    pool.push(utf8("Deprecated"));
    let methods = [
        method(4, 5, &[attribute(6, &[])]),
        method(1, 2, &[attribute(6, &[]), code(3, 0, 0, &[0xb1])]),
    ];
    let class = class(&pool, &methods);
    let blocks = codeblocks(&class).unwrap();
    assert_eq!(blocks.len(), 1);
    assert!(blocks.get(MAIN).is_some());
    assert_eq!(binarygen(&class), Ok(vec![0x00, 0x04, 0x00, 0x00, 0xff]));
}

#[test]
fn method_behind_an_empty_one_takes_its_address() {
    let mut pool = main_pool();
    pool.push(utf8("a"));
    pool.push(utf8("b"));
    pool.push(utf8("()V"));
    let methods = [
        method(4, 6, &[code(3, 0, 0, &[])]),
        method(5, 6, &[code(3, 0, 0, &[0xb1])]),
        method(1, 2, &[code(3, 0, 0, &[0xb1])]),
    ];
    let class = class(&pool, &methods);
    let (layout, size) = memlayout(&class).unwrap();
    assert_eq!(size, 2);
    assert_eq!(layout.len(), 2);
    assert_eq!(layout.get_by_left(&1), Some(&"b()V".to_string()));
    assert!(!layout.contains_right(&"a()V".to_string()));
    assert_eq!(binarygen(&class), Ok(vec![0, 8, 0, 0, 0, 9, 0, 0, 0xff, 0xb1]));
}

#[test]
fn missing_main_is_an_error() {
    let methods = [method(7, 8, &[code(3, 0, 0, &[0xb1])])];
    let class = class(&call_pool(), &methods);
    assert_eq!(memlayout(&class).err(), Some(BaliError::MissingMain));
    assert_eq!(luts(&class).err(), Some(BaliError::MissingMain));
    assert_eq!(binarygen(&class), Err(BaliError::MissingMain));
}

#[test]
fn call_of_a_method_without_code_is_an_error() {
    let methods = [method(1, 2, &[code(3, 0, 0, &[0xb8, 0x00, 0x05, 0xb1])])];
    assert_eq!(binarygen(&class(&call_pool(), &methods)), Err(BaliError::UnresolvedMethod));
}

#[test]
fn call_through_another_constant_is_an_error() {
    let mut pool = main_pool();
    pool.push(integer(1));
    let methods = [method(1, 2, &[code(3, 0, 0, &[0xb8, 0x00, 0x04, 0xb1])])];
    assert_eq!(binarygen(&class(&pool, &methods)), Err(BaliError::UnresolvedMethod));
}

#[test]
fn load_of_another_constant_is_an_error() {
    let methods = [method(1, 2, &[code(3, 0, 0, &[0x12, 1, 0xb1])])];
    assert_eq!(binarygen(&class(&main_pool(), &methods)), Err(BaliError::NotAnInteger));
}

#[test]
fn operand_cut_short_is_an_error() {
    let methods = [method(1, 2, &[code(3, 0, 0, &[0x12])])];
    assert_eq!(binarygen(&class(&main_pool(), &methods)), Err(BaliError::TruncatedCode));
    let methods = [method(1, 2, &[code(3, 0, 0, &[0x00, 0xb8, 0x00])])];
    assert_eq!(binarygen(&class(&main_pool(), &methods)), Err(BaliError::TruncatedCode));
}

#[test]
fn unknown_opcode_is_an_error() {
    let methods = [method(1, 2, &[code(3, 0, 0, &[0xaa, 0xb1])])];
    let class = class(&main_pool(), &methods);
    assert_eq!(codeblocks(&class).err(), Some(BaliError::UnknownOpcode));
    assert_eq!(binarygen(&class), Err(BaliError::UnknownOpcode));
}

#[test]
fn too_many_locals_is_an_error() {
    let class = class(&main_pool(), &[method(1, 2, &[code(3, 0, 256, &[0xb1])])]);
    assert_eq!(luts(&class).err(), Some(BaliError::TooManyLocals));
    assert_eq!(binarygen(&class), Err(BaliError::TooManyLocals));
    let class = crate::class(&main_pool(), &[method(1, 2, &[code(3, 0, 255, &[0xb1])])]);
    assert_eq!(binarygen(&class), Ok(vec![0x00, 0x04, 0x00, 0xff, 0xff]));
}

#[test]
fn too_many_constants_is_an_error() {
    let mut pool = main_pool();
    for i in 0..255 {
        pool.push(integer(i));
    }
    let methods = [method(1, 2, &[code(3, 0, 0, &[0x12, 4, 0xb1])])];
    let image = binarygen(&class(&pool, &methods)).unwrap();
    assert_eq!(image.len(), 4 * 256 + 3);
    assert_eq!(&image[4 * 256..], &[0x12, 1, 0xff]);
    pool.push(integer(255));
    assert_eq!(binarygen(&class(&pool, &methods)), Err(BaliError::TooManyConstants));
}

#[test]
fn image_beyond_sixteen_bits_is_an_error() {
    let fits = vec![0u8; 0xffff - 4];
    let class = class(&main_pool(), &[method(1, 2, &[code(3, 0, 0, &fits)])]);
    assert_eq!(binarygen(&class).unwrap().len(), 0xffff);
    let too_long = vec![0u8; 0xffff - 3];
    let class = crate::class(&main_pool(), &[method(1, 2, &[code(3, 0, 0, &too_long)])]);
    assert_eq!(memlayout(&class).unwrap().1, 0xfffc);
    assert_eq!(binarygen(&class), Err(BaliError::ImageTooLarge));
    let far_too_long = vec![0u8; 0x10000];
    let class = crate::class(&main_pool(), &[method(1, 2, &[code(3, 0, 0, &far_too_long)])]);
    assert_eq!(memlayout(&class).err(), Some(BaliError::ImageTooLarge));
}

#[test]
fn method_name_that_is_no_text_is_an_error() {
    let mut pool = main_pool();
    pool.push(integer(1));
    let methods = [method(4, 2, &[code(3, 0, 0, &[0xb1])])];
    assert_eq!(codeblocks(&class(&pool, &methods)).err(), Some(BaliError::BadReference));
    let methods = [method(1, 2, &[attribute(9, &[])])];
    assert_eq!(codeblocks(&class(&pool, &methods)).err(), Some(BaliError::BadReference));
}

#[test]
fn descriptor_without_parameter_list_is_an_error() {
    let mut pool = main_pool();
    pool.push(utf8("I"));
    let methods = [method(1, 4, &[code(3, 0, 0, &[0xb1])])];
    assert_eq!(codeblocks(&class(&pool, &methods)).err(), Some(BaliError::BadDescriptor));
}

#[test]
fn code_attribute_cut_short_is_an_error() {
    let methods = [method(1, 2, &[attribute(3, &[0, 1, 0, 1, 0, 0, 0, 4, 0xb1])])];
    assert_eq!(
        codeblocks(&class(&main_pool(), &methods)).err(),
        Some(BaliError::Truncated { offset: 8 })
    );
}

/// A class with `main`, `foo()V` and `g()V`, two integers, and calls and
/// loads in `main`.
fn linked_class() -> ClassFile {
    let mut pool = call_pool();
    pool.push(integer(1000));
    pool.push(utf8("g"));
    pool.push(integer(-1));
    let methods = [
        method(10, 8, &[code(3, 1, 3, &[0x12, 11, 0x57, 0xb1])]),
        method(7, 8, &[code(3, 0, 2, &[0x03, 0x57, 0xb1])]),
        method(1, 2, &[code(3, 1, 1, &[0x12, 9, 0xb8, 0x00, 0x05, 0xb1])]),
    ];
    class(&pool, &methods)
}

#[test]
fn layout_has_no_gaps_and_no_method_twice() {
    let class = linked_class();
    let blocks = codeblocks(&class).unwrap();
    let (layout, size) = memlayout(&class).unwrap();
    assert_eq!(layout.len(), 3);
    let mut addr = 0;
    for (left, right) in layout.iter() {
        assert_eq!(*left, addr);
        addr += blocks.get(right).unwrap().code.len() as u16;
    }
    assert_eq!(addr, size);
    assert_eq!(size, 13);
    assert_eq!(layout.get_by_right(&MAIN.to_string()), Some(&0));
    let names: Vec<&String> = layout.iter().map(|(_, name)| name).collect();
    assert_eq!(names, vec![MAIN, "foo()V", "g()V"]);
}

#[test]
fn lookup_table_points_at_the_methods() {
    let class = linked_class();
    let image = binarygen(&class).unwrap();
    let (lut, _, nameindex) = luts(&class).unwrap();
    let (layout, size) = memlayout(&class).unwrap();
    assert_eq!(lut.len(), 4 * (3 + 2));
    assert_eq!(image.len(), lut.len() + size as usize);
    assert_eq!(&image[..lut.len()], &lut[..]);
    for (addr, name) in layout.iter() {
        let k = *nameindex.get(name).unwrap() as usize;
        let entry = u16::from_be_bytes([image[4 * k], image[4 * k + 1]]);
        assert_eq!(entry as usize, lut.len() + *addr as usize);
    }
    assert_eq!(&image[20..26], &[0x12, 3, 0xb8, 0x00, 0x01, 0xff]);
    assert_eq!(&image[26..29], &[0x03, 0x57, 0xb1]);
    assert_eq!(&image[29..33], &[0x12, 4, 0x57, 0xb1]);
    assert_eq!(&image[12..20], &[0, 0, 0x03, 0xe8, 0xff, 0xff, 0xff, 0xff]);
}

#[test]
fn linked_operands_are_table_indices() {
    let class = linked_class();
    let image = binarygen(&class).unwrap();
    let (methods, ints) = (3, 2);
    let call = u16::from_be_bytes([image[23], image[24]]);
    assert!(call < methods);
    for at in [21, 30] {
        assert!(methods <= image[at] as u16 && (image[at] as u16) < methods + ints);
    }
    let (_, constmap, nameindex) = luts(&class).unwrap();
    assert!(constmap.values().all(|slot| methods <= *slot && *slot < methods + ints));
    assert!(nameindex.entries.iter().all(|entry| entry.1 < methods));
}

/// A class as a compiler writes it: with a constructor that calls the one of
/// its superclass, line numbers in the code, and the name of its source.
fn compiled_class_bytes() -> Vec<u8> {
    let pool = vec![
        method_ref(4, 16),
        method_ref(3, 17),
        class_ref(18),
        class_ref(19),
        utf8("<init>"),
        utf8("()V"),
        utf8("Code"),
        utf8("LineNumberTable"),
        utf8("main"),
        utf8("([Ljava/lang/String;)V"),
        utf8("f"),
        utf8("(I)I"),
        integer(1_000_000),
        utf8("SourceFile"),
        utf8("T.java"),
        name_and_type(5, 6),
        name_and_type(11, 12),
        utf8("T"),
        utf8("java/lang/Object"),
    ];
    let with_lines = |max_stack: u16, max_locals: u16, code: &[u8]| {
        let mut info = u2(max_stack);
        info.extend(u2(max_locals));
        info.extend_from_slice(&(code.len() as u32).to_be_bytes());
        info.extend_from_slice(code);
        info.extend(u2(0));
        info.extend(u2(1));
        info.extend(attribute(8, &[0, 1, 0, 0, 0, 1]));
        attribute(7, &info)
    };
    let methods = [
        method(5, 6, &[with_lines(1, 1, &[0x2a, 0xb7, 0x00, 0x01, 0xb1])]),
        method(9, 10, &[with_lines(1, 2, &[0x08, 0xb8, 0x00, 0x02, 0x3c, 0xb1])]),
        method(11, 12, &[with_lines(2, 1, &[0x1a, 0x12, 13, 0x60, 0xac])]),
    ];
    let mut bytes = class_bytes(&pool, &methods);
    bytes.truncate(bytes.len() - 2);
    bytes.extend(u2(1));
    bytes.extend(attribute(14, &[0, 15]));
    bytes
}

#[test]
fn class_as_a_compiler_writes_it_is_lowered() {
    let class = parse_classfile(&compiled_class_bytes()).unwrap();
    assert_eq!(class.constpool_count, 20);
    assert_eq!(class.methods_count, 3);
    assert_eq!(class.attributes_count, 1);
    let refs = methodrefs(&class).unwrap();
    assert_eq!(refs.len(), 2);
    assert_eq!(refs.get_by_left(&1), Some(&"<init>()V".to_string()));
    assert_eq!(refs.get_by_left(&2), Some(&"f(I)I".to_string()));
    let blocks = codeblocks(&class).unwrap();
    assert_eq!(blocks.len(), 3);
    assert_eq!(blocks.get("<init>()V").unwrap().code, vec![0x2a, 0xb7, 0x00, 0x01, 0xb1]);
    assert_eq!(blocks.get("f(I)I").unwrap().max_stack, 2);
    assert_eq!(
        binarygen(&class),
        Ok(vec![
            0x00, 0x0c, 0x00, 0x02, 0x00, 0x12, 0x01, 0x01, 0x00, 0x0f, 0x42, 0x40, 0x08, 0xb8,
            0x00, 0x01, 0x3c, 0xff, 0x1a, 0x12, 0x02, 0x60, 0xac
        ])
    );
}
