use bali_image::format::{decimal_string, hex_string, signed_decimal_string};
use bali_image::text::{chars_of, str_eq, str_lt};
use bali_image::{
    constoutput, fieldtype, memfile_text, method_listing, methodstring, parse_argcount,
    parse_classfile, transfer_frame, turnaround, BaliCode, BaliError, ConstPoolValue,
    MethodTable, CYCLE_BYTES,
};

#[test]
fn parameters_are_counted_without_array_marks() {
    assert_eq!(parse_argcount("()V"), Ok(0));
    assert_eq!(parse_argcount("(II)I"), Ok(2));
    assert_eq!(parse_argcount("add(II)I"), Ok(2));
    assert_eq!(parse_argcount("([I[[BZ)V"), Ok(3));
    assert_eq!(parse_argcount("main([Ljava/lang/String;)V"), Ok(18));
    assert_eq!(parse_argcount("(\u{e4}I)V"), Ok(2));
    assert_eq!(parse_argcount("f(I"), Ok(1));
}

#[test]
fn signature_without_parenthesis_has_no_parameters_to_count() {
    assert_eq!(parse_argcount("I"), Err(BaliError::BadDescriptor));
    assert_eq!(parse_argcount(""), Err(BaliError::BadDescriptor));
}

#[test]
fn more_parameters_than_sixteen_bits_count_are_an_error() {
    let fits = format!("({})V", "I".repeat(0xffff));
    assert_eq!(parse_argcount(&fits), Ok(0xffff));
    let too_many = format!("({})V", "I".repeat(0x10000));
    assert_eq!(parse_argcount(&too_many), Err(BaliError::BadDescriptor));
}

#[test]
fn types_are_spelt_by_their_letters() {
    assert_eq!(fieldtype("B"), Ok("byte".to_string()));
    assert_eq!(fieldtype("C"), Ok("char".to_string()));
    assert_eq!(fieldtype("I"), Ok("int".to_string()));
    assert_eq!(fieldtype("S"), Ok("short".to_string()));
    assert_eq!(fieldtype("V"), Ok("void".to_string()));
    assert_eq!(fieldtype("Z"), Ok("boolean".to_string()));
    assert_eq!(fieldtype("[B"), Ok("byte[]".to_string()));
    assert_eq!(fieldtype("[C"), Ok("char[]".to_string()));
    assert_eq!(fieldtype("[I"), Ok("int[]".to_string()));
    assert_eq!(fieldtype("[S"), Ok("short[]".to_string()));
    assert_eq!(fieldtype("[Z"), Ok("boolean[]".to_string()));
}

#[test]
fn other_types_are_an_error() {
    assert_eq!(fieldtype("[V"), Err(BaliError::BadDescriptor));
    assert_eq!(fieldtype("J"), Err(BaliError::BadDescriptor));
    assert_eq!(fieldtype(""), Err(BaliError::BadDescriptor));
    assert_eq!(fieldtype("II"), Err(BaliError::BadDescriptor));
    assert_eq!(fieldtype("[[I"), Err(BaliError::BadDescriptor));
}

#[test]
fn type_names_are_distinct() {
    let names: Vec<String> =
        ["B", "C", "I", "S", "V", "Z"].iter().map(|l| fieldtype(l).unwrap()).collect();
    for i in 0..names.len() {
        for j in 0..i {
            assert_ne!(names[i], names[j]);
        }
    }
}

#[test]
fn signatures_are_written_as_in_the_source() {
    assert_eq!(methodstring("add(II)I"), Ok("int add(int, int)".to_string()));
    assert_eq!(methodstring("f()V"), Ok("void f()".to_string()));
    assert_eq!(methodstring("g([I[ZS)[B"), Ok("byte[] g(int[], boolean[], short)".to_string()));
    assert_eq!(methodstring("h([[C)Z"), Ok("boolean h(char[])".to_string()));
    assert_eq!(methodstring("k(I[)V"), Ok("void k(int)".to_string()));
    assert_eq!(methodstring("m(I)V)rest"), Ok("void m(int)".to_string()));
    assert_eq!(methodstring("\u{fc}(B)C"), Ok("char \u{fc}(byte)".to_string()));
    assert_eq!(
        methodstring("main([Ljava/lang/String;)V"),
        Ok("void main(String[])".to_string())
    );
}

#[test]
fn signatures_that_cannot_be_written_are_an_error() {
    assert_eq!(methodstring("f"), Err(BaliError::BadDescriptor));
    assert_eq!(methodstring("f(I"), Err(BaliError::BadDescriptor));
    assert_eq!(methodstring("f(I)"), Err(BaliError::BadDescriptor));
    assert_eq!(methodstring("f(J)V"), Err(BaliError::BadDescriptor));
    assert_eq!(methodstring("f([V)V"), Err(BaliError::BadDescriptor));
    assert_eq!(methodstring("f(I)Ljava/lang/String;"), Err(BaliError::BadDescriptor));
    assert_eq!(methodstring("main([Ljava/lang/String;)I"), Err(BaliError::BadDescriptor));
}

#[test]
fn numbers_are_written_in_decimal_and_hexadecimal() {
    assert_eq!(decimal_string(0), "0");
    assert_eq!(decimal_string(7), "7");
    assert_eq!(decimal_string(65535), "65535");
    assert_eq!(decimal_string(u64::MAX), "18446744073709551615");
    assert_eq!(hex_string(0), "0");
    assert_eq!(hex_string(0xbeef), "beef");
    assert_eq!(hex_string(0x10), "10");
    assert_eq!(signed_decimal_string(0), "0");
    assert_eq!(signed_decimal_string(-1), "-1");
    assert_eq!(signed_decimal_string(i32::MAX), "2147483647");
    assert_eq!(signed_decimal_string(i32::MIN), "-2147483648");
}

#[test]
fn strings_are_ordered_by_their_bytes() {
    assert!(str_lt("a", "b"));
    assert!(str_lt("", "a"));
    assert!(str_lt("f(I)I", "f(II)I"));
    assert!(str_lt("Z", "a"));
    assert!(str_lt("z", "\u{e4}"));
    assert!(str_lt("\u{ffff}", "\u{10000}"));
    assert!(!str_lt("a", "a"));
    assert!(!str_lt("b", "a"));
    assert!(!str_lt("ab", "a"));
    assert!(str_eq("main", "main"));
    assert!(!str_eq("main", "mai"));
    assert!(!str_eq("main", "maim"));
    assert_eq!(chars_of("a\u{e4}\u{10000}"), vec!['a', '\u{e4}', '\u{10000}']);
}

#[test]
fn table_keeps_its_keys_in_order() {
    let mut table: MethodTable<u16> = MethodTable::new();
    for (i, key) in ["m", "b", "z", "a", "b", "ma"].iter().enumerate() {
        table.insert(key.to_string(), i as u16);
    }
    let entries: Vec<(&str, u16)> = table.entries.iter().map(|e| (e.0.as_str(), e.1)).collect();
    assert_eq!(entries, vec![("a", 3), ("b", 4), ("m", 0), ("ma", 5), ("z", 2)]);
    assert_eq!(table.len(), 5);
    assert_eq!(table.get("b"), Some(&4));
    assert_eq!(table.get("c"), None);
    assert_eq!(table.find("ma"), Some(3));
    assert_eq!(table.find(""), None);
    let mut sorted: Vec<String> = table.entries.iter().map(|e| e.0.clone()).collect();
    sorted.sort();
    let keys: Vec<String> = table.entries.iter().map(|e| e.0.clone()).collect();
    assert_eq!(keys, sorted);
}

fn u2(v: u16) -> Vec<u8> {
    v.to_be_bytes().to_vec()
}

fn utf8(text: &str) -> Vec<u8> {
    let mut entry = vec![1];
    entry.extend(u2(text.len() as u16));
    entry.extend_from_slice(text.as_bytes());
    entry
}

/// A class with the constants 1 `f`, 2 `(I)V`, 3 a name and type of the
/// two, 4 a method reference to it, 5 an integer, 6 a class, and no methods.
fn class_bytes() -> Vec<u8> {
    let mut bytes = vec![0xca, 0xfe, 0xba, 0xbe, 0, 0, 0, 52, 0, 7];
    bytes.extend(utf8("f"));
    bytes.extend(utf8("(I)V"));
    bytes.extend_from_slice(&[12, 0, 1, 0, 2]);
    bytes.extend_from_slice(&[10, 0, 6, 0, 3]);
    bytes.extend_from_slice(&[3, 0xff, 0xff, 0xff, 0xd6]);
    bytes.extend_from_slice(&[7, 0, 1]);
    bytes.extend_from_slice(&[0, 0x21, 0, 0, 0, 0, 0, 0, 0, 0, 0, 0, 0, 0]);
    bytes
}

#[test]
fn constants_are_shown_with_their_indices() {
    let class = parse_classfile(&class_bytes()).unwrap();
    let line = |index: u16, value: ConstPoolValue| constoutput(&class, &index, &value);
    assert_eq!(line(6, ConstPoolValue::Class(1)), Ok("6: 1".to_string()));
    assert_eq!(line(5, ConstPoolValue::Integer(-42)), Ok("5: -42".to_string()));
    assert_eq!(line(4, ConstPoolValue::MethodRef(6, 3)), Ok("4: f(I)V".to_string()));
    assert_eq!(line(3, ConstPoolValue::NameAndType(1, 2)), Ok("3: 1, 2".to_string()));
    assert_eq!(
        line(1, ConstPoolValue::UTF8String("f".to_string())),
        Ok("1: f".to_string())
    );
    assert_eq!(line(65535, ConstPoolValue::Class(0)), Ok("65535: 0".to_string()));
    assert_eq!(line(4, ConstPoolValue::MethodRef(6, 5)), Err(BaliError::BadReference));
}

#[test]
fn listing_shows_addresses_mnemonics_and_operands() {
    let class = parse_classfile(&class_bytes()).unwrap();
    let block = BaliCode {
        max_stack: 2,
        max_locals: 10,
        argcount: 0,
        code: vec![0x10, 0x0a, 0xb8, 0x00, 0x04, 0x11, 0x01, 0x02, 0xb1],
    };
    let expected = "stack size:                  2\n\
                    local variable array size:  10\n\
                    \n\
                    \x20 0: bipush          0x0a\n\
                    \x20 2: invokestatic    f(I)V\n\
                    \x20 5: sipush          0x0102\n\
                    \x20 8: return         \n";
    assert_eq!(method_listing(&class, &block), Ok(expected.to_string()));
}

#[test]
fn listing_of_long_code_has_wider_addresses() {
    let class = parse_classfile(&class_bytes()).unwrap();
    let mut code = vec![0u8; 0x1000];
    code.push(0xb1);
    let block = BaliCode { max_stack: 1000, max_locals: 0, argcount: 0, code };
    let text = method_listing(&class, &block).unwrap();
    assert!(text.starts_with("stack size:                1000\nlocal variable array size:   0\n\n"));
    assert!(text.contains("\n ff: nop            \n100: nop            \n"));
    assert!(text.ends_with("\n1000: return         \n"));
}

#[test]
fn listing_fails_where_the_code_cannot_be_read() {
    let class = parse_classfile(&class_bytes()).unwrap();
    let block = |code: Vec<u8>| BaliCode { max_stack: 0, max_locals: 0, argcount: 0, code };
    assert_eq!(method_listing(&class, &block(vec![0xfe])), Err(BaliError::UnknownOpcode));
    assert_eq!(method_listing(&class, &block(vec![0x10])), Err(BaliError::TruncatedCode));
    assert_eq!(
        method_listing(&class, &block(vec![0xb8, 0, 5])),
        Err(BaliError::UnresolvedMethod)
    );
}

#[test]
fn frame_starts_with_the_length() {
    assert_eq!(transfer_frame(&[7, 8, 9], false), Ok(vec![3, 7, 8, 9]));
    assert_eq!(transfer_frame(&[7, 8, 9], true), Ok(vec![3, 0, 7, 8, 9]));
    assert_eq!(transfer_frame(&[], false), Ok(vec![0]));
    let image = vec![0xaa; 0x1234];
    let frame = transfer_frame(&image, true).unwrap();
    assert_eq!(&frame[..2], &[0x34, 0x12]);
    assert_eq!(&frame[2..], &image[..]);
    assert_eq!(transfer_frame(&vec![0; 255], false).unwrap().len(), 256);
}

#[test]
fn length_that_does_not_fit_is_an_error() {
    assert_eq!(transfer_frame(&vec![0; 256], false), Err(BaliError::TransferTooLong));
    assert_eq!(transfer_frame(&vec![0; 0xffff], true).unwrap().len(), 0x10001);
    assert_eq!(transfer_frame(&vec![0; 0x10000], true), Err(BaliError::TransferTooLong));
}

#[test]
fn cycles_are_read_low_byte_first() {
    assert_eq!(turnaround(&[1, 2, 3, 4, 5, 6, 7, 8]), Some(0x0807060504030201));
    assert_eq!(turnaround(&[0x10, 0x27, 0, 0]), Some(10000));
    assert_eq!(turnaround(&[0xff; 8]), Some(u64::MAX));
    assert_eq!(turnaround(&[]), Some(0));
    assert_eq!(turnaround(&[0; 9]), None);
}

#[test]
fn image_is_written_in_hexadecimal_for_the_test_bench() {
    assert_eq!(memfile_text(&[]), "");
    assert_eq!(memfile_text(&[0x00, 0x04, 0x0a, 0xff]), "00 04 0a ff ");
}

#[test]
fn cycle_count_has_eight_bytes() {
    assert_eq!(CYCLE_BYTES, 8);
    assert_eq!(turnaround(&[1; CYCLE_BYTES]), Some(0x0101010101010101));
}
