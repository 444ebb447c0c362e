//! The text that is shown of a class: its constants, the signatures of its
//! methods in the notation of the source language, and listings of their
//! bytecode.

use crate::bimaps::{ref_pairs, refs_get};
use crate::bytes::be16;
use crate::error::{is_result, BaliError};
use crate::format::{
    decimal, decimal_string, hex, hex_string, padded_left, padded_right, push_padded_left,
    push_padded_right, signed_decimal, signed_decimal_string,
};
use crate::opcodes::{lemma_args_at_most_two, op_entry, op_lookup, INVOKESTATIC};
use crate::pool::{
    constants, methodrefs, signature_in, spec_constants, spec_method_signature, spec_methodrefs,
};
use crate::signature::{find_paren, first_paren, MAIN_SIG};
use crate::structs::{
    BaliCode, BaliCodeView, ClassFile, ClassFileView, ConstPoolValue, ConstPoolValueView,
};
use crate::text::{chars_of, str_eq};
use bimap::BiMap;
use vstd::prelude::*;

verus! {

/// The name of the primitive type with the letter `c`.
pub open spec fn primitive_name(c: char) -> Option<Seq<char>> {
    if c == 'B' {
        Some("byte"@)
    } else if c == 'C' {
        Some("char"@)
    } else if c == 'I' {
        Some("int"@)
    } else if c == 'S' {
        Some("short"@)
    } else if c == 'V' {
        Some("void"@)
    } else if c == 'Z' {
        Some("boolean"@)
    } else {
        None
    }
}

/// The name of the type `c`, or of the array of it where `is_array` holds.
/// There are no arrays of `void`.
pub open spec fn type_text(c: char, is_array: bool) -> Option<Seq<char>> {
    match primitive_name(c) {
        None => None,
        Some(name) => if !is_array {
            Some(name)
        } else if c == 'V' {
            None
        } else {
            Some(name + "[]"@)
        },
    }
}

/// The name of the type with the descriptor `typeid`: one letter for a
/// primitive type, or `[` and one letter for an array of it.
pub open spec fn field_type(typeid: Seq<char>) -> Option<Seq<char>> {
    if typeid.len() == 1 {
        type_text(typeid[0], false)
    } else if typeid.len() == 2 && typeid[0] == '[' {
        type_text(typeid[1], true)
    } else {
        None
    }
}

/// The names of the parameter types in `params` from `pos` on, where
/// `is_array` says whether a `[` stands directly before `pos`.
///
/// Each character other than `[` is the letter of one parameter; one or
/// more `[` before it make it an array. A `[` that no letter follows is
/// passed over.
pub open spec fn param_types(params: Seq<char>, pos: int, is_array: bool) -> Option<Seq<Seq<char>>>
    decreases params.len() - pos,
{
    if pos < 0 || pos >= params.len() {
        Some(Seq::empty())
    } else if params[pos] == '[' {
        param_types(params, pos + 1, true)
    } else {
        match type_text(params[pos], is_array) {
            None => None,
            Some(name) => match param_types(params, pos + 1, false) {
                None => None,
                Some(rest) => Some(seq![name] + rest),
            },
        }
    }
}

/// The first `n` texts of `list`, with a comma and a space between each two.
pub open spec fn joined(list: Seq<Seq<char>>, n: int) -> Seq<char>
    decreases n,
{
    if n <= 0 {
        Seq::empty()
    } else if n == 1 {
        list[0]
    } else {
        joined(list, n - 1) + ", "@ + list[n - 1]
    }
}

/// The signature `sig` in the notation of the source language: the return
/// type, the name, and the parameter types in parentheses.
///
/// The name is what stands before the first parenthesis of `sig`, the
/// parameters stand between the first and the second, and the return type
/// stands between the second and the third, or the end of `sig`. The
/// signature of `main` is written as `void main(String[])`. It is an error
/// where `sig` has less than two parentheses or names a type that is not a
/// primitive type or an array of one.
pub open spec fn spec_methodstring(sig: Seq<char>) -> Result<Seq<char>, BaliError> {
    if sig == MAIN_SIG@ {
        Ok("void main(String[])"@)
    } else {
        let open = first_paren(sig, 0);
        let close = first_paren(sig, open + 1);
        let end = first_paren(sig, close + 1);
        if close >= sig.len() {
            Err(BaliError::BadDescriptor)
        } else {
            match (
                field_type(sig.subrange(close + 1, end)),
                param_types(sig.subrange(open + 1, close), 0, false),
            ) {
                (Some(returntype), Some(params)) => Ok(
                    returntype + " "@ + sig.subrange(0, open) + "("@ + joined(
                        params,
                        params.len() as int,
                    ) + ")"@,
                ),
                _ => Err(BaliError::BadDescriptor),
            }
        }
    }
}

/// Two letters with the same name are the same letter.
pub proof fn lemma_type_names_distinct(a: char, b: char)
    requires
        primitive_name(a) is Some,
        primitive_name(a) == primitive_name(b),
    ensures
        a == b,
{
    reveal_strlit("byte");
    reveal_strlit("char");
    reveal_strlit("int");
    reveal_strlit("short");
    reveal_strlit("void");
    reveal_strlit("boolean");
    let name = primitive_name(a)->Some_0;
    assert(name.len() == primitive_name(b)->Some_0.len());
    assert(name[0] == primitive_name(b)->Some_0[0]);
}

/// Whether `c` is the letter of a primitive type.
pub open spec fn is_primitive_letter(c: char) -> bool {
    c == 'B' || c == 'C' || c == 'I' || c == 'S' || c == 'V' || c == 'Z'
}

/// Whether `name` is the name of a primitive type.
pub open spec fn is_primitive_name(name: Seq<char>) -> bool {
    name == "byte"@ || name == "char"@ || name == "int"@ || name == "short"@ || name == "void"@
        || name == "boolean"@
}

/// The letters of the six primitive types and the six names correspond one
/// to one: each letter has a name, each name is that of a letter, and of one
/// letter only.
pub proof fn lemma_type_names_bijective()
    ensures
        forall|c: char| is_primitive_letter(c) <==> #[trigger] primitive_name(c) is Some,
        forall|c: char|
            is_primitive_letter(c) ==> is_primitive_name(#[trigger] primitive_name(c)->Some_0),
        forall|name: Seq<char>| #[trigger]
            is_primitive_name(name) ==> exists|c: char|
                is_primitive_letter(c) && #[trigger] primitive_name(c) == Some(name),
        forall|a: char, b: char|
            is_primitive_letter(a) && #[trigger] primitive_name(a) == #[trigger] primitive_name(b)
                ==> a == b,
{
    assert forall|name: Seq<char>| #[trigger] is_primitive_name(name) implies exists|c: char|
        is_primitive_letter(c) && #[trigger] primitive_name(c) == Some(name) by {
        let c = if name == "byte"@ {
            'B'
        } else if name == "char"@ {
            'C'
        } else if name == "int"@ {
            'I'
        } else if name == "short"@ {
            'S'
        } else if name == "void"@ {
            'V'
        } else {
            'Z'
        };
        assert(is_primitive_letter(c) && primitive_name(c) == Some(name));
    }
    assert forall|a: char, b: char|
        is_primitive_letter(a) && #[trigger] primitive_name(a) == #[trigger] primitive_name(
            b,
        ) implies a == b by {
        lemma_type_names_distinct(a, b);
    }
}

/// The name of the type `c`, or of the array of it.
fn type_string(c: char, is_array: bool) -> (r: Option<String>)
    ensures
        match r {
            Some(name) => type_text(c, is_array) == Some(name@),
            None => type_text(c, is_array) is None,
        },
{
    let name: &'static str = if c == 'B' {
        "byte"
    } else if c == 'C' {
        "char"
    } else if c == 'I' {
        "int"
    } else if c == 'S' {
        "short"
    } else if c == 'V' {
        "void"
    } else if c == 'Z' {
        "boolean"
    } else {
        return None;
    };
    if is_array && c == 'V' {
        return None;
    }
    let mut text = String::from_str(name);
    if is_array {
        text.append("[]");
    }
    Some(text)
}

/// The name of the type with the descriptor in `chars` from `from` up to
/// `to`.
fn type_of(chars: &Vec<char>, from: usize, to: usize) -> (r: Option<String>)
    requires
        from <= to <= chars@.len(),
    ensures
        match r {
            Some(name) => field_type(chars@.subrange(from as int, to as int)) == Some(name@),
            None => field_type(chars@.subrange(from as int, to as int)) is None,
        },
{
    if to - from == 1 {
        type_string(chars[from], false)
    } else if to - from == 2 && chars[from] == '[' {
        type_string(chars[from + 1], true)
    } else {
        None
    }
}

/// Spells the name of a type from its descriptor: `int` for `I`, `int[]`
/// for `[I`, and so on for the primitive types.
pub fn fieldtype(typeid: &str) -> (r: Result<String, BaliError>)
    ensures
        match r {
            Ok(name) => field_type(typeid@) == Some(name@),
            Err(e) => field_type(typeid@) is None && e == BaliError::BadDescriptor,
        },
{
    let chars = chars_of(typeid);
    assert(chars@.subrange(0, chars@.len() as int) =~= chars@);
    match type_of(&chars, 0, chars.len()) {
        Some(name) => Ok(name),
        None => Err(BaliError::BadDescriptor),
    }
}

/// `list` put before the texts that were spelt for what follows.
pub open spec fn types_after(list: Seq<Seq<char>>, rest: Option<Seq<Seq<char>>>) -> Option<
    Seq<Seq<char>>,
> {
    match rest {
        Some(more) => Some(list + more),
        None => None,
    }
}

/// Spells the parameter types in `chars` from `from` up to `to`, with a
/// comma and a space between each two.
fn param_string(chars: &Vec<char>, from: usize, to: usize) -> (r: Option<String>)
    requires
        from <= to <= chars@.len(),
    ensures
        match r {
            Some(text) => {
                let list = param_types(chars@.subrange(from as int, to as int), 0, false);
                list is Some && text@ == joined(list->Some_0, list->Some_0.len() as int)
            },
            None => param_types(chars@.subrange(from as int, to as int), 0, false) is None,
        },
{
    let ghost params = chars@.subrange(from as int, to as int);
    let ghost mut list: Seq<Seq<char>> = Seq::empty();
    let mut text = String::new();
    let mut first = true;
    let mut is_array = false;
    let mut i: usize = from;
    assert(joined(list, 0) =~= Seq::<char>::empty());
    while i < to
        invariant
            from <= i <= to <= chars@.len(),
            params == chars@.subrange(from as int, to as int),
            first == (list.len() == 0),
            text@ == joined(list, list.len() as int),
            param_types(params, 0, false) == types_after(
                list,
                param_types(params, i - from, is_array),
            ),
        decreases to - i,
    {
        let c = chars[i];
        assert(params[i - from] == c);
        if c == '[' {
            is_array = true;
        } else {
            let name = match type_string(c, is_array) {
                Some(name) => name,
                None => {
                    return None;
                },
            };
            if !first {
                text.append(", ");
            }
            text.append(name.as_str());
            proof {
                let rest = param_types(params, i + 1 - from, false);
                if rest is Some {
                    assert(list + (seq![name@] + rest->Some_0) =~= list.push(name@)
                        + rest->Some_0);
                }
                let longer = list.push(name@);
                lemma_joined_prefix(list, longer, list.len() as int);
                if list.len() == 0 {
                    assert(text@ =~= name@);
                }
                list = longer;
            }
            first = false;
            is_array = false;
        }
        i = i + 1;
    }
    assert(list + Seq::<Seq<char>>::empty() =~= list);
    Some(text)
}

/// The first texts of a list are joined alike, whatever follows them.
proof fn lemma_joined_prefix(a: Seq<Seq<char>>, b: Seq<Seq<char>>, n: int)
    requires
        n <= a.len(),
        n <= b.len(),
        forall|i: int| 0 <= i < n ==> a[i] == b[i],
    ensures
        joined(a, n) == joined(b, n),
    decreases n,
{
    if n > 1 {
        lemma_joined_prefix(a, b, n - 1);
    }
}

/// Writes a signature in the notation of the source language, as in
/// `int add(int, int)` for `add(II)I`.
pub fn methodstring(sig: &str) -> (r: Result<String, BaliError>)
    ensures
        is_result(r, spec_methodstring(sig@)),
{
    if str_eq(sig, MAIN_SIG) {
        return Ok(String::from_str("void main(String[])"));
    }
    let chars = chars_of(sig);
    let open = find_paren(&chars, 0);
    if open >= chars.len() {
        return Err(BaliError::BadDescriptor);
    }
    let close = find_paren(&chars, open + 1);
    if close >= chars.len() {
        return Err(BaliError::BadDescriptor);
    }
    let end = find_paren(&chars, close + 1);
    let returntype = match type_of(&chars, close + 1, end) {
        Some(returntype) => returntype,
        None => {
            return Err(BaliError::BadDescriptor);
        },
    };
    let params = match param_string(&chars, open + 1, close) {
        Some(params) => params,
        None => {
            return Err(BaliError::BadDescriptor);
        },
    };
    let name = sig.substring_char(0, open);
    let mut text = returntype;
    text.append(" ");
    text.append(name);
    text.append("(");
    text.append(params.as_str());
    text.append(")");
    Ok(text)
}

/// The line that is shown of the constant `value` with the pool index
/// `index`: the index, a colon and a space, and then the number of a class
/// or an integer, the signature of a method reference, the two indices of a
/// name-and-type pair, or the text of a UTF-8 constant.
pub open spec fn constant_line(
    pool: Map<u16, ConstPoolValueView>,
    index: u16,
    value: ConstPoolValueView,
) -> Result<Seq<char>, BaliError> {
    let head = decimal(index as nat) + ": "@;
    match value {
        ConstPoolValueView::Class(name_ref) => Ok(head + decimal(name_ref as nat)),
        ConstPoolValueView::Integer(int_const) => Ok(head + signed_decimal(int_const as int)),
        ConstPoolValueView::MethodRef(_, desc_ref) => match spec_method_signature(pool, desc_ref) {
            Ok(signature) => Ok(head + signature),
            Err(e) => Err(e),
        },
        ConstPoolValueView::NameAndType(name_ref, type_ref) => Ok(
            head + decimal(name_ref as nat) + ", "@ + decimal(type_ref as nat),
        ),
        ConstPoolValueView::UTF8String(str_const) => Ok(head + str_const),
    }
}

/// Writes the line that is shown of one constant of the pool.
pub fn constoutput(classinfo: &ClassFile, index: &u16, value: &ConstPoolValue) -> (r: Result<
    String,
    BaliError,
>)
    requires
        classinfo@.pool_wf(),
    ensures
        is_result(r, constant_line(spec_constants(classinfo@), *index, value@)),
{
    let mut line = decimal_string(*index as u64);
    line.append(": ");
    match value {
        ConstPoolValue::Class(name_ref) => {
            line.append(decimal_string(*name_ref as u64).as_str());
        },
        ConstPoolValue::Integer(int_const) => {
            line.append(signed_decimal_string(*int_const).as_str());
        },
        ConstPoolValue::MethodRef(_, desc_ref) => {
            let constpool = constants(classinfo);
            let signature = signature_in(&constpool, *desc_ref)?;
            line.append(signature.as_str());
        },
        ConstPoolValue::NameAndType(name_ref, type_ref) => {
            line.append(decimal_string(*name_ref as u64).as_str());
            line.append(", ");
            line.append(decimal_string(*type_ref as u64).as_str());
        },
        ConstPoolValue::UTF8String(str_const) => {
            line.append(str_const.as_str());
        },
    }
    Ok(line)
}

/// `text` put before the text that was written for what follows.
pub open spec fn text_after(text: Seq<char>, rest: Result<Seq<char>, BaliError>) -> Result<
    Seq<char>,
    BaliError,
> {
    match rest {
        Ok(more) => Ok(text + more),
        Err(e) => Err(e),
    }
}

/// The two lines at the head of a listing, with the sizes of the stack and
/// of the local variables, and the empty line behind them.
pub open spec fn listing_head(block: BaliCodeView) -> Seq<char> {
    "stack size:                "@ + padded_left(decimal(block.max_stack as nat), 3, " "@) + "\n"@
        + "local variable array size: "@ + padded_left(
        decimal(block.max_locals as nat),
        3,
        " "@,
    ) + "\n\n"@
}

/// The start of the line for the instruction at `pos`: its address in
/// hexadecimal notation and its mnemonic.
pub open spec fn line_start(pos: int, mnemonic: Seq<char>) -> Seq<char> {
    padded_left(hex(pos as nat), 3, " "@) + ": "@ + padded_right(mnemonic, 15)
}

/// The line of a listing for the instruction of `code` at `pos`.
///
/// It holds the address of the instruction, its mnemonic, and its operand
/// in hexadecimal notation with two or four digits. The operand of
/// `invokestatic` is written as the signature that `refs` holds for it.
/// It is an error where the opcode is not in the opcode table, where
/// `code` ends within the operands, and where `refs` holds nothing for the
/// operand of `invokestatic`.
pub open spec fn listing_line(refs: Map<u16, Seq<char>>, code: Seq<u8>, pos: int) -> Result<
    Seq<char>,
    BaliError,
> {
    match op_entry(code[pos]) {
        None => Err(BaliError::UnknownOpcode),
        Some((mnemonic, args)) => {
            if pos + 1 + args > code.len() {
                Err(BaliError::TruncatedCode)
            } else if args == 0 {
                Ok(line_start(pos, mnemonic) + "\n"@)
            } else if args == 1 {
                Ok(
                    line_start(pos, mnemonic) + " 0x"@ + padded_left(
                        hex(code[pos + 1] as nat),
                        2,
                        "0"@,
                    ) + "\n"@,
                )
            } else if code[pos] == INVOKESTATIC {
                if refs.contains_key(be16(code, pos + 1) as u16) {
                    Ok(line_start(pos, mnemonic) + " "@ + refs[be16(code, pos + 1) as u16] + "\n"@)
                } else {
                    Err(BaliError::UnresolvedMethod)
                }
            } else {
                Ok(
                    line_start(pos, mnemonic) + " 0x"@ + padded_left(
                        hex(be16(code, pos + 1) as nat),
                        4,
                        "0"@,
                    ) + "\n"@,
                )
            }
        },
    }
}

/// The lines of a listing for the instructions of `code` from `pos` on.
pub open spec fn listing_from(refs: Map<u16, Seq<char>>, code: Seq<u8>, pos: int) -> Result<
    Seq<char>,
    BaliError,
>
    decreases code.len() - pos,
{
    if pos < 0 || pos >= code.len() {
        Ok(Seq::empty())
    } else {
        match listing_line(refs, code, pos) {
            Err(e) => Err(e),
            Ok(line) => text_after(
                line,
                listing_from(refs, code, pos + 1 + op_entry(code[pos])->Some_0.1),
            ),
        }
    }
}

/// The listing of the method `block` of `class`.
pub open spec fn spec_listing(class: ClassFileView, block: BaliCodeView) -> Result<
    Seq<char>,
    BaliError,
> {
    match spec_methodrefs(class) {
        Err(e) => Err(e),
        Ok(refs) => text_after(listing_head(block), listing_from(refs, block.code, 0)),
    }
}

/// Appends the line for the instruction of `code` at `pos` to `out`.
fn push_line(out: &mut String, refs: &BiMap<u16, String>, code: &Vec<u8>, pos: usize) -> (r: Result<
    usize,
    BaliError,
>)
    requires
        pos < code@.len(),
    ensures
        match r {
            Ok(next) => {
                &&& listing_line(ref_pairs(*refs), code@, pos as int) is Ok
                &&& final(out)@ == old(out)@ + listing_line(
                    ref_pairs(*refs),
                    code@,
                    pos as int,
                )->Ok_0
                &&& next == pos + 1 + op_entry(code@[pos as int])->Some_0.1
                &&& next <= code@.len()
            },
            Err(e) => listing_line(ref_pairs(*refs), code@, pos as int) == Err::<
                Seq<char>,
                BaliError,
            >(e),
        },
{
    let (mnemonic, args) = match op_lookup(code[pos]) {
        Some(entry) => entry,
        None => {
            return Err(BaliError::UnknownOpcode);
        },
    };
    if code.len() - pos - 1 < args as usize {
        return Err(BaliError::TruncatedCode);
    }
    let mut line = String::new();
    push_padded_left(&mut line, hex_string(pos as u64).as_str(), 3, " ");
    line.append(": ");
    push_padded_right(&mut line, mnemonic, 15);
    assert(line@ =~= line_start(pos as int, mnemonic@));
    if args == 0 {
    } else if args == 1 {
        line.append(" 0x");
        push_padded_left(&mut line, hex_string(code[pos + 1] as u64).as_str(), 2, "0");
    } else {
        let arg: u16 = (code[pos + 1] as u16) * 256 + code[pos + 2] as u16;
        if code[pos] == INVOKESTATIC {
            match refs_get(refs, arg) {
                Some(signature) => {
                    line.append(" ");
                    line.append(signature.as_str());
                },
                None => {
                    return Err(BaliError::UnresolvedMethod);
                },
            }
        } else {
            line.append(" 0x");
            push_padded_left(&mut line, hex_string(arg as u64).as_str(), 4, "0");
        }
    }
    line.append("\n");
    out.append(line.as_str());
    proof {
        lemma_args_at_most_two(code@[pos as int]);
    }
    Ok(pos + 1 + args as usize)
}

/// Writes the listing of a method: the sizes of its stack and of its local
/// variables, and a line for each instruction of its bytecode.
pub fn method_listing(classinfo: &ClassFile, code_info: &BaliCode) -> (r: Result<String, BaliError>)
    requires
        classinfo@.pool_wf(),
    ensures
        is_result(r, spec_listing(classinfo@, code_info@)),
{
    let refs = methodrefs(classinfo)?;
    let mut out = String::from_str("stack size:                ");
    push_padded_left(&mut out, decimal_string(code_info.max_stack as u64).as_str(), 3, " ");
    out.append("\n");
    out.append("local variable array size: ");
    push_padded_left(&mut out, decimal_string(code_info.max_locals as u64).as_str(), 3, " ");
    out.append("\n\n");
    let ghost head = out@;
    assert(head =~= listing_head(code_info@));
    let ghost pairs = ref_pairs(refs);
    let mut pos: usize = 0;
    assert(out@ =~= head + Seq::<char>::empty());
    let ghost mut lines: Seq<char> = Seq::empty();
    while pos < code_info.code.len()
        invariant
            pos <= code_info.code@.len(),
            pairs == ref_pairs(refs),
            spec_listing(classinfo@, code_info@) == text_after(
                head,
                listing_from(pairs, code_info.code@, 0),
            ),
            out@ == head + lines,
            listing_from(pairs, code_info.code@, 0) == text_after(
                lines,
                listing_from(pairs, code_info.code@, pos as int),
            ),
        decreases code_info.code@.len() - pos,
    {
        let ghost before = out@;
        let next = push_line(&mut out, &refs, &code_info.code, pos)?;
        proof {
            let line = listing_line(pairs, code_info.code@, pos as int)->Ok_0;
            let rest = listing_from(pairs, code_info.code@, next as int);
            if rest is Ok {
                assert(lines + (line + rest->Ok_0) =~= lines + line + rest->Ok_0);
            }
            assert(out@ =~= head + (lines + line));
            lines = lines + line;
        }
        pos = next;
    }
    assert(lines + Seq::<char>::empty() =~= lines);
    Ok(out)
}

/// The first `n` bytes of `image` as text: each byte in two hexadecimal
/// digits, with a space behind it.
pub open spec fn memfile_upto(image: Seq<u8>, n: int) -> Seq<char>
    decreases n,
{
    if n <= 0 {
        Seq::empty()
    } else {
        memfile_upto(image, n - 1) + padded_left(hex(image[n - 1] as nat), 2, "0"@) + " "@
    }
}

/// Writes an image as the text that a test bench loads into its memory:
/// each byte in two hexadecimal digits, with a space behind it.
pub fn memfile_text(image: &[u8]) -> (text: String)
    ensures
        text@ == memfile_upto(image@, image@.len() as int),
{
    let mut text = String::new();
    let mut i: usize = 0;
    assert(text@ =~= memfile_upto(image@, 0));
    while i < image.len()
        invariant
            i <= image@.len(),
            text@ == memfile_upto(image@, i as int),
        decreases image@.len() - i,
    {
        push_padded_left(&mut text, hex_string(image[i] as u64).as_str(), 2, "0");
        text.append(" ");
        i = i + 1;
    }
    text
}

} // verus!
