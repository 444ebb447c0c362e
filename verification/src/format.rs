//! Numbers as text, and text padded to a width.

use vstd::prelude::*;

verus! {

/// The character of the digit `d`, lower case from ten on.
pub open spec fn digit_text(d: int) -> Seq<char> {
    if d == 0 {
        "0"@
    } else if d == 1 {
        "1"@
    } else if d == 2 {
        "2"@
    } else if d == 3 {
        "3"@
    } else if d == 4 {
        "4"@
    } else if d == 5 {
        "5"@
    } else if d == 6 {
        "6"@
    } else if d == 7 {
        "7"@
    } else if d == 8 {
        "8"@
    } else if d == 9 {
        "9"@
    } else if d == 10 {
        "a"@
    } else if d == 11 {
        "b"@
    } else if d == 12 {
        "c"@
    } else if d == 13 {
        "d"@
    } else if d == 14 {
        "e"@
    } else {
        "f"@
    }
}

/// `n` in decimal notation, without leading zeros.
pub open spec fn decimal(n: nat) -> Seq<char>
    decreases n,
{
    if n < 10 {
        digit_text(n as int)
    } else {
        decimal(n / 10) + digit_text((n % 10) as int)
    }
}

/// `n` in hexadecimal notation, in lower case and without leading zeros.
pub open spec fn hex(n: nat) -> Seq<char>
    decreases n,
{
    if n < 16 {
        digit_text(n as int)
    } else {
        hex(n / 16) + digit_text((n % 16) as int)
    }
}

/// `v` in decimal notation, with a minus sign where it is negative.
pub open spec fn signed_decimal(v: int) -> Seq<char> {
    if v < 0 {
        "-"@ + decimal((-v) as nat)
    } else {
        decimal(v as nat)
    }
}

/// `n` times the text `fill`.
pub open spec fn repeated(fill: Seq<char>, n: int) -> Seq<char>
    decreases n,
{
    if n <= 0 {
        Seq::empty()
    } else {
        repeated(fill, n - 1) + fill
    }
}

/// `text` with as many `fill` in front of it as it has characters less than
/// `width`.
pub open spec fn padded_left(text: Seq<char>, width: int, fill: Seq<char>) -> Seq<char> {
    repeated(fill, width - text.len()) + text
}

/// `text` with as many spaces behind it as it has characters less than
/// `width`.
pub open spec fn padded_right(text: Seq<char>, width: int) -> Seq<char> {
    text + repeated(" "@, width - text.len())
}

/// The text of the digit `d`.
fn digit_str(d: u64) -> (r: &'static str)
    requires
        d < 16,
    ensures
        r@ == digit_text(d as int),
{
    if d == 0 {
        "0"
    } else if d == 1 {
        "1"
    } else if d == 2 {
        "2"
    } else if d == 3 {
        "3"
    } else if d == 4 {
        "4"
    } else if d == 5 {
        "5"
    } else if d == 6 {
        "6"
    } else if d == 7 {
        "7"
    } else if d == 8 {
        "8"
    } else if d == 9 {
        "9"
    } else if d == 10 {
        "a"
    } else if d == 11 {
        "b"
    } else if d == 12 {
        "c"
    } else if d == 13 {
        "d"
    } else if d == 14 {
        "e"
    } else {
        "f"
    }
}

/// Appends `n` in decimal notation to `out`.
pub fn push_decimal(out: &mut String, n: u64)
    ensures
        final(out)@ == old(out)@ + decimal(n as nat),
    decreases n,
{
    if n >= 10 {
        push_decimal(out, n / 10);
        out.append(digit_str(n % 10));
        assert(out@ =~= old(out)@ + decimal(n as nat));
    } else {
        out.append(digit_str(n));
    }
}

/// Appends `n` in hexadecimal notation to `out`.
pub fn push_hex(out: &mut String, n: u64)
    ensures
        final(out)@ == old(out)@ + hex(n as nat),
    decreases n,
{
    if n >= 16 {
        push_hex(out, n / 16);
        out.append(digit_str(n % 16));
        assert(out@ =~= old(out)@ + hex(n as nat));
    } else {
        out.append(digit_str(n));
    }
}

/// `n` in decimal notation.
pub fn decimal_string(n: u64) -> (r: String)
    ensures
        r@ == decimal(n as nat),
{
    let mut out = String::new();
    push_decimal(&mut out, n);
    assert(out@ =~= decimal(n as nat));
    out
}

/// `n` in hexadecimal notation.
pub fn hex_string(n: u64) -> (r: String)
    ensures
        r@ == hex(n as nat),
{
    let mut out = String::new();
    push_hex(&mut out, n);
    assert(out@ =~= hex(n as nat));
    out
}

/// `v` in decimal notation.
pub fn signed_decimal_string(v: i32) -> (r: String)
    ensures
        r@ == signed_decimal(v as int),
{
    let mut out = String::new();
    if v < 0 {
        out.append("-");
        let magnitude: u64 = (0 - v as i64) as u64;
        push_decimal(&mut out, magnitude);
        assert(out@ =~= signed_decimal(v as int));
    } else {
        push_decimal(&mut out, v as u64);
        assert(out@ =~= signed_decimal(v as int));
    }
    out
}

/// Appends `n` times the text `fill` to `out`.
pub fn push_repeated(out: &mut String, fill: &str, n: usize)
    ensures
        final(out)@ == old(out)@ + repeated(fill@, n as int),
{
    let mut i: usize = 0;
    assert(out@ =~= old(out)@ + repeated(fill@, 0));
    while i < n
        invariant
            i <= n,
            out@ == old(out)@ + repeated(fill@, i as int),
        decreases n - i,
    {
        out.append(fill);
        i = i + 1;
        assert(out@ =~= old(out)@ + repeated(fill@, i as int));
    }
}

/// Appends `text` to `out`, behind as many `fill` as `text` has characters
/// less than `width`.
pub fn push_padded_left(out: &mut String, text: &str, width: usize, fill: &str)
    ensures
        final(out)@ == old(out)@ + padded_left(text@, width as int, fill@),
{
    let len = text.unicode_len();
    let missing: usize = if len < width {
        width - len
    } else {
        0
    };
    push_repeated(out, fill, missing);
    out.append(text);
    assert(repeated(fill@, missing as int) == repeated(fill@, width - text@.len()));
    assert(out@ =~= old(out)@ + padded_left(text@, width as int, fill@));
}

/// Appends `text` to `out`, and behind it as many spaces as `text` has
/// characters less than `width`.
pub fn push_padded_right(out: &mut String, text: &str, width: usize)
    ensures
        final(out)@ == old(out)@ + padded_right(text@, width as int),
{
    let len = text.unicode_len();
    let missing: usize = if len < width {
        width - len
    } else {
        0
    };
    out.append(text);
    push_repeated(out, " ", missing);
    assert(repeated(" "@, missing as int) == repeated(" "@, width - text@.len()));
    assert(out@ =~= old(out)@ + padded_right(text@, width as int));
}

} // verus!
