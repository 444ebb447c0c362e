//! Method signatures: a method's name followed by its descriptor, as in
//! `add(II)I`.

use crate::error::BaliError;
use crate::text::chars_of;
use vstd::prelude::*;

verus! {

/// The signature of the constructor, which the image leaves out.
pub const INIT_SIG: &'static str = "<init>()V";

/// The signature of the method at which the program starts.
pub const MAIN_SIG: &'static str = "main([Ljava/lang/String;)V";

/// Whether `c` opens or closes a parameter list.
pub open spec fn is_paren(c: char) -> bool {
    c == '(' || c == ')'
}

/// The index of the first parenthesis of `s` at or behind `from`, or the
/// length of `s` where none follows.
pub open spec fn first_paren(s: Seq<char>, from: int) -> int
    decreases s.len() - from,
{
    if from < 0 || from >= s.len() {
        s.len() as int
    } else if is_paren(s[from]) {
        from
    } else {
        first_paren(s, from + 1)
    }
}

/// The text between the first parenthesis of `s` and the next one, or the
/// end of `s` where no second one follows. `None` where `s` has no
/// parenthesis.
pub open spec fn parameter_text(s: Seq<char>) -> Option<Seq<char>> {
    let open = first_paren(s, 0);
    if open >= s.len() {
        None
    } else {
        Some(s.subrange(open + 1, first_paren(s, open + 1)))
    }
}

/// The number of characters of `params` other than `[`.
pub open spec fn count_params(params: Seq<char>) -> nat
    decreases params.len(),
{
    if params.len() == 0 {
        0
    } else {
        let last: nat = if params.last() == '[' {
            0
        } else {
            1
        };
        count_params(params.drop_last()) + last
    }
}

/// The number of parameters that the descriptor in `sig` declares.
///
/// Each character of the parameter list counts as one parameter, but for the
/// `[` that marks an array. A signature without a parameter list is an
/// error, and so is one with more parameters than sixteen bits can count.
pub open spec fn spec_argcount(sig: Seq<char>) -> Result<u16, BaliError> {
    match parameter_text(sig) {
        None => Err(BaliError::BadDescriptor),
        Some(params) => if count_params(params) > u16::MAX {
            Err(BaliError::BadDescriptor)
        } else {
            Ok(count_params(params) as u16)
        },
    }
}

/// The index of the first parenthesis at or behind `from`.
pub(crate) fn find_paren(s: &Vec<char>, from: usize) -> (r: usize)
    requires
        from <= s@.len(),
    ensures
        r == first_paren(s@, from as int),
        from <= r <= s@.len(),
{
    let mut i: usize = from;
    while i < s.len() && s[i] != '(' && s[i] != ')'
        invariant
            from <= i <= s@.len(),
            first_paren(s@, from as int) == first_paren(s@, i as int),
        decreases s@.len() - i,
    {
        i = i + 1;
    }
    i
}

/// Counts the parameters of the descriptor in `method_sig`.
pub fn parse_argcount(method_sig: &str) -> (r: Result<u16, BaliError>)
    ensures
        r == spec_argcount(method_sig@),
{
    let s = chars_of(method_sig);
    let open = find_paren(&s, 0);
    if open >= s.len() {
        return Err(BaliError::BadDescriptor);
    }
    let close = find_paren(&s, open + 1);
    let ghost params = s@.subrange(open + 1, close as int);
    let mut count: usize = 0;
    let mut i: usize = open + 1;
    assert(params.take(0) =~= Seq::<char>::empty());
    while i < close
        invariant
            open + 1 <= i <= close <= s@.len(),
            params == s@.subrange(open + 1, close as int),
            count == count_params(params.take(i - (open + 1))),
            count <= i,
        decreases close - i,
    {
        assert(params.take(i + 1 - (open + 1)).drop_last() =~= params.take(i - (open + 1)));
        assert(params.take(i + 1 - (open + 1)).last() == s@[i as int]);
        if s[i] != '[' {
            count = count + 1;
        }
        i = i + 1;
    }
    assert(params.take(close - (open + 1)) =~= params);
    if count > 0xffff {
        Err(BaliError::BadDescriptor)
    } else {
        Ok(count as u16)
    }
}

} // verus!
