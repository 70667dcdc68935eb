//! Small text helpers shared by the lexer, the parser and the code emitter:
//! appending single characters to a `String`, decimal rendering of integers,
//! character-wise string comparison, and upper-casing.

use vstd::prelude::*;
use vstd::string::StrSliceExecFns;

verus! {

/// Relies on `String::push`: appends exactly the one character.
#[verifier::external_body]
pub fn push_char(s: &mut String, c: char)
    ensures
        final(s)@ == old(s)@.push(c),
{
    s.push(c);
}

/// What `str::to_uppercase` returns; the result depends on the characters of
/// the input alone.
pub uninterp spec fn upper_of(s: Seq<char>) -> Seq<char>;

/// The ASCII uppercase counterpart of a character: `a` through `z` map to
/// `A` through `Z`, everything else is unchanged.
pub open spec fn spec_ascii_upper(c: char) -> char {
    if 97 <= c as u32 && c as u32 <= 122 {
        ((c as u32 - 32) as u8) as char
    } else {
        c
    }
}

/// Relies on `str::to_uppercase`: a fixed mapping of the input characters;
/// on all-ASCII input it is documented to map each character to its ASCII
/// uppercase, one to one.
#[verifier::external_body]
pub fn to_uppercase_str(s: &str) -> (r: String)
    ensures
        r@ == upper_of(s@),
        (forall|i: int| 0 <= i < s@.len() ==> (#[trigger] s@[i] as u32) < 128) ==> (r@.len()
            == s@.len() && (forall|i: int|
            0 <= i < s@.len() ==> r@[i] == spec_ascii_upper(#[trigger] s@[i]))),
{
    s.to_uppercase()
}

/// The decimal digit character for a value below ten.
pub open spec fn spec_digit(d: nat) -> char {
    ((48 + d) as u8) as char
}

/// The decimal rendering of a number, most significant digit first.
pub open spec fn spec_dec(n: nat) -> Seq<char>
    decreases n,
{
    if n < 10 {
        seq![spec_digit(n)]
    } else {
        spec_dec(n / 10).push(spec_digit(n % 10))
    }
}

/// Renders a number in decimal.
pub fn dec_u64(n: u64) -> (r: String)
    ensures
        r@ == spec_dec(n as nat),
    decreases n,
{
    if n < 10 {
        let mut s = String::new();
        push_char(&mut s, ((48 + n) as u8) as char);
        assert(s@ =~= spec_dec(n as nat));
        s
    } else {
        let mut s = dec_u64(n / 10);
        push_char(&mut s, ((48 + n % 10) as u8) as char);
        assert(s@ =~= spec_dec(n as nat));
        s
    }
}

/// Renders a number in decimal.
pub fn dec_u32(n: u32) -> (r: String)
    ensures
        r@ == spec_dec(n as nat),
    decreases n,
{
    if n < 10 {
        let mut s = String::new();
        push_char(&mut s, ((48 + n) as u8) as char);
        assert(s@ =~= spec_dec(n as nat));
        s
    } else {
        let mut s = dec_u32(n / 10);
        push_char(&mut s, ((48 + n % 10) as u8) as char);
        assert(s@ =~= spec_dec(n as nat));
        s
    }
}

/// Every character of the text is an ASCII decimal digit.
pub open spec fn all_digits(s: Seq<char>) -> bool {
    forall|i: int| 0 <= i < s.len() ==> crate::lexer::spec_digit_char(#[trigger] s[i])
}

/// The numeric value of one digit character; zero for anything else.
pub open spec fn spec_digit_val(c: char) -> nat {
    if crate::lexer::spec_digit_char(c) {
        (c as u32 - 48) as nat
    } else {
        0
    }
}

/// The value of a decimal digit string, most significant digit first.
pub open spec fn spec_dec_val(s: Seq<char>) -> nat
    decreases s.len(),
{
    if s.len() == 0 {
        0
    } else {
        spec_dec_val(s.drop_last()) * 10 + spec_digit_val(s.last())
    }
}

/// Character-wise string equality, equivalent to equality of the views.
pub fn str_equal(a: &str, b: &str) -> (r: bool)
    ensures
        r == (a@ == b@),
{
    let la = a.unicode_len();
    let lb = b.unicode_len();
    if la != lb {
        return false;
    }
    let mut i: usize = 0;
    while i < la
        invariant
            la == a@.len(),
            la == b@.len(),
            0 <= i <= la,
            forall|k: int| 0 <= k < i ==> a@[k] == b@[k],
        decreases la - i,
    {
        if a.get_char(i) != b.get_char(i) {
            return false;
        }
        i = i + 1;
    }
    proof {
        assert(a@ =~= b@);
    }
    true
}

} // verus!
