//! Writing bytes as hexadecimal digits, for listings of a stream.

use vstd::prelude::*;

verus! {

/// The sixteen hexadecimal digits, upper case.
pub open spec fn hex_digits() -> Seq<char> {
    seq!['0', '1', '2', '3', '4', '5', '6', '7', '8', '9', 'A', 'B', 'C', 'D', 'E', 'F']
}

/// The digit for a value below sixteen.
pub open spec fn hex_digit(x: u8) -> char {
    hex_digits()[x as int]
}

/// A byte in hexadecimal: the digit of its high half, then that of its low
/// half.
pub open spec fn hex_of(num: u8) -> Seq<char> {
    seq![hex_digit(num / 16), hex_digit(num % 16)]
}

/// The hexadecimal digit for a value below sixteen.
pub fn itoh(x: u8) -> (digit: char)
    requires
        x < 16,
    ensures
        digit == hex_digit(x),
{
    let hex_values: [char; 16] = [
        '0',
        '1',
        '2',
        '3',
        '4',
        '5',
        '6',
        '7',
        '8',
        '9',
        'A',
        'B',
        'C',
        'D',
        'E',
        'F',
    ];
    assert(hex_values@ =~= hex_digits());
    hex_values[x as usize]
}

/// Appends `c` to `word` with `String::push`.
///
/// Trusted: the string afterwards is the string before with `c` at its
/// end.
#[verifier::external_body]
fn push_char(word: &mut String, c: char)
    ensures
        final(word)@ == old(word)@.push(c),
{
    word.push(c);
}

/// Writes a byte as two hexadecimal digits.
pub fn convert_to_hex(num: u8) -> (word: String)
    ensures
        word@ == hex_of(num),
        word@.len() == 2,
{
    let mut word = String::new();
    push_char(&mut word, itoh(num / 16));
    push_char(&mut word, itoh(num % 16));
    assert(word@ =~= hex_of(num));
    word
}

} // verus!
