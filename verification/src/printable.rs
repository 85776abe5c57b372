//! The printable form of a seed, for diagnostics: eight groups of four bytes
//! in hexadecimal, on two lines.

use vstd::prelude::*;

verus! {

/// The number of characters in the printable form of a seed: eight groups of
/// eight digits, and one separator between each group and the next.
pub const PRINTABLE_LEN: usize = 71;

/// The lower-case hexadecimal digit for a value below sixteen.
pub open spec fn hex_digit(value: int) -> char
    recommends
        0 <= value < 16,
{
    "0123456789abcdef"@[value]
}

/// The separator between group `group`, counted from zero, and the group
/// after it: a line break after the fourth group, a space elsewhere.
pub open spec fn separator_after(group: int) -> char
    recommends
        0 <= group < 7,
{
    if group == 3 {
        '\n'
    } else {
        ' '
    }
}

/// The character at place `at` of the printable form of `seed`. A group and
/// the separator after it take nine places: two digits for each of the four
/// bytes, high digit first, then the separator. Nothing follows the eighth
/// group, the last.
pub open spec fn printable_char(seed: Seq<u8>, at: int) -> char
    recommends
        seed.len() == 32,
        0 <= at < 71,
{
    let group = at / 9;
    let place = at % 9;
    if place == 8 {
        separator_after(group)
    } else {
        let byte = seed[4 * group + place / 2];
        if place % 2 == 0 {
            hex_digit(byte as int / 16)
        } else {
            hex_digit(byte as int % 16)
        }
    }
}

/// The printable form of a seed of 32 bytes.
pub open spec fn printable_seed(seed: Seq<u8>) -> Seq<char>
    recommends
        seed.len() == 32,
{
    Seq::new(PRINTABLE_LEN as nat, |at: int| printable_char(seed, at))
}

/// Appends the hexadecimal digit of `value` to `text`.
fn push_hex_digit(text: &mut String, value: u8)
    requires
        value < 16,
    ensures
        final(text)@ == old(text)@.push(hex_digit(value as int)),
{
    let digits = "0123456789abcdef";
    proof {
        reveal_strlit("0123456789abcdef");
    }
    let at = value as usize;
    let digit = digits.substring_ascii(at, at + 1);
    assert(digit@ =~= seq![hex_digit(value as int)]);
    text.append(digit);
    assert(text@ =~= old(text)@.push(hex_digit(value as int)));
}

/// The printable form of `seed`: eight groups of four bytes, each byte as
/// two lower-case hexadecimal digits. The groups are separated by spaces,
/// but for a line break after the fourth group; nothing follows the last.
pub fn get_printable_rseed(seed: &[u8; 32]) -> (text: String)
    ensures
        text@ == printable_seed(seed@),
        text@.len() == PRINTABLE_LEN,
{
    let mut text = String::new();
    let mut group: usize = 0;
    while group < 8
        invariant
            group <= 8,
            group < 8 ==> text@.len() == 9 * group,
            group == 8 ==> text@.len() == PRINTABLE_LEN,
            forall|at: int| 0 <= at < text@.len() ==> text@[at] == printable_char(seed@, at),
        decreases 8 - group,
    {
        let mut place: usize = 0;
        while place < 4
            invariant
                group < 8,
                place <= 4,
                text@.len() == 9 * group + 2 * place,
                forall|at: int| 0 <= at < text@.len() ==> text@[at] == printable_char(seed@, at),
            decreases 4 - place,
        {
            let byte = seed[group * 4 + place];
            let ghost high = text@.len() as int;
            assert(high / 9 == group && high % 9 == 2 * place);
            assert((high + 1) / 9 == group && (high + 1) % 9 == 2 * place + 1);
            push_hex_digit(&mut text, byte / 16);
            push_hex_digit(&mut text, byte % 16);
            place = place + 1;
        }
        let ghost end = text@.len() as int;
        assert(end / 9 == group && end % 9 == 8);
        if group == 3 {
            proof {
                reveal_strlit("\n");
            }
            text.append("\n");
            assert(text@[end] == separator_after(3));
        } else if group < 7 {
            proof {
                reveal_strlit(" ");
            }
            text.append(" ");
            assert(text@[end] == separator_after(group as int));
        }
        group = group + 1;
    }
    assert(text@ =~= printable_seed(seed@));
    text
}

} // verus!
