//! Numbers as text.

use crate::target::{Arch, Mode};
use vstd::prelude::*;
use vstd::string::*;

verus! {

/// The sixteen hexadecimal digits, in order.
pub open spec fn hex_alphabet() -> Seq<char> {
    seq!['0', '1', '2', '3', '4', '5', '6', '7', '8', '9', 'a', 'b', 'c', 'd', 'e', 'f']
}

/// The digits of `n`, hexadecimal or decimal, most significant first,
/// without leading zeros; a single `0` for zero.
pub open spec fn digits_in(n: nat, hexadecimal: bool) -> Seq<char>
    decreases n,
{
    if hexadecimal {
        if n < 16 {
            seq![hex_alphabet()[n as int]]
        } else {
            digits_in(n / 16, hexadecimal).push(hex_alphabet()[(n % 16) as int])
        }
    } else {
        if n < 10 {
            seq![hex_alphabet()[n as int]]
        } else {
            digits_in(n / 10, hexadecimal).push(hex_alphabet()[(n % 10) as int])
        }
    }
}

/// The hexadecimal digits of `n`.
pub open spec fn hex_digits(n: nat) -> Seq<char> {
    digits_in(n, true)
}

/// The decimal digits of `n`.
pub open spec fn decimal_digits(n: nat) -> Seq<char> {
    digits_in(n, false)
}

/// `s` with zeros put before it until it is `width` long.
pub open spec fn zero_padded(s: Seq<char>, width: nat) -> Seq<char> {
    if s.len() >= width {
        s
    } else {
        Seq::new((width - s.len()) as nat, |i: int| '0') + s
    }
}

/// The digit for a value below sixteen, as text.
fn hex_digit(d: u64) -> (s: &'static str)
    requires
        d < 16,
    ensures
        s@ == seq![hex_alphabet()[d as int]],
{
    proof {
        reveal_strlit("0");
        reveal_strlit("1");
        reveal_strlit("2");
        reveal_strlit("3");
        reveal_strlit("4");
        reveal_strlit("5");
        reveal_strlit("6");
        reveal_strlit("7");
        reveal_strlit("8");
        reveal_strlit("9");
        reveal_strlit("a");
        reveal_strlit("b");
        reveal_strlit("c");
        reveal_strlit("d");
        reveal_strlit("e");
        reveal_strlit("f");
    }
    let s = match d {
        0 => "0",
        1 => "1",
        2 => "2",
        3 => "3",
        4 => "4",
        5 => "5",
        6 => "6",
        7 => "7",
        8 => "8",
        9 => "9",
        10 => "a",
        11 => "b",
        12 => "c",
        13 => "d",
        14 => "e",
        _ => "f",
    };
    assert(s@ =~= seq![hex_alphabet()[d as int]]);
    s
}

/// `w` in hexadecimal or in decimal, with zeros before it up to `width`
/// digits.
pub fn numeral(w: u64, hexadecimal: bool, width: usize) -> (s: String)
    ensures
        s@ == zero_padded(digits_in(w as nat, hexadecimal), width as nat),
{
    // The digits, least significant first.
    let mut digits: Vec<u64> = Vec::new();
    let mut rest: u64 = w;
    if hexadecimal {
        digits.push(w % 16);
        rest = w / 16;
    } else {
        digits.push(w % 10);
        rest = w / 10;
    }
    while rest > 0
        invariant
            digits@.len() >= 1,
            forall|k: int| 0 <= k < digits@.len() ==> digits@[k] < 16,
            digits_in(w as nat, hexadecimal) == (if rest > 0 {
                digits_in(rest as nat, hexadecimal)
            } else {
                Seq::<char>::empty()
            }) + Seq::new(
                digits@.len(),
                |k: int| hex_alphabet()[digits@[digits@.len() - 1 - k] as int],
            ),
        decreases rest,
    {
        let ghost old_digits = digits@;
        let ghost old_rest = rest;
        let digit = if hexadecimal {
            rest % 16
        } else {
            rest % 10
        };
        digits.push(digit);
        rest = if hexadecimal {
            rest / 16
        } else {
            rest / 10
        };
        proof {
            let tail_old = Seq::new(
                old_digits.len(),
                |k: int| hex_alphabet()[old_digits[old_digits.len() - 1 - k] as int],
            );
            let tail_new = Seq::new(
                digits@.len(),
                |k: int| hex_alphabet()[digits@[digits@.len() - 1 - k] as int],
            );
            let d = hex_alphabet()[digit as int];
            assert(tail_new =~= seq![d] + tail_old);
            if rest > 0 {
                assert(digits_in(old_rest as nat, hexadecimal) == digits_in(
                    rest as nat,
                    hexadecimal,
                ).push(d));
                assert(digits_in(rest as nat, hexadecimal).push(d) + tail_old =~= digits_in(
                    rest as nat,
                    hexadecimal,
                ) + (seq![d] + tail_old));
            } else {
                assert(digits_in(old_rest as nat, hexadecimal) =~= seq![d]);
                assert(seq![d] + tail_old =~= Seq::<char>::empty() + (seq![d] + tail_old));
            }
        }
    }
    let ghost text = digits_in(w as nat, hexadecimal);
    assert(text =~= Seq::new(
        digits@.len(),
        |k: int| hex_alphabet()[digits@[digits@.len() - 1 - k] as int],
    ));
    let mut s = String::new();
    let mut pad: usize = digits.len();
    while pad < width
        invariant
            digits@.len() <= pad,
            pad <= width || pad == digits@.len(),
            s@ == Seq::new((pad - digits@.len()) as nat, |i: int| '0'),
        decreases width - pad,
    {
        proof {
            reveal_strlit("0");
        }
        s.append("0");
        pad += 1;
        assert(s@ =~= Seq::new((pad - digits@.len()) as nat, |i: int| '0'));
    }
    let ghost zeros = s@;
    let mut i: usize = digits.len();
    while i > 0
        invariant
            i <= digits@.len(),
            text.len() == digits@.len(),
            forall|k: int| 0 <= k < digits@.len() ==> digits@[k] < 16,
            forall|k: int|
                0 <= k < text.len() ==> text[k] == hex_alphabet()[digits@[digits@.len() - 1
                    - k] as int],
            s@ == zeros + text.take(digits@.len() - i),
        decreases i,
    {
        i -= 1;
        let d = hex_digit(digits[i]);
        s.append(d);
        proof {
            let n = digits@.len() - 1 - i;
            assert(text.take(n + 1) =~= text.take(n) + seq![text[n]]);
            assert(zeros + text.take(n) + seq![text[n]] =~= zeros + text.take(n + 1));
        }
    }
    assert(text.take(digits@.len() as int) =~= text);
    assert(s@ =~= zero_padded(text, width as nat)) by {
        if text.len() >= width {
            assert(zeros =~= Seq::<char>::empty());
        }
    }
    s
}

/// `w` in hexadecimal, with zeros before it up to `width` digits.
pub fn hex(w: u64, width: usize) -> (s: String)
    ensures
        s@ == zero_padded(hex_digits(w as nat), width as nat),
{
    numeral(w, true, width)
}

/// `w` in decimal.
pub fn decimal(w: u64) -> (s: String)
    ensures
        s@ == decimal_digits(w as nat),
{
    numeral(w, false, 0)
}

/// What the texts hold.
pub open spec fn texts(parts: Seq<String>) -> Seq<Seq<char>> {
    parts.map_values(|p: String| p@)
}

/// The first `n` texts with `sep` between them.
pub open spec fn joined(parts: Seq<Seq<char>>, sep: Seq<char>, n: int) -> Seq<char>
    decreases n,
{
    if n <= 0 {
        Seq::empty()
    } else if n == 1 {
        parts[0]
    } else {
        joined(parts, sep, n - 1) + sep + parts[n - 1]
    }
}

/// The texts with `sep` between them.
pub open spec fn joined_all(parts: Seq<Seq<char>>, sep: Seq<char>) -> Seq<char> {
    joined(parts, sep, parts.len() as int)
}

/// Joins texts with a separator between them.
pub fn join(parts: &Vec<String>, sep: &str) -> (s: String)
    ensures
        s@ == joined_all(texts(parts@), sep@),
{
    let mut s = String::new();
    let mut i: usize = 0;
    while i < parts.len()
        invariant
            i <= parts@.len(),
            s@ == joined(texts(parts@), sep@, i as int),
        decreases parts@.len() - i,
    {
        let ghost before = s@;
        if i > 0 {
            s.append(sep);
        }
        s.append(parts[i].as_str());
        proof {
            assert(texts(parts@)[i as int] == parts@[i as int]@);
            if i == 0 {
                assert(s@ =~= parts@[0]@);
            } else {
                assert(s@ =~= before + sep@ + parts@[i as int]@);
            }
        }
        i += 1;
    }
    s
}

/// The words of a list in hexadecimal, unpadded, with blanks between them.
pub open spec fn hex_words(words: Seq<u64>, width: nat) -> Seq<char> {
    joined_all(
        Seq::new(words.len(), |i: int| zero_padded(hex_digits(words[i] as nat), width)),
        " "@,
    )
}

/// The words of a list in decimal, as a list is written: in square brackets,
/// with a comma and a blank between two words.
pub open spec fn decimal_list(words: Seq<u64>) -> Seq<char> {
    "["@ + joined_all(Seq::new(words.len(), |i: int| decimal_digits(words[i] as nat)), ", "@)
        + "]"@
}

/// Writes words in hexadecimal, each at least `width` digits wide, with
/// blanks between them.
pub fn hex_list(words: &Vec<u64>, width: usize) -> (s: String)
    ensures
        s@ == hex_words(words@, width as nat),
{
    let mut parts: Vec<String> = Vec::new();
    let mut i: usize = 0;
    while i < words.len()
        invariant
            i <= words@.len(),
            parts@.len() == i,
            forall|k: int|
                0 <= k < i ==> (#[trigger] parts@[k])@ == zero_padded(
                    hex_digits(words@[k] as nat),
                    width as nat,
                ),
        decreases words@.len() - i,
    {
        parts.push(hex(words[i], width));
        i += 1;
    }
    assert(texts(parts@) =~= Seq::new(
        words@.len(),
        |i: int| zero_padded(hex_digits(words@[i] as nat), width as nat),
    ));
    join(&parts, " ")
}

/// Writes words in decimal as a list.
pub fn debug_list(words: &Vec<u64>) -> (s: String)
    ensures
        s@ == decimal_list(words@),
{
    let mut parts: Vec<String> = Vec::new();
    let mut i: usize = 0;
    while i < words.len()
        invariant
            i <= words@.len(),
            parts@.len() == i,
            forall|k: int| 0 <= k < i ==> (#[trigger] parts@[k])@ == decimal_digits(words@[k] as nat),
        decreases words@.len() - i,
    {
        parts.push(decimal(words[i]));
        i += 1;
    }
    assert(texts(parts@) =~= Seq::new(words@.len(), |i: int| decimal_digits(words@[i] as nat)));
    let inner = join(&parts, ", ");
    let mut s = String::new();
    s.append("[");
    s.append(inner.as_str());
    s.append("]");
    s
}

/// Number of hexadecimal digits in a machine word of the architecture: 16 on
/// 64-bit x86, 4 on 16-bit x86, 8 elsewhere.
pub open spec fn word_digits(arch: Arch) -> usize {
    match arch {
        Arch::X86(Mode::Bits64) => 16,
        Arch::X86(Mode::Bits16) => 4,
        _ => 8,
    }
}

/// A machine word as text: in hexadecimal, as wide as a word of the
/// architecture, and wider where the number needs it.
pub fn wf(w: u64, arch: Arch) -> (s: String)
    ensures
        s@ == zero_padded(hex_digits(w as nat), word_digits(arch) as nat),
{
    match arch {
        Arch::X86(Mode::Bits64) => hex(w, 16),
        Arch::X86(Mode::Bits16) => hex(w, 4),
        _ => hex(w, 8),
    }
}

} // verus!
