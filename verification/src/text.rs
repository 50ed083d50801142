//! Small pieces of text: decimal numbers and right-aligned fields.
//!
//! Text is modelled as `Seq<char>`, the view of `String` and `str`.

use vstd::prelude::*;
use vstd::string::*;

verus! {

/// The character that writes the decimal digit `digit` (0 to 9).
pub open spec fn digit_char(digit: int) -> char {
    if digit == 0 {
        '0'
    } else if digit == 1 {
        '1'
    } else if digit == 2 {
        '2'
    } else if digit == 3 {
        '3'
    } else if digit == 4 {
        '4'
    } else if digit == 5 {
        '5'
    } else if digit == 6 {
        '6'
    } else if digit == 7 {
        '7'
    } else if digit == 8 {
        '8'
    } else {
        '9'
    }
}

/// Decimal notation of `n`, without padding or leading zeros.
pub open spec fn decimal(n: nat) -> Seq<char>
    decreases n,
{
    if n < 10 {
        seq![digit_char(n as int)]
    } else {
        decimal(n / 10).push(digit_char((n % 10) as int))
    }
}

/// The last two decimal digits of `n`, the tens digit first.
pub open spec fn two_digits(n: nat) -> Seq<char> {
    seq![digit_char(((n / 10) % 10) as int), digit_char((n % 10) as int)]
}

/// `count` space characters; none when `count` is not positive.
pub open spec fn spaces(count: int) -> Seq<char> {
    Seq::new(
        if count > 0 {
            count as nat
        } else {
            0
        },
        |i: int| ' ',
    )
}

/// `text` pushed to the right edge of a field of `width` characters by
/// leading spaces. Text longer than the field is kept whole.
pub open spec fn right_aligned(text: Seq<char>, width: int) -> Seq<char> {
    spaces(width - text.len()) + text
}

/// The text holds no `|`, the character that separates cells.
pub open spec fn is_plain(text: Seq<char>) -> bool {
    forall|i: int| 0 <= i < text.len() ==> #[trigger] text[i] != '|'
}

/// A number in decimal notation holds no `|`.
pub proof fn lemma_decimal_is_plain(n: nat)
    ensures
        is_plain(decimal(n)),
    decreases n,
{
    if n >= 10 {
        lemma_decimal_is_plain(n / 10);
    }
}

/// A number below 10 is written with one digit, one below 100 with two,
/// one below 1000 with three.
pub proof fn lemma_decimal_len(n: nat)
    ensures
        n < 10 ==> decimal(n).len() == 1,
        10 <= n < 100 ==> decimal(n).len() == 2,
        100 <= n < 1000 ==> decimal(n).len() == 3,
{
    reveal_with_fuel(decimal, 3);
}

/// The one-character text of a decimal digit.
pub fn digit_text(digit: u32) -> (text: &'static str)
    requires
        digit < 10,
    ensures
        text@ == seq![digit_char(digit as int)],
{
    proof {
        reveal_strlit("0");
        reveal_strlit("1");
        reveal_strlit("2");
        reveal_strlit("3");
        reveal_strlit("4");
        reveal_strlit("5");
        reveal_strlit("6");
        reveal_strlit("7");
        reveal_strlit("8");
        reveal_strlit("9");
    }
    let text = if digit == 0 {
        "0"
    } else if digit == 1 {
        "1"
    } else if digit == 2 {
        "2"
    } else if digit == 3 {
        "3"
    } else if digit == 4 {
        "4"
    } else if digit == 5 {
        "5"
    } else if digit == 6 {
        "6"
    } else if digit == 7 {
        "7"
    } else if digit == 8 {
        "8"
    } else {
        "9"
    };
    assert(text@ =~= seq![digit_char(digit as int)]);
    text
}

/// Writes `n` in decimal notation.
pub fn decimal_string(n: u32) -> (text: String)
    ensures
        text@ == decimal(n as nat),
    decreases n,
{
    if n < 10 {
        String::from_str(digit_text(n))
    } else {
        let mut text = decimal_string(n / 10);
        text.append(digit_text(n % 10));
        assert(text@ =~= decimal((n / 10) as nat).push(digit_char((n % 10) as int)));
        text
    }
}

/// Writes the last two decimal digits of `n`, with a leading zero where
/// `n` has a single digit.
pub fn two_digit_string(n: u32) -> (text: String)
    ensures
        text@ == two_digits(n as nat),
{
    let mut text = String::from_str(digit_text((n / 10) % 10));
    text.append(digit_text(n % 10));
    assert(text@ =~= two_digits(n as nat));
    text
}

/// Appends `count` spaces to `text`.
pub fn push_spaces(text: &mut String, count: u64)
    ensures
        final(text)@ == old(text)@ + spaces(count as int),
{
    let mut done: u64 = 0;
    while done < count
        invariant
            done <= count,
            text@ == old(text)@ + spaces(done as int),
        decreases count - done,
    {
        proof {
            reveal_strlit(" ");
        }
        text.append(" ");
        done = done + 1;
        assert(text@ =~= old(text)@ + spaces(done as int));
    }
}

/// Right-aligns `content` in a field of `width` characters.
pub fn right_align(content: &str, width: u64) -> (text: String)
    ensures
        text@ == right_aligned(content@, width as int),
{
    let length = content.unicode_len();
    let mut text = String::new();
    if (length as u64) < width {
        push_spaces(&mut text, width - length as u64);
    }
    text.append(content);
    assert(text@ =~= right_aligned(content@, width as int));
    text
}

} // verus!
