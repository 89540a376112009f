//! Decimal integers as text.

use vstd::prelude::*;

verus! {

/// Whether a character is one of the ten decimal digits.
pub open spec fn is_digit(c: char) -> bool {
    '0' <= c && c <= '9'
}

/// The number that a decimal digit stands for.
pub open spec fn digit(c: char) -> int {
    c as int - '0' as int
}

/// Whether every character is a decimal digit.
pub open spec fn all_digits(s: Seq<char>) -> bool {
    forall|i: int| 0 <= i < s.len() ==> is_digit(#[trigger] s[i])
}

/// The number that a run of decimal digits writes, the first digit weighing
/// most.
pub open spec fn digits_value(s: Seq<char>) -> int
    decreases s.len(),
{
    if s.len() == 0 {
        0
    } else {
        10 * digits_value(s.drop_last()) + digit(s.last())
    }
}

/// The integer that a text writes: an optional sign, then one digit or more,
/// and nothing else.
pub open spec fn decimal(s: Seq<char>) -> Option<int> {
    if s.len() == 0 {
        None
    } else {
        let body = if s[0] == '+' || s[0] == '-' {
            s.skip(1)
        } else {
            s
        };
        if body.len() == 0 || !all_digits(body) {
            None
        } else if s[0] == '-' {
            Some(-digits_value(body))
        } else {
            Some(digits_value(body))
        }
    }
}

/// The integer that a text writes, where it lies from `lo` to `hi`. A minus
/// sign is accepted only where `lo` is negative.
pub open spec fn integer_in(s: Seq<char>, lo: int, hi: int) -> Option<int> {
    match decimal(s) {
        Some(v) => if lo <= v && v <= hi && (s[0] == '-' ==> lo < 0) {
            Some(v)
        } else {
            None
        },
        None => None,
    }
}

/// A run of digits never writes a negative number.
proof fn lemma_digits_nonnegative(s: Seq<char>)
    requires
        all_digits(s),
    ensures
        0 <= digits_value(s),
    decreases s.len(),
{
    if s.len() > 0 {
        lemma_digits_nonnegative(s.drop_last());
    }
}

/// The number of a decimal digit, or `None` for any other character.
pub fn digit_of(c: char) -> (r: Option<u8>)
    ensures
        match r {
            Some(d) => is_digit(c) && d == digit(c),
            None => !is_digit(c),
        },
{
    match c {
        '0' => Some(0),
        '1' => Some(1),
        '2' => Some(2),
        '3' => Some(3),
        '4' => Some(4),
        '5' => Some(5),
        '6' => Some(6),
        '7' => Some(7),
        '8' => Some(8),
        '9' => Some(9),
        _ => None,
    }
}

/// Reads an integer from `lo` to `hi` out of a text.
pub fn integer_from_text(text: &str, lo: i64, hi: u64) -> (r: Option<i128>)
    ensures
        match r {
            Some(v) => integer_in(text@, lo as int, hi as int) == Some(v as int),
            None => integer_in(text@, lo as int, hi as int) is None,
        },
{
    let n = text.unicode_len();
    if n == 0 {
        return None;
    }
    let first = text.get_char(0);
    let negative = first == '-';
    let start: usize = if first == '+' || first == '-' {
        1
    } else {
        0
    };
    let ghost body = if first == '+' || first == '-' {
        text@.skip(1)
    } else {
        text@
    };
    let mut acc: u128 = 0;
    let mut over = false;
    let mut i: usize = start;
    while i < n
        invariant
            start <= i <= n,
            n == text@.len(),
            n > 0,
            first == text@[0],
            negative == (first == '-'),
            start == if first == '+' || first == '-' { 1usize } else { 0usize },
            body == if first == '+' || first == '-' { text@.skip(1) } else { text@ },
            body.len() == n - start,
            all_digits(body.take(i - start)),
            !over ==> acc == digits_value(body.take(i - start)) && acc <= 0x1_0000_0000_0000_0000,
            over ==> digits_value(body.take(i - start)) > 0x1_0000_0000_0000_0000,
        decreases n - i,
    {
        let c = text.get_char(i);
        let ghost shorter = body.take(i - start);
        let ghost longer = body.take(i - start + 1);
        proof {
            assert(longer.drop_last() =~= shorter);
            assert(longer.last() == c);
        }
        match digit_of(c) {
            None => {
                proof {
                    assert(body[i - start] == c);
                    assert(!all_digits(body));
                }
                return None;
            },
            Some(d) => {
                proof {
                    assert forall|k: int| 0 <= k < longer.len() implies is_digit(
                        #[trigger] longer[k],
                    ) by {
                        if k < shorter.len() {
                            assert(longer[k] == shorter[k]);
                        }
                    }
                    lemma_digits_nonnegative(shorter);
                }
                if !over {
                    acc = acc * 10 + d as u128;
                    if acc > 0x1_0000_0000_0000_0000 {
                        over = true;
                    }
                }
            },
        }
        i += 1;
    }
    proof {
        assert(body.take(n - start) =~= body);
    }
    if start == n || over {
        return None;
    }
    let value: i128 = if negative {
        -(acc as i128)
    } else {
        acc as i128
    };
    if lo as i128 <= value && value <= hi as i128 && (!negative || lo < 0) {
        Some(value)
    } else {
        None
    }
}

/// The character that writes a digit.
pub open spec fn digit_char(d: int) -> char {
    if d == 0 {
        '0'
    } else if d == 1 {
        '1'
    } else if d == 2 {
        '2'
    } else if d == 3 {
        '3'
    } else if d == 4 {
        '4'
    } else if d == 5 {
        '5'
    } else if d == 6 {
        '6'
    } else if d == 7 {
        '7'
    } else if d == 8 {
        '8'
    } else {
        '9'
    }
}

/// The shortest run of decimal digits that writes a number.
pub open spec fn decimal_text(n: nat) -> Seq<char>
    decreases n,
{
    if n < 10 {
        seq![digit_char(n as int)]
    } else {
        decimal_text(n / 10).push(digit_char((n % 10) as int))
    }
}

/// Writing a number and reading the text again gives the number.
pub proof fn lemma_decimal_round_trip(n: nat)
    ensures
        decimal_text(n).len() > 0,
        all_digits(decimal_text(n)),
        digits_value(decimal_text(n)) == n,
        decimal(decimal_text(n)) == Some(n as int),
    decreases n,
{
    let text = decimal_text(n);
    if n < 10 {
        assert(text.drop_last() =~= Seq::<char>::empty());
        assert(digits_value(text.drop_last()) == 0);
        assert(digit(text.last()) == n);
    } else {
        lemma_decimal_round_trip(n / 10);
        assert(text.drop_last() =~= decimal_text(n / 10));
        assert(digit(text.last()) == n % 10);
        assert forall|i: int| 0 <= i < text.len() implies is_digit(#[trigger] text[i]) by {
            if i < text.len() - 1 {
                assert(text[i] == decimal_text(n / 10)[i]);
            }
        }
    }
    assert(is_digit(text[0]));
}

fn digit_str(d: u8) -> (r: &'static str)
    requires
        d < 10,
    ensures
        r@ == seq![digit_char(d as int)],
{
    proof {
        reveal_strlit("0");
        reveal_strlit("1");
        reveal_strlit("2");
        reveal_strlit("3");
        reveal_strlit("4");
        reveal_strlit("5");
        reveal_strlit("6");
        reveal_strlit("7");
        reveal_strlit("8");
        reveal_strlit("9");
    }
    let r = match d {
        0 => "0",
        1 => "1",
        2 => "2",
        3 => "3",
        4 => "4",
        5 => "5",
        6 => "6",
        7 => "7",
        8 => "8",
        _ => "9",
    };
    assert(r@ =~= seq![digit_char(d as int)]);
    r
}

/// Writes a number in decimal digits.
pub fn render(n: u128) -> (r: String)
    ensures
        r@ == decimal_text(n as nat),
    decreases n,
{
    if n < 10 {
        String::from_str(digit_str(n as u8))
    } else {
        let mut text = render(n / 10);
        text.append(digit_str((n % 10) as u8));
        assert(text@ =~= decimal_text(n as nat));
        text
    }
}

} // verus!
