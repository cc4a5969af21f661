//! Rendering numbers as text, for file names.

use vstd::prelude::*;
use vstd::string::StringExecFns;

verus! {

/// The character for a digit below sixteen: `0`-`9`, then `a`-`f`.
pub open spec fn digit_char(d: nat) -> char {
    if d < 10 {
        (48 + d) as char
    } else {
        (87 + d) as char
    }
}

/// `n` in decimal, without leading zeros.
pub open spec fn decimal(n: nat) -> Seq<char>
    decreases n,
{
    if n < 10 {
        seq![digit_char(n)]
    } else {
        decimal(n / 10).push(digit_char(n % 10))
    }
}

/// `n` in lower-case hexadecimal, padded with leading zeros to at least
/// `width` digits.
pub open spec fn hex_padded(n: nat, width: nat) -> Seq<char>
    decreases n, width,
{
    if n >= 16 || width > 1 {
        hex_padded(n / 16, if width > 0 { (width - 1) as nat } else { 0 }).push(digit_char(n % 16))
    } else {
        seq![digit_char(n)]
    }
}

/// The number of hexadecimal digits of `n`.
pub open spec fn hex_digits(n: nat) -> nat
    decreases n,
{
    if n < 16 {
        1
    } else {
        hex_digits(n / 16) + 1
    }
}

/// Padding never truncates: the text has `width` digits, or as many as the
/// number needs if that is more.
pub proof fn lemma_hex_padded_len(n: nat, width: nat)
    ensures
        hex_padded(n, width).len() == (if hex_digits(n) > width {
            hex_digits(n)
        } else {
            width
        }),
        width == 0 ==> hex_padded(n, width).len() == hex_digits(n),
    decreases n, width,
{
    if n >= 16 || width > 1 {
        lemma_hex_padded_len(n / 16, if width > 0 { (width - 1) as nat } else { 0 });
    }
}

/// A decimal number is made of digits, at least one.
pub proof fn lemma_decimal_digits(n: nat)
    ensures
        decimal(n).len() >= 1,
        forall|i: int| 0 <= i < decimal(n).len() ==> '0' <= #[trigger] decimal(n)[i] <= '9',
    decreases n,
{
    assert(digit_char(n % 10) as nat == 48 + n % 10);
    if n >= 10 {
        lemma_decimal_digits(n / 10);
    }
}

/// Different numbers are written differently.
pub proof fn lemma_decimal_injective(a: nat, b: nat)
    requires
        decimal(a) == decimal(b),
    ensures
        a == b,
    decreases a,
{
    lemma_decimal_digits(a / 10);
    lemma_decimal_digits(b / 10);
    let text_a = decimal(a);
    let text_b = decimal(b);
    assert(text_a.last() == digit_char(a % 10));
    assert(text_b.last() == digit_char(b % 10));
    lemma_digit_char_injective(a % 10, b % 10);
    if a >= 10 {
        assert(text_a.len() >= 2);
        assert(b >= 10);
        assert(text_a.drop_last() =~= decimal(a / 10));
        assert(text_b.drop_last() =~= decimal(b / 10));
        lemma_decimal_injective(a / 10, b / 10);
    } else {
        assert(text_b.len() == 1);
    }
}

/// Different numbers are written differently, whatever the width.
pub proof fn lemma_hex_padded_injective(a: nat, b: nat, width: nat)
    requires
        hex_padded(a, width) == hex_padded(b, width),
    ensures
        a == b,
    decreases a, width,
{
    let narrower = if width > 0 {
        (width - 1) as nat
    } else {
        0
    };
    lemma_hex_padded_len(a, width);
    lemma_hex_padded_len(b, width);
    lemma_hex_padded_len(a / 16, narrower);
    lemma_hex_padded_len(b / 16, narrower);
    let text_a = hex_padded(a, width);
    let text_b = hex_padded(b, width);
    assert(text_a.last() == digit_char(a % 16));
    assert(text_b.last() == digit_char(b % 16));
    lemma_digit_char_injective(a % 16, b % 16);
    if a >= 16 || width > 1 {
        assert(text_a.len() >= 2);
        assert(b >= 16 || width > 1);
        assert(text_a.drop_last() =~= hex_padded(a / 16, narrower));
        assert(text_b.drop_last() =~= hex_padded(b / 16, narrower));
        lemma_hex_padded_injective(a / 16, b / 16, narrower);
    } else {
        assert(text_b.len() == 1);
    }
}

/// Different digits have different characters.
proof fn lemma_digit_char_injective(a: nat, b: nat)
    requires
        a < 16,
        b < 16,
        digit_char(a) == digit_char(b),
    ensures
        a == b,
{
    assert(digit_char(a) as nat == (if a < 10 {
        48 + a
    } else {
        87 + a
    }));
    assert(digit_char(b) as nat == (if b < 10 {
        48 + b
    } else {
        87 + b
    }));
}

/// Appends the character of the digit `d` to `out`.
fn push_digit(out: &mut String, d: u8)
    requires
        d < 16,
    ensures
        final(out)@ == old(out)@.push(digit_char(d as nat)),
{
    match d {
        0 => {
            proof {
                reveal_strlit("0");
            }
            out.append("0");
            assert("0"@ =~= seq![digit_char(0)]);
        },
        1 => {
            proof {
                reveal_strlit("1");
            }
            out.append("1");
            assert("1"@ =~= seq![digit_char(1)]);
        },
        2 => {
            proof {
                reveal_strlit("2");
            }
            out.append("2");
            assert("2"@ =~= seq![digit_char(2)]);
        },
        3 => {
            proof {
                reveal_strlit("3");
            }
            out.append("3");
            assert("3"@ =~= seq![digit_char(3)]);
        },
        4 => {
            proof {
                reveal_strlit("4");
            }
            out.append("4");
            assert("4"@ =~= seq![digit_char(4)]);
        },
        5 => {
            proof {
                reveal_strlit("5");
            }
            out.append("5");
            assert("5"@ =~= seq![digit_char(5)]);
        },
        6 => {
            proof {
                reveal_strlit("6");
            }
            out.append("6");
            assert("6"@ =~= seq![digit_char(6)]);
        },
        7 => {
            proof {
                reveal_strlit("7");
            }
            out.append("7");
            assert("7"@ =~= seq![digit_char(7)]);
        },
        8 => {
            proof {
                reveal_strlit("8");
            }
            out.append("8");
            assert("8"@ =~= seq![digit_char(8)]);
        },
        9 => {
            proof {
                reveal_strlit("9");
            }
            out.append("9");
            assert("9"@ =~= seq![digit_char(9)]);
        },
        10 => {
            proof {
                reveal_strlit("a");
            }
            out.append("a");
            assert("a"@ =~= seq![digit_char(10)]);
        },
        11 => {
            proof {
                reveal_strlit("b");
            }
            out.append("b");
            assert("b"@ =~= seq![digit_char(11)]);
        },
        12 => {
            proof {
                reveal_strlit("c");
            }
            out.append("c");
            assert("c"@ =~= seq![digit_char(12)]);
        },
        13 => {
            proof {
                reveal_strlit("d");
            }
            out.append("d");
            assert("d"@ =~= seq![digit_char(13)]);
        },
        14 => {
            proof {
                reveal_strlit("e");
            }
            out.append("e");
            assert("e"@ =~= seq![digit_char(14)]);
        },
        _ => {
            proof {
                reveal_strlit("f");
            }
            out.append("f");
            assert("f"@ =~= seq![digit_char(15)]);
        },
    }
    assert(out@ =~= old(out)@.push(digit_char(d as nat)));
}

/// Appends `n` in decimal to `out`.
pub fn push_decimal(out: &mut String, n: u64)
    ensures
        final(out)@ == old(out)@ + decimal(n as nat),
    decreases n,
{
    if n >= 10 {
        push_decimal(out, n / 10);
    }
    push_digit(out, (n % 10) as u8);
}

/// Appends `n` in lower-case hexadecimal to `out`, with leading zeros up to
/// `width` digits.
pub fn push_hex_padded(out: &mut String, n: u64, width: usize)
    ensures
        final(out)@ == old(out)@ + hex_padded(n as nat, width as nat),
    decreases n, width,
{
    if n >= 16 || width > 1 {
        push_hex_padded(out, n / 16, if width > 0 { width - 1 } else { 0 });
    }
    push_digit(out, (n % 16) as u8);
}

} // verus!
