//! Decimal and hexadecimal digit rendering, and right-padding of text cells.

use vstd::prelude::*;
use vstd::string::*;

verus! {

/// The decimal digit character for a value below ten.
pub open spec fn dec_digit(n: nat) -> char {
    if n == 0 {
        '0'
    } else if n == 1 {
        '1'
    } else if n == 2 {
        '2'
    } else if n == 3 {
        '3'
    } else if n == 4 {
        '4'
    } else if n == 5 {
        '5'
    } else if n == 6 {
        '6'
    } else if n == 7 {
        '7'
    } else if n == 8 {
        '8'
    } else {
        '9'
    }
}

/// The usual decimal rendering of a natural number, without sign or padding.
pub open spec fn dec_seq(n: nat) -> Seq<char>
    decreases n,
{
    if n < 10 {
        seq![dec_digit(n)]
    } else {
        dec_seq(n / 10).push(dec_digit(n % 10))
    }
}

pub(crate) fn dec_digit_str(n: u128) -> (r: &'static str)
    requires
        n < 10,
    ensures
        r@ == seq![dec_digit(n as nat)],
{
    let r: &'static str = if n == 0 {
        "0"
    } else if n == 1 {
        "1"
    } else if n == 2 {
        "2"
    } else if n == 3 {
        "3"
    } else if n == 4 {
        "4"
    } else if n == 5 {
        "5"
    } else if n == 6 {
        "6"
    } else if n == 7 {
        "7"
    } else if n == 8 {
        "8"
    } else {
        "9"
    };
    proof {
        reveal_strlit("0");
        reveal_strlit("1");
        reveal_strlit("2");
        reveal_strlit("3");
        reveal_strlit("4");
        reveal_strlit("5");
        reveal_strlit("6");
        reveal_strlit("7");
        reveal_strlit("8");
        reveal_strlit("9");
        assert(r@ =~= seq![dec_digit(n as nat)]);
    }
    r
}

/// Renders a natural number in decimal, matching `dec_seq`.
pub fn dec_string(n: u128) -> (r: String)
    ensures
        r@ == dec_seq(n as nat),
    decreases n,
{
    if n < 10 {
        let mut s = String::new();
        s.append(dec_digit_str(n));
        s
    } else {
        let mut s = dec_string(n / 10);
        s.append(dec_digit_str(n % 10));
        proof {
            assert(s@ =~= dec_seq(n as nat));
        }
        s
    }
}

/// A run of identical filler characters, used for padding and rules.
pub open spec fn fill(c: char, n: int) -> Seq<char> {
    Seq::new(if n < 0 {
        0
    } else {
        n as nat
    }, |i: int| c)
}

/// Text left-aligned in a cell of the given width: the text itself, then
/// filler up to the width; text at or over the width is kept whole.
pub open spec fn pad_right(s: Seq<char>, width: int, c: char) -> Seq<char> {
    s + fill(c, width - s.len())
}

/// Appends `s` to `out`, then filler characters until the cell is
/// `width` characters wide.
pub fn append_padded(out: &mut String, s: &str, width: usize, space: bool)
    ensures
        final(out)@ == old(out)@ + pad_right(s@, width as int, if space {
            ' '
        } else {
            '-'
        }),
{
    let ghost c: char = if space { ' ' } else { '-' };
    out.append(s);
    let n: usize = s.unicode_len();
    let mut i: usize = n;
    proof {
        reveal_strlit(" ");
        reveal_strlit("-");
        assert(out@ =~= old(out)@ + s@ + fill(c, i - n));
    }
    while i < width
        invariant
            n <= i,
            i <= width || i == n,
            c == (if space {
                ' '
            } else {
                '-'
            }),
            out@ == old(out)@ + s@ + fill(c, i - n),
        decreases width - i,
    {
        let filler: &'static str = if space {
            " "
        } else {
            "-"
        };
        proof {
            assert(" "@ =~= seq![' ']) by {
                reveal_strlit(" ");
            }
            assert("-"@ =~= seq!['-']) by {
                reveal_strlit("-");
            }
            assert(filler@ =~= seq![c]);
        }
        out.append(filler);
        proof {
            assert(fill(c, i + 1 - n) =~= fill(c, i - n).push(c));
            assert(out@ =~= old(out)@ + s@ + fill(c, i - n) + seq![c]);
            assert(old(out)@ + s@ + fill(c, i - n) + seq![c] =~= old(out)@ + s@ + fill(
                c,
                i + 1 - n,
            ));
        }
        i = i + 1;
    }
    proof {
        assert(out@ =~= old(out)@ + pad_right(s@, width as int, c));
    }
}

} // verus!
