//! Decimal and hexadecimal rendering of numbers for status lines and error
//! messages.

use vstd::prelude::*;

verus! {

/// The ASCII digit for `d` (`d < 10`).
pub open spec fn digit_char(d: nat) -> char {
    (d + 48) as char
}

/// Decimal rendering of `n`, most significant digit first, no leading zeros.
pub open spec fn spec_decimal(n: nat) -> Seq<char>
    decreases n,
{
    if n < 10 {
        seq![digit_char(n)]
    } else {
        spec_decimal(n / 10) + seq![digit_char(n % 10)]
    }
}

/// The one-character string of hexadecimal digit `d` (`d < 16`).
fn digit_string(d: u64) -> (s: String)
    requires
        d < 16,
    ensures
        s@ == seq![hex_digit(d as nat)],
{
    let lit: &str = if d == 0 {
        proof {
            reveal_strlit("0");
        }
        "0"
    } else if d == 1 {
        proof {
            reveal_strlit("1");
        }
        "1"
    } else if d == 2 {
        proof {
            reveal_strlit("2");
        }
        "2"
    } else if d == 3 {
        proof {
            reveal_strlit("3");
        }
        "3"
    } else if d == 4 {
        proof {
            reveal_strlit("4");
        }
        "4"
    } else if d == 5 {
        proof {
            reveal_strlit("5");
        }
        "5"
    } else if d == 6 {
        proof {
            reveal_strlit("6");
        }
        "6"
    } else if d == 7 {
        proof {
            reveal_strlit("7");
        }
        "7"
    } else if d == 8 {
        proof {
            reveal_strlit("8");
        }
        "8"
    } else if d == 9 {
        proof {
            reveal_strlit("9");
        }
        "9"
    } else if d == 10 {
        proof {
            reveal_strlit("a");
        }
        "a"
    } else if d == 11 {
        proof {
            reveal_strlit("b");
        }
        "b"
    } else if d == 12 {
        proof {
            reveal_strlit("c");
        }
        "c"
    } else if d == 13 {
        proof {
            reveal_strlit("d");
        }
        "d"
    } else if d == 14 {
        proof {
            reveal_strlit("e");
        }
        "e"
    } else {
        proof {
            reveal_strlit("f");
        }
        "f"
    };
    let s = String::from_str(lit);
    assert(s@ =~= seq![hex_digit(d as nat)]);
    s
}

/// The decimal digits of `n`, most significant first, without sign,
/// padding or leading zeros (what `u64::to_string` gives).
pub(crate) fn decimal_string(n: u64) -> (s: String)
    ensures
        s@ == spec_decimal(n as nat),
    decreases n,
{
    if n < 10 {
        let s = digit_string(n);
        assert(hex_digit(n as nat) == digit_char(n as nat));
        s
    } else {
        let head = decimal_string(n / 10);
        let last = digit_string(n % 10);
        assert(hex_digit((n % 10) as nat) == digit_char((n as nat) % 10));
        let s = head.concat(last.as_str());
        assert(s@ =~= spec_decimal(n as nat));
        s
    }
}

/// The lowercase hexadecimal digit for `d` (`d < 16`).
pub open spec fn hex_digit(d: nat) -> char {
    if d < 10 {
        (d + 48) as char
    } else {
        (d + 87) as char
    }
}

/// Lowercase hexadecimal rendering of `n`, no leading zeros.
pub open spec fn spec_hex(n: nat) -> Seq<char>
    decreases n,
{
    if n < 16 {
        seq![hex_digit(n)]
    } else {
        spec_hex(n / 16) + seq![hex_digit(n % 16)]
    }
}

/// The lowercase hexadecimal digits of `n`, no prefix, padding or leading
/// zeros (what `format!("{n:x}")` gives).
fn hex_digits(n: u64) -> (s: String)
    ensures
        s@ == spec_hex(n as nat),
    decreases n,
{
    if n < 16 {
        digit_string(n)
    } else {
        let head = hex_digits(n / 16);
        let last = digit_string(n % 16);
        let s = head.concat(last.as_str());
        assert(s@ =~= spec_hex(n as nat));
        s
    }
}

/// `k` zero characters.
pub open spec fn zeros(k: nat) -> Seq<char> {
    Seq::new(k, |i: int| '0')
}

/// `d` left-padded with zeros to `width` characters.
pub open spec fn zero_pad(d: Seq<char>, width: nat) -> Seq<char> {
    if d.len() < width {
        zeros((width - d.len()) as nat) + d
    } else {
        d
    }
}

/// `0x` and the lowercase hexadecimal digits of `n` (the `{:#x}` form).
pub(crate) fn hex_string(n: u64) -> (s: String)
    ensures
        s@ == "0x"@ + spec_hex(n as nat),
{
    String::from_str("0x").concat(hex_digits(n).as_str())
}

/// Append `k` zero characters.
fn push_zeros(s: &mut String, k: usize)
    ensures
        final(s)@ == old(s)@ + zeros(k as nat),
{
    proof {
        reveal_strlit("0");
    }
    let mut i: usize = 0;
    while i < k
        invariant
            i <= k,
            s@ == old(s)@ + zeros(i as nat),
            "0"@ == seq!['0'],
        decreases k - i,
    {
        s.append("0");
        i = i + 1;
        assert(s@ =~= old(s)@ + zeros(i as nat));
    }
}

/// The hexadecimal digits of `n` zero-padded to `width` characters (the
/// `{:0w$x}` form).
pub(crate) fn hex_digits_padded(n: u64, width: usize) -> (s: String)
    ensures
        s@ == zero_pad(spec_hex(n as nat), width as nat),
{
    let d = hex_digits(n);
    let len = d.as_str().unicode_len();
    let mut s = String::new();
    if len < width {
        push_zeros(&mut s, width - len);
    }
    let s = s.concat(d.as_str());
    assert(s@ =~= zero_pad(spec_hex(n as nat), width as nat));
    s
}

/// `0x` and the hexadecimal digits of `n`, zero-padded so the whole is
/// `width` characters (the `{:#0w$x}` form).
pub(crate) fn hex_string_padded(n: u64, width: usize) -> (s: String)
    requires
        width >= 2,
    ensures
        s@ == "0x"@ + zero_pad(spec_hex(n as nat), (width - 2) as nat),
{
    String::from_str("0x").concat(hex_digits_padded(n, width - 2).as_str())
}

} // verus!
