//! Digits and padding: the pieces of a node's text rendering.
use vstd::prelude::*;

verus! {

/// The character of one digit, lower case beyond nine.
pub open spec fn digit_char(d: nat) -> char {
    if d < 10 {
        ('0' as u32 + d) as char
    } else {
        ('a' as u32 + (d - 10)) as char
    }
}

/// The digits of `n` in `base`, most significant first, without leading zeros.
pub open spec fn digits(n: nat, base: nat) -> Seq<char>
    decreases n
    via digits_decreases
{
    if base < 2 || n < base {
        seq![digit_char(n)]
    } else {
        digits(n / base, base).push(digit_char(n % base))
    }
}

#[via_fn]
proof fn digits_decreases(n: nat, base: nat) {
    if !(base < 2 || n < base) {
        assert(n / base < n) by (nonlinear_arith)
            requires
                base >= 2,
                n >= base,
        ;
    }
}

/// Decimal text of an integer, with a minus sign when negative.
pub open spec fn signed_text(i: int) -> Seq<char> {
    if i < 0 {
        seq!['-'] + digits((-i) as nat, 10)
    } else {
        digits(i as nat, 10)
    }
}

/// `k` copies of `c`.
pub open spec fn repeat(c: char, k: nat) -> Seq<char> {
    Seq::new(k, |_i: int| c)
}

/// `s` right-aligned in a field of at least `width` characters.
pub open spec fn align_right(s: Seq<char>, width: nat, fill: char) -> Seq<char> {
    if s.len() < width {
        repeat(fill, (width - s.len()) as nat) + s
    } else {
        s
    }
}

/// `s` left-aligned in a field of at least `width` characters.
pub open spec fn align_left(s: Seq<char>, width: nat) -> Seq<char> {
    if s.len() < width {
        s + repeat(' ', (width - s.len()) as nat)
    } else {
        s
    }
}

/// Binary text with the `0b` prefix, zero-filled to at least `digit_count` digits.
pub open spec fn binary_text(n: nat, digit_count: nat) -> Seq<char> {
    "0b"@ + align_right(digits(n, 2), digit_count, '0')
}

fn digit_str(d: u64) -> (r: &'static str)
    requires
        d < 16,
    ensures
        r@ == seq![digit_char(d as nat)],
{
    proof {
        reveal_strlit("0");
        reveal_strlit("1");
        reveal_strlit("2");
        reveal_strlit("3");
        reveal_strlit("4");
        reveal_strlit("5");
        reveal_strlit("6");
        reveal_strlit("7");
        reveal_strlit("8");
        reveal_strlit("9");
        reveal_strlit("a");
        reveal_strlit("b");
        reveal_strlit("c");
        reveal_strlit("d");
        reveal_strlit("e");
        reveal_strlit("f");
    }
    match d {
        0 => "0",
        1 => "1",
        2 => "2",
        3 => "3",
        4 => "4",
        5 => "5",
        6 => "6",
        7 => "7",
        8 => "8",
        9 => "9",
        10 => "a",
        11 => "b",
        12 => "c",
        13 => "d",
        14 => "e",
        _ => "f",
    }
}

/// Appends the digits of `n` in `base`.
pub fn push_digits(s: &mut String, n: u64, base: u64)
    requires
        2 <= base <= 16,
    ensures
        final(s)@ == old(s)@ + digits(n as nat, base as nat),
    decreases n,
{
    if n >= base {
        assert(n / base < n) by (nonlinear_arith)
            requires
                base >= 2,
                n >= base,
        ;
        push_digits(s, n / base, base);
    }
    s.append(digit_str(n % base));
    proof {
        if n < base {
            assert(n % base == n) by (nonlinear_arith)
                requires
                    n < base,
            ;
        }
        assert(s@ =~= old(s)@ + digits(n as nat, base as nat));
    }
}

/// Lower-case hexadecimal text of `n`, without prefix or leading zeros.
pub fn hex_text(n: u64) -> (r: String)
    ensures
        r@ == digits(n as nat, 16),
{
    let mut s = String::new();
    push_digits(&mut s, n, 16);
    s
}

/// Decimal text of `i`.
pub fn signed_decimal(i: i64) -> (r: String)
    ensures
        r@ == signed_text(i as int),
{
    let mut s = String::new();
    if i < 0 {
        s.append("-");
        proof {
            reveal_strlit("-");
        }
        let m: u64 = (-(i + 1)) as u64 + 1;
        push_digits(&mut s, m, 10);
    } else {
        push_digits(&mut s, i as u64, 10);
    }
    s
}

/// Appends `k` copies of the one-character string `c`.
fn push_repeat(s: &mut String, c: &str, k: usize)
    requires
        c@.len() == 1,
    ensures
        final(s)@ == old(s)@ + repeat(c@[0], k as nat),
{
    let mut i: usize = 0;
    while i < k
        invariant
            i <= k,
            c@.len() == 1,
            s@ == old(s)@ + repeat(c@[0], i as nat),
        decreases k - i,
    {
        s.append(c);
        assert(s@ =~= old(s)@ + repeat(c@[0], (i + 1) as nat));
        i = i + 1;
    }
}

/// Appends `t` right-aligned in a field of `width` characters.
pub fn push_right(s: &mut String, t: &str, width: usize)
    ensures
        final(s)@ == old(s)@ + align_right(t@, width as nat, ' '),
{
    let len = t.unicode_len();
    if len < width {
        proof {
            reveal_strlit(" ");
        }
        push_repeat(s, " ", width - len);
    }
    s.append(t);
    assert(s@ =~= old(s)@ + align_right(t@, width as nat, ' '));
}

/// Appends `t` left-aligned in a field of `width` characters.
pub fn push_left(s: &mut String, t: &str, width: usize)
    ensures
        final(s)@ == old(s)@ + align_left(t@, width as nat),
{
    let len = t.unicode_len();
    s.append(t);
    if len < width {
        proof {
            reveal_strlit(" ");
        }
        push_repeat(s, " ", width - len);
    }
    assert(s@ =~= old(s)@ + align_left(t@, width as nat));
}

/// Appends the binary text of `n`, zero-filled to `digit_count` digits.
pub fn push_binary(s: &mut String, n: u64, digit_count: usize)
    ensures
        final(s)@ == old(s)@ + binary_text(n as nat, digit_count as nat),
{
    let mut d = String::new();
    push_digits(&mut d, n, 2);
    s.append("0b");
    let len = d.as_str().unicode_len();
    if len < digit_count {
        proof {
            reveal_strlit("0");
        }
        push_repeat(s, "0", digit_count - len);
    }
    s.append(d.as_str());
    assert(s@ =~= old(s)@ + binary_text(n as nat, digit_count as nat));
}

} // verus!
