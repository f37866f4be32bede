//! Human-readable byte sizes for the status page.

use vstd::prelude::*;

verus! {

pub const KB: i64 = 1024;
pub const MB: i64 = 1024 * 1024;
pub const GB: i64 = 1024 * 1024 * 1024;

pub open spec fn digit_char(d: int) -> char {
    if d == 0 { '0' } else if d == 1 { '1' } else if d == 2 { '2' } else if d == 3 { '3' } else if d == 4 { '4' }
    else if d == 5 { '5' } else if d == 6 { '6' } else if d == 7 { '7' } else if d == 8 { '8' } else { '9' }
}

/// Decimal digits of `n`, most significant first.
pub open spec fn dec_text(n: nat) -> Seq<char>
    decreases n,
{
    if n < 10 {
        seq![digit_char(n as int)]
    } else {
        dec_text(n / 10).push(digit_char((n % 10) as int))
    }
}

/// Decimal text of an integer, with a leading `-` when negative.
pub open spec fn int_text(n: int) -> Seq<char> {
    if n < 0 { seq!['-'] + dec_text((-n) as nat) } else { dec_text(n as nat) }
}

/// `b / unit` in hundredths, rounded to nearest with ties to even.
pub open spec fn hundredths(b: nat, unit: nat) -> nat {
    let q = (b * 100) / unit;
    let r = (b * 100) % unit;
    if 2 * r > unit || (2 * r == unit && q % 2 == 1) { q + 1 } else { q }
}

/// A count of hundredths with two decimals.
pub open spec fn two_decimals_text(h: nat) -> Seq<char> {
    dec_text(h / 100) + seq!['.', digit_char(((h / 10) % 10) as int), digit_char((h % 10) as int)]
}

/// The size in the largest unit it reaches (GB, MB, KB) with two
/// decimals, else in bytes.
pub open spec fn bytes_text(b: int) -> Seq<char> {
    if b >= GB {
        two_decimals_text(hundredths(b as nat, GB as nat)) + " GB"@
    } else if b >= MB {
        two_decimals_text(hundredths(b as nat, MB as nat)) + " MB"@
    } else if b >= KB {
        two_decimals_text(hundredths(b as nat, KB as nat)) + " KB"@
    } else {
        int_text(b) + " B"@
    }
}

fn digit_str(d: u64) -> (r: &'static str)
    requires
        d < 10,
    ensures
        r@ == seq![digit_char(d as int)],
{
    proof {
        reveal_strlit("0");
        reveal_strlit("1");
        reveal_strlit("2");
        reveal_strlit("3");
        reveal_strlit("4");
        reveal_strlit("5");
        reveal_strlit("6");
        reveal_strlit("7");
        reveal_strlit("8");
        reveal_strlit("9");
    }
    let r = if d == 0 { "0" } else if d == 1 { "1" } else if d == 2 { "2" } else if d == 3 { "3" }
        else if d == 4 { "4" } else if d == 5 { "5" } else if d == 6 { "6" } else if d == 7 { "7" }
        else if d == 8 { "8" } else { "9" };
    assert(r@ =~= seq![digit_char(d as int)]);
    r
}

fn push_decimal(s: &mut String, n: u64)
    ensures
        final(s)@ == old(s)@ + dec_text(n as nat),
    decreases n,
{
    if n >= 10 {
        push_decimal(s, n / 10);
    }
    s.append(digit_str(n % 10));
    proof {
        if n >= 10 {
            assert(final(s)@ =~= old(s)@ + dec_text(n as nat));
        } else {
            assert(final(s)@ =~= old(s)@ + dec_text(n as nat));
        }
    }
}

fn push_two_decimals(s: &mut String, b: i64, unit: i64)
    requires
        b >= unit > 0,
    ensures
        final(s)@ == old(s)@ + two_decimals_text(hundredths(b as nat, unit as nat)),
{
    let scaled: u128 = (b as u128) * 100;
    let q: u128 = scaled / (unit as u128);
    let r: u128 = scaled % (unit as u128);
    proof {
        assert(q <= scaled) by (nonlinear_arith)
            requires q == scaled / (unit as u128), unit >= 1;
    }
    let h: u128 = if 2 * r > unit as u128 || (2 * r == unit as u128 && q % 2 == 1) { q + 1 } else { q };
    proof {
        assert(h as nat == hundredths(b as nat, unit as nat));
        assert(h <= 100 * 0x8000_0000_0000_0000u128 + 1);
    }
    push_decimal(s, (h / 100) as u64);
    s.append(".");
    s.append(digit_str(((h / 10) % 10) as u64));
    s.append(digit_str((h % 10) as u64));
    proof {
        reveal_strlit(".");
        assert(final(s)@ =~= old(s)@ + two_decimals_text(h as nat));
    }
}

/// Formats a byte count for display: `1.50 KB`, `2.00 GB`, `512 B`.
pub fn format_bytes(bytes: i64) -> (r: String)
    ensures
        r@ == bytes_text(bytes as int),
{
    let mut s = String::new();
    if bytes >= GB {
        push_two_decimals(&mut s, bytes, GB);
        s.append(" GB");
    } else if bytes >= MB {
        push_two_decimals(&mut s, bytes, MB);
        s.append(" MB");
    } else if bytes >= KB {
        push_two_decimals(&mut s, bytes, KB);
        s.append(" KB");
    } else {
        if bytes < 0 {
            s.append("-");
            let mag: u64 = (0 - (bytes as i128)) as u64;
            push_decimal(&mut s, mag);
            proof {
                reveal_strlit("-");
            }
        } else {
            push_decimal(&mut s, bytes as u64);
        }
        s.append(" B");
    }
    assert(s@ =~= bytes_text(bytes as int));
    s
}

} // verus!
