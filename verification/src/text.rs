//! Writing numbers as text: decimal digits, and file sizes in binary units.

use vstd::prelude::*;

verus! {

pub const KB: u64 = 1024;

pub const MB: u64 = 1048576;

pub const GB: u64 = 1073741824;

pub const TB: u64 = 1099511627776;

/// The character of a decimal digit.
pub open spec fn digit_char(digit: nat) -> char {
    if digit == 0 {
        '0'
    } else if digit == 1 {
        '1'
    } else if digit == 2 {
        '2'
    } else if digit == 3 {
        '3'
    } else if digit == 4 {
        '4'
    } else if digit == 5 {
        '5'
    } else if digit == 6 {
        '6'
    } else if digit == 7 {
        '7'
    } else if digit == 8 {
        '8'
    } else {
        '9'
    }
}

/// A number in decimal digits, without leading zeros.
pub open spec fn decimal(number: nat) -> Seq<char>
    decreases number,
{
    if number < 10 {
        seq![digit_char(number)]
    } else {
        decimal(number / 10).push(digit_char(number % 10))
    }
}

fn digit_text(digit: u64) -> (text: &'static str)
    requires
        digit < 10,
    ensures
        text@ == seq![digit_char(digit as nat)],
{
    proof {
        reveal_strlit("0");
        reveal_strlit("1");
        reveal_strlit("2");
        reveal_strlit("3");
        reveal_strlit("4");
        reveal_strlit("5");
        reveal_strlit("6");
        reveal_strlit("7");
        reveal_strlit("8");
        reveal_strlit("9");
    }
    let text = if digit == 0 {
        "0"
    } else if digit == 1 {
        "1"
    } else if digit == 2 {
        "2"
    } else if digit == 3 {
        "3"
    } else if digit == 4 {
        "4"
    } else if digit == 5 {
        "5"
    } else if digit == 6 {
        "6"
    } else if digit == 7 {
        "7"
    } else if digit == 8 {
        "8"
    } else {
        "9"
    };
    assert(text@ =~= seq![digit_char(digit as nat)]);
    text
}

/// Writes a number in decimal digits.
pub fn to_decimal(number: u64) -> (text: String)
    ensures
        text@ == decimal(number as nat),
    decreases number,
{
    if number < 10 {
        String::from_str(digit_text(number))
    } else {
        let mut text = to_decimal(number / 10);
        text.append(digit_text(number % 10));
        assert(text@ =~= decimal(number as nat));
        text
    }
}

/// The value that a size has once it is held with 53 significant bits, the
/// nearest such value, and of two equally near ones the even one. Sizes below
/// 2^53 are held as they are.
pub open spec fn held(size: nat) -> nat {
    if size < 0x20_0000_0000_0000 {
        size
    } else {
        let step: nat = if size < 0x40_0000_0000_0000 {
            2
        } else if size < 0x80_0000_0000_0000 {
            4
        } else if size < 0x100_0000_0000_0000 {
            8
        } else if size < 0x200_0000_0000_0000 {
            16
        } else if size < 0x400_0000_0000_0000 {
            32
        } else if size < 0x800_0000_0000_0000 {
            64
        } else if size < 0x1000_0000_0000_0000 {
            128
        } else if size < 0x2000_0000_0000_0000 {
            256
        } else if size < 0x4000_0000_0000_0000 {
            512
        } else if size < 0x8000_0000_0000_0000 {
            1024
        } else {
            2048
        };
        nearest_even(size, step) * step
    }
}

/// The quotient of `value` by `unit`, rounded to the nearest whole number,
/// and to the even one of two equally near.
pub open spec fn nearest_even(value: nat, unit: nat) -> nat
    recommends
        unit > 0,
{
    let whole = value / unit;
    let rest = value % unit;
    if 2 * rest > unit || (2 * rest == unit && whole % 2 == 1) {
        whole + 1
    } else {
        whole
    }
}

/// The size in hundredths of the unit.
pub open spec fn hundredths(size: nat, unit: nat) -> nat {
    nearest_even(held(size) * 100, unit)
}

/// A count of hundredths written with two decimals, then a space and the unit's name.
pub open spec fn scaled_text(amount: nat, unit_name: Seq<char>) -> Seq<char> {
    decimal(amount / 100) + seq!['.', digit_char(amount % 100 / 10), digit_char(amount % 10), ' ']
        + unit_name
}

/// A size as text: in bytes below 1 KiB (`N B`), else in the largest of KB,
/// MB, GB and TB (powers of 1024) that does not exceed it, with two decimals.
pub open spec fn size_text(size: u64) -> Seq<char> {
    if size >= TB {
        scaled_text(hundredths(size as nat, TB as nat), "TB"@)
    } else if size >= GB {
        scaled_text(hundredths(size as nat, GB as nat), "GB"@)
    } else if size >= MB {
        scaled_text(hundredths(size as nat, MB as nat), "MB"@)
    } else if size >= KB {
        scaled_text(hundredths(size as nat, KB as nat), "KB"@)
    } else {
        decimal(size as nat) + " B"@
    }
}

fn round_nearest_even(value: u128, unit: u128) -> (rounded: u128)
    requires
        unit > 0,
        unit <= u64::MAX,
    ensures
        rounded == nearest_even(value as nat, unit as nat),
{
    let whole = value / unit;
    let rest = value % unit;
    if 2 * rest > unit || (2 * rest == unit && whole % 2 == 1) {
        assert(whole + 1 <= u128::MAX) by {
            assert(whole <= value) by (nonlinear_arith)
                requires
                    whole == value / unit,
                    unit > 0,
            ;
            assert(rest >= 1);
            assert(value == unit * whole + rest) by (nonlinear_arith)
                requires
                    whole == value / unit,
                    rest == value % unit,
                    unit > 0,
            ;
            assert(whole < value) by (nonlinear_arith)
                requires
                    value == unit * whole + rest,
                    rest >= 1,
                    unit >= 1,
                    whole >= 0,
            ;
        }
        whole + 1
    } else {
        whole
    }
}

fn hold(size: u64) -> (kept: u128)
    ensures
        kept == held(size as nat),
        kept <= 0x2_0000_0000_0000_0000,
{
    if size < 0x20_0000_0000_0000 {
        return size as u128;
    }
    let step: u64 = if size < 0x40_0000_0000_0000 {
        2
    } else if size < 0x80_0000_0000_0000 {
        4
    } else if size < 0x100_0000_0000_0000 {
        8
    } else if size < 0x200_0000_0000_0000 {
        16
    } else if size < 0x400_0000_0000_0000 {
        32
    } else if size < 0x800_0000_0000_0000 {
        64
    } else if size < 0x1000_0000_0000_0000 {
        128
    } else if size < 0x2000_0000_0000_0000 {
        256
    } else if size < 0x4000_0000_0000_0000 {
        512
    } else if size < 0x8000_0000_0000_0000 {
        1024
    } else {
        2048
    };
    let count = round_nearest_even(size as u128, step as u128);
    assert(count * step <= size + step) by (nonlinear_arith)
        requires
            count <= size as int / step as int + 1,
            step > 0,
            count >= 0,
    ;
    count * step as u128
}

fn hundredths_of(size: u64, unit: u64) -> (amount: u64)
    requires
        unit >= 1024,
    ensures
        amount == hundredths(size as nat, unit as nat),
{
    let kept = hold(size);
    let amount = round_nearest_even(kept * 100, unit as u128);
    assert(amount <= u64::MAX) by (nonlinear_arith)
        requires
            amount <= (kept * 100) as int / unit as int + 1,
            kept <= 0x2_0000_0000_0000_0000,
            unit >= 1024,
    ;
    amount as u64
}

fn scaled(amount: u64, unit_name: &str) -> (text: String)
    ensures
        text@ == scaled_text(amount as nat, unit_name@),
{
    proof {
        reveal_strlit(".");
        reveal_strlit(" ");
    }
    let mut text = to_decimal(amount / 100);
    text.append(".");
    text.append(digit_text(amount % 100 / 10));
    text.append(digit_text(amount % 10));
    text.append(" ");
    text.append(unit_name);
    assert(text@ =~= scaled_text(amount as nat, unit_name@));
    text
}

/// Writes a size for display: `N B` below 1 KiB, else with two decimals in
/// KB, MB, GB or TB.
pub fn format_size(size: u64) -> (text: String)
    ensures
        text@ == size_text(size),
{
    if size >= TB {
        scaled(hundredths_of(size, TB), "TB")
    } else if size >= GB {
        scaled(hundredths_of(size, GB), "GB")
    } else if size >= MB {
        scaled(hundredths_of(size, MB), "MB")
    } else if size >= KB {
        scaled(hundredths_of(size, KB), "KB")
    } else {
        let mut text = to_decimal(size);
        text.append(" B");
        text
    }
}

/// A byte count as text for the queue: as [`size_text`], but with GB as the
/// largest unit.
pub open spec fn bytes_text(size: u64) -> Seq<char> {
    if size >= GB {
        scaled_text(hundredths(size as nat, GB as nat), "GB"@)
    } else {
        size_text(size)
    }
}

/// Writes a byte count for the queue: `N B` below 1 KiB, else with two
/// decimals in KB, MB or GB.
pub fn format_bytes(size: u64) -> (text: String)
    ensures
        text@ == bytes_text(size),
{
    if size >= GB {
        scaled(hundredths_of(size, GB), "GB")
    } else {
        format_size(size)
    }
}

/// A number written with at least two digits.
pub open spec fn two_digits(number: nat) -> Seq<char> {
    if number < 10 {
        seq!['0'] + decimal(number)
    } else {
        decimal(number)
    }
}

/// A time of day on the twelve-hour clock: `HH:MM AM` or `HH:MM PM`, where
/// midnight and noon read as 12.
pub open spec fn clock_text(hour: u8, minute: u8) -> Seq<char> {
    let shown: nat = if hour % 12 == 0 {
        12
    } else {
        (hour % 12) as nat
    };
    two_digits(shown) + ":"@ + two_digits(minute as nat) + (if hour >= 12 {
        " PM"@
    } else {
        " AM"@
    })
}

fn write_two_digits(number: u8) -> (text: String)
    ensures
        text@ == two_digits(number as nat),
{
    proof {
        reveal_strlit("0");
    }
    if number < 10 {
        let digits = to_decimal(number as u64);
        let text = String::from_str("0").concat(digits.as_str());
        assert(text@ =~= two_digits(number as nat));
        text
    } else {
        to_decimal(number as u64)
    }
}

/// Writes a time of day on the twelve-hour clock.
pub fn format_time(hour: u8, minute: u8) -> (text: String)
    ensures
        text@ == clock_text(hour, minute),
{
    let shown: u8 = if hour % 12 == 0 {
        12
    } else {
        hour % 12
    };
    let mut text = write_two_digits(shown);
    text.append(":");
    let minutes = write_two_digits(minute);
    text.append(minutes.as_str());
    if hour >= 12 {
        text.append(" PM");
    } else {
        text.append(" AM");
    }
    text
}

} // verus!
