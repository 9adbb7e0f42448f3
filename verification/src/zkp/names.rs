//! The names of witness cells and of columns.

use vstd::prelude::*;
use vstd::string::StringExecFns;

verus! {

/// The character for a decimal digit.
pub open spec fn decimal_digit(d: nat) -> char
    recommends
        d < 10,
{
    if d == 0 {
        '0'
    } else if d == 1 {
        '1'
    } else if d == 2 {
        '2'
    } else if d == 3 {
        '3'
    } else if d == 4 {
        '4'
    } else if d == 5 {
        '5'
    } else if d == 6 {
        '6'
    } else if d == 7 {
        '7'
    } else if d == 8 {
        '8'
    } else {
        '9'
    }
}

/// A number in decimal, without leading zeros.
pub open spec fn decimal(n: nat) -> Seq<char>
    decreases n,
{
    if n < 10 {
        seq![decimal_digit(n)]
    } else {
        decimal(n / 10).push(decimal_digit(n % 10))
    }
}

/// The cell that holds the program counter before step `step`.
pub open spec fn pc_before_name(step: nat) -> Seq<char> {
    "pc_before_"@ + decimal(step)
}

/// The cell that holds the program counter after step `step`.
pub open spec fn pc_after_name(step: nat) -> Seq<char> {
    "pc_after_"@ + decimal(step)
}

/// The cell that holds register `reg` before step `step`.
pub open spec fn reg_before_name(reg: nat, step: nat) -> Seq<char> {
    "reg_"@ + decimal(reg) + "_before_"@ + decimal(step)
}

/// The cell that holds register `reg` after step `step`.
pub open spec fn reg_after_name(reg: nat, step: nat) -> Seq<char> {
    "reg_"@ + decimal(reg) + "_after_"@ + decimal(step)
}

/// The column of register `reg` before a step.
pub open spec fn reg_before_column(reg: nat) -> Seq<char> {
    "reg_"@ + decimal(reg) + "_before"@
}

/// The column of register `reg` after a step.
pub open spec fn reg_after_column(reg: nat) -> Seq<char> {
    "reg_"@ + decimal(reg) + "_after"@
}

/// A decimal digit as text.
fn digit_text(d: usize) -> (text: &'static str)
    requires
        d < 10,
    ensures
        text@ == seq![decimal_digit(d as nat)],
{
    proof {
        reveal_strlit("0");
        reveal_strlit("1");
        reveal_strlit("2");
        reveal_strlit("3");
        reveal_strlit("4");
        reveal_strlit("5");
        reveal_strlit("6");
        reveal_strlit("7");
        reveal_strlit("8");
        reveal_strlit("9");
    }
    let text = if d == 0 {
        "0"
    } else if d == 1 {
        "1"
    } else if d == 2 {
        "2"
    } else if d == 3 {
        "3"
    } else if d == 4 {
        "4"
    } else if d == 5 {
        "5"
    } else if d == 6 {
        "6"
    } else if d == 7 {
        "7"
    } else if d == 8 {
        "8"
    } else {
        "9"
    };
    assert(text@ =~= seq![decimal_digit(d as nat)]);
    text
}

/// Appends `n` in decimal to `text`.
pub fn push_decimal(text: &mut String, n: usize)
    ensures
        final(text)@ == old(text)@ + decimal(n as nat),
    decreases n,
{
    if n >= 10 {
        push_decimal(text, n / 10);
    }
    let ghost before = text@;
    text.append(digit_text(n % 10));
    assert(text@ =~= old(text)@ + decimal(n as nat)) by {
        if n >= 10 {
            assert(before == old(text)@ + decimal((n / 10) as nat));
        }
    }
}

/// The text made of `prefix` and `n` in decimal.
pub fn numbered(prefix: &str, n: usize) -> (text: String)
    ensures
        text@ == prefix@ + decimal(n as nat),
{
    let mut text = String::from_str(prefix);
    push_decimal(&mut text, n);
    text
}

/// The text made of `prefix`, `a` in decimal, `middle`, and `b` in
/// decimal.
pub fn twice_numbered(prefix: &str, a: usize, middle: &str, b: usize) -> (text: String)
    ensures
        text@ == prefix@ + decimal(a as nat) + middle@ + decimal(b as nat),
{
    let mut text = String::from_str(prefix);
    push_decimal(&mut text, a);
    text.append(middle);
    push_decimal(&mut text, b);
    text
}

/// The name of the cell for the program counter before step `step`.
pub fn pc_before_var(step: usize) -> (name: String)
    ensures
        name@ == pc_before_name(step as nat),
{
    numbered("pc_before_", step)
}

/// The name of the cell for the program counter after step `step`.
pub fn pc_after_var(step: usize) -> (name: String)
    ensures
        name@ == pc_after_name(step as nat),
{
    numbered("pc_after_", step)
}

/// The name of the cell for register `reg` before step `step`.
pub fn reg_before_var(reg: usize, step: usize) -> (name: String)
    ensures
        name@ == reg_before_name(reg as nat, step as nat),
{
    twice_numbered("reg_", reg, "_before_", step)
}

/// The name of the cell for register `reg` after step `step`.
pub fn reg_after_var(reg: usize, step: usize) -> (name: String)
    ensures
        name@ == reg_after_name(reg as nat, step as nat),
{
    twice_numbered("reg_", reg, "_after_", step)
}

} // verus!
