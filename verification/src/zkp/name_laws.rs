//! What holds of cell names: different cells have different names.

use super::names::{
    decimal, decimal_digit, pc_after_name, pc_before_name, reg_after_name, reg_before_name,
};
use vstd::prelude::*;

verus! {

/// Whether a character is a decimal digit.
pub open spec fn is_digit(c: char) -> bool {
    '0' <= c <= '9'
}

/// Whether a text is empty or starts with something else than a digit.
pub open spec fn starts_without_digit(text: Seq<char>) -> bool {
    text.len() == 0 || !is_digit(text[0])
}

/// Whether a text is not empty and made of digits.
pub open spec fn is_number(text: Seq<char>) -> bool {
    text.len() > 0 && forall|i: int| 0 <= i < text.len() ==> is_digit(#[trigger] text[i])
}

/// A number in decimal is made of digits, and has one digit exactly where
/// it is below ten.
pub proof fn lemma_decimal_is_number(n: nat)
    ensures
        is_number(decimal(n)),
        n < 10 <==> decimal(n).len() == 1,
    decreases n,
{
    if n >= 10 {
        lemma_decimal_is_number(n / 10);
    }
}

/// Different numbers are different in decimal.
pub proof fn lemma_decimal_injective(a: nat, b: nat)
    requires
        decimal(a) == decimal(b),
    ensures
        a == b,
    decreases a,
{
    lemma_decimal_is_number(a);
    lemma_decimal_is_number(b);
    if a >= 10 {
        assert(decimal(a).drop_last() =~= decimal(a / 10));
        assert(decimal(b).drop_last() =~= decimal(b / 10));
        assert(decimal(a).last() == decimal_digit(a % 10));
        assert(decimal(b).last() == decimal_digit(b % 10));
        lemma_decimal_injective(a / 10, b / 10);
    } else {
        assert(decimal(a)[0] == decimal_digit(a));
        assert(decimal(b)[0] == decimal_digit(b));
    }
}

/// A text has one split into a number in front and a rest that does not
/// go on with a digit.
pub proof fn lemma_number_prefix_unique(
    first: Seq<char>,
    first_rest: Seq<char>,
    second: Seq<char>,
    second_rest: Seq<char>,
)
    requires
        is_number(first),
        is_number(second),
        starts_without_digit(first_rest),
        starts_without_digit(second_rest),
        first + first_rest == second + second_rest,
    ensures
        first == second,
        first_rest == second_rest,
{
    let whole = first + first_rest;
    if first.len() < second.len() {
        let at = first.len() as int;
        assert(whole[at] == second[at]);
        if first_rest.len() > 0 {
            assert(whole[at] == first_rest[0]);
        } else {
            assert(whole.len() == first.len());
        }
        assert(false);
    }
    if second.len() < first.len() {
        let at = second.len() as int;
        assert(whole[at] == first[at]);
        if second_rest.len() > 0 {
            assert((second + second_rest)[at] == second_rest[0]);
        } else {
            assert((second + second_rest).len() == second.len());
        }
        assert(false);
    }
    assert(first =~= whole.take(first.len() as int));
    assert(second =~= (second + second_rest).take(second.len() as int));
    assert(first_rest =~= whole.skip(first.len() as int));
    assert(second_rest =~= (second + second_rest).skip(second.len() as int));
}

/// Texts that are equal behind the same front are equal.
pub proof fn lemma_same_front(front: Seq<char>, a: Seq<char>, b: Seq<char>)
    requires
        front + a == front + b,
    ensures
        a == b,
{
    assert(a =~= (front + a).skip(front.len() as int));
    assert(b =~= (front + b).skip(front.len() as int));
}

/// The cells of the program counter before a step have different names
/// for different steps.
pub proof fn lemma_pc_before_names_differ(a: nat, b: nat)
    requires
        pc_before_name(a) == pc_before_name(b),
    ensures
        a == b,
{
    lemma_same_front("pc_before_"@, decimal(a), decimal(b));
    lemma_decimal_injective(a, b);
}

/// The cells of the program counter after a step have different names
/// for different steps.
pub proof fn lemma_pc_after_names_differ(a: nat, b: nat)
    requires
        pc_after_name(a) == pc_after_name(b),
    ensures
        a == b,
{
    lemma_same_front("pc_after_"@, decimal(a), decimal(b));
    lemma_decimal_injective(a, b);
}

/// The name of a program counter cell is the name of no other kind of
/// cell.
pub proof fn lemma_pc_names_apart(a: nat, b: nat, reg: nat)
    ensures
        pc_before_name(a) != pc_after_name(b),
        pc_before_name(a) != reg_before_name(reg, b),
        pc_before_name(a) != reg_after_name(reg, b),
        pc_after_name(a) != reg_before_name(reg, b),
        pc_after_name(a) != reg_after_name(reg, b),
{
    reveal_strlit("pc_before_");
    reveal_strlit("pc_after_");
    reveal_strlit("reg_");
    assert(pc_before_name(a)[3] == 'b');
    assert(pc_after_name(b)[3] == 'a');
    assert(pc_before_name(a)[0] == 'p');
    assert(pc_after_name(a)[0] == 'p');
    assert(reg_before_name(reg, b)[0] == 'r');
    assert(reg_after_name(reg, b)[0] == 'r');
}

/// The cells of a register before a step have different names for
/// different registers or steps.
pub proof fn lemma_reg_before_names_differ(reg_a: nat, a: nat, reg_b: nat, b: nat)
    requires
        reg_before_name(reg_a, a) == reg_before_name(reg_b, b),
    ensures
        reg_a == reg_b,
        a == b,
{
    reveal_strlit("_before_");
    let rest_a = "_before_"@ + decimal(a);
    let rest_b = "_before_"@ + decimal(b);
    assert(reg_before_name(reg_a, a) =~= "reg_"@ + (decimal(reg_a) + rest_a));
    assert(reg_before_name(reg_b, b) =~= "reg_"@ + (decimal(reg_b) + rest_b));
    lemma_same_front("reg_"@, decimal(reg_a) + rest_a, decimal(reg_b) + rest_b);
    lemma_decimal_is_number(reg_a);
    lemma_decimal_is_number(reg_b);
    assert(rest_a[0] == '_');
    assert(rest_b[0] == '_');
    lemma_number_prefix_unique(decimal(reg_a), rest_a, decimal(reg_b), rest_b);
    lemma_decimal_injective(reg_a, reg_b);
    lemma_same_front("_before_"@, decimal(a), decimal(b));
    lemma_decimal_injective(a, b);
}

/// The cells of a register after a step have different names for
/// different registers or steps.
pub proof fn lemma_reg_after_names_differ(reg_a: nat, a: nat, reg_b: nat, b: nat)
    requires
        reg_after_name(reg_a, a) == reg_after_name(reg_b, b),
    ensures
        reg_a == reg_b,
        a == b,
{
    reveal_strlit("_after_");
    let rest_a = "_after_"@ + decimal(a);
    let rest_b = "_after_"@ + decimal(b);
    assert(reg_after_name(reg_a, a) =~= "reg_"@ + (decimal(reg_a) + rest_a));
    assert(reg_after_name(reg_b, b) =~= "reg_"@ + (decimal(reg_b) + rest_b));
    lemma_same_front("reg_"@, decimal(reg_a) + rest_a, decimal(reg_b) + rest_b);
    lemma_decimal_is_number(reg_a);
    lemma_decimal_is_number(reg_b);
    assert(rest_a[0] == '_');
    assert(rest_b[0] == '_');
    lemma_number_prefix_unique(decimal(reg_a), rest_a, decimal(reg_b), rest_b);
    lemma_decimal_injective(reg_a, reg_b);
    lemma_same_front("_after_"@, decimal(a), decimal(b));
    lemma_decimal_injective(a, b);
}

/// The name of a register cell before a step is the name of no register
/// cell after a step.
pub proof fn lemma_reg_names_apart(reg_a: nat, a: nat, reg_b: nat, b: nat)
    ensures
        reg_before_name(reg_a, a) != reg_after_name(reg_b, b),
{
    if reg_before_name(reg_a, a) == reg_after_name(reg_b, b) {
        reveal_strlit("_before_");
        reveal_strlit("_after_");
        let rest_a = "_before_"@ + decimal(a);
        let rest_b = "_after_"@ + decimal(b);
        assert(reg_before_name(reg_a, a) =~= "reg_"@ + (decimal(reg_a) + rest_a));
        assert(reg_after_name(reg_b, b) =~= "reg_"@ + (decimal(reg_b) + rest_b));
        lemma_same_front("reg_"@, decimal(reg_a) + rest_a, decimal(reg_b) + rest_b);
        lemma_decimal_is_number(reg_a);
        lemma_decimal_is_number(reg_b);
        assert(rest_a[0] == '_');
        assert(rest_b[0] == '_');
        lemma_number_prefix_unique(decimal(reg_a), rest_a, decimal(reg_b), rest_b);
        assert(rest_a[1] == 'b');
        assert(rest_b[1] == 'a');
        assert(false);
    }
}

} // verus!
