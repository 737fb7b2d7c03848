//! Instance names: a kind name followed by a decimal suffix.

use vstd::prelude::*;
use vstd::string::StringExecFns;

verus! {

/// The character that renders the digit `d`.
pub open spec fn digit(d: nat) -> char {
    if d == 0 {
        '0'
    } else if d == 1 {
        '1'
    } else if d == 2 {
        '2'
    } else if d == 3 {
        '3'
    } else if d == 4 {
        '4'
    } else if d == 5 {
        '5'
    } else if d == 6 {
        '6'
    } else if d == 7 {
        '7'
    } else if d == 8 {
        '8'
    } else {
        '9'
    }
}

/// The decimal rendering of `n`, most significant digit first, without
/// leading zeros.
pub open spec fn decimal(n: nat) -> Seq<char>
    decreases n,
{
    if n < 10 {
        seq![digit(n)]
    } else {
        decimal(n / 10).push(digit(n % 10))
    }
}

/// The name of the `i`-th instance of the kind `kind`: the kind name alone
/// for the first one, the kind name followed by `i` in decimal afterwards.
pub open spec fn suffixed(kind: Seq<char>, i: nat) -> Seq<char> {
    if i == 0 {
        kind
    } else {
        kind + decimal(i)
    }
}

/// A decimal rendering is never empty, and has two characters or more from
/// ten on.
pub proof fn lemma_decimal_len(n: nat)
    ensures
        decimal(n).len() >= 1,
        n >= 10 ==> decimal(n).len() >= 2,
    decreases n,
{
    if n >= 10 {
        lemma_decimal_len(n / 10);
    }
}

/// Two numbers with the same decimal rendering are equal.
pub proof fn lemma_decimal_injective(a: nat, b: nat)
    requires
        decimal(a) == decimal(b),
    ensures
        a == b,
    decreases a,
{
    lemma_decimal_len(a);
    lemma_decimal_len(b);
    if a < 10 || b < 10 {
        assert(decimal(a)[0] == digit(a));
        assert(decimal(b)[0] == digit(b));
    } else {
        let da = decimal(a / 10);
        let db = decimal(b / 10);
        assert(decimal(a).last() == digit(a % 10));
        assert(decimal(b).last() == digit(b % 10));
        assert(decimal(a).drop_last() =~= da);
        assert(decimal(b).drop_last() =~= db);
        lemma_decimal_injective(a / 10, b / 10);
    }
}

/// Two instances of one kind have the same name only if they have the same
/// number.
pub proof fn lemma_suffixed_injective(kind: Seq<char>, i: nat, j: nat)
    requires
        suffixed(kind, i) == suffixed(kind, j),
    ensures
        i == j,
{
    lemma_decimal_len(i);
    lemma_decimal_len(j);
    if i != 0 && j != 0 {
        let n = kind.len() as int;
        let a = kind + decimal(i);
        let b = kind + decimal(j);
        assert(a.subrange(n, a.len() as int) =~= decimal(i));
        assert(b.subrange(n, b.len() as int) =~= decimal(j));
        lemma_decimal_injective(i, j);
    } else if i != 0 {
        assert((kind + decimal(i)).len() > kind.len());
    } else if j != 0 {
        assert((kind + decimal(j)).len() > kind.len());
    }
}

/// The one-character string for a digit.
fn digit_str(d: usize) -> (r: &'static str)
    requires
        d < 10,
    ensures
        r@ == seq![digit(d as nat)],
{
    proof {
        reveal_strlit("0");
        reveal_strlit("1");
        reveal_strlit("2");
        reveal_strlit("3");
        reveal_strlit("4");
        reveal_strlit("5");
        reveal_strlit("6");
        reveal_strlit("7");
        reveal_strlit("8");
        reveal_strlit("9");
    }
    let r: &'static str = if d == 0 {
        "0"
    } else if d == 1 {
        "1"
    } else if d == 2 {
        "2"
    } else if d == 3 {
        "3"
    } else if d == 4 {
        "4"
    } else if d == 5 {
        "5"
    } else if d == 6 {
        "6"
    } else if d == 7 {
        "7"
    } else if d == 8 {
        "8"
    } else {
        "9"
    };
    assert(r@ =~= seq![digit(d as nat)]);
    r
}

/// Appends the decimal rendering of `n` to `out`.
fn push_decimal(out: &mut String, n: usize)
    ensures
        final(out)@ == old(out)@ + decimal(n as nat),
    decreases n,
{
    if n >= 10 {
        push_decimal(out, n / 10);
    }
    out.append(digit_str(n % 10));
    assert(out@ =~= old(out)@ + decimal(n as nat));
}

/// Generates the name of the `i`-th instance of the kind named `s`.
pub fn format_name(s: &str, i: usize) -> (r: String)
    ensures
        r@ == suffixed(s@, i as nat),
{
    let mut name: String = String::from_str(s);
    if i != 0 {
        push_decimal(&mut name, i);
    }
    name
}

} // verus!
