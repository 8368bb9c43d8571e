//! Text helpers shared by the rest of the crate: comparison of string
//! slices, decimal rendering with zero padding, and joining of parts.

use vstd::prelude::*;
use vstd::string::StringExecFns;

verus! {

/// `String::push` appends one character to the end of the string.
pub assume_specification[ String::push ](s: &mut String, ch: char)
    ensures
        final(s)@ == old(s)@.push(ch),
;

/// `str`'s `==`: two slices are equal exactly when they hold the same
/// characters.
#[verifier::external_body]
pub(crate) fn str_eq(a: &str, b: &str) -> (same: bool)
    ensures
        same == (a@ == b@),
{
    a == b
}

/// The character of a decimal digit.
pub open spec fn digit_char(d: int) -> char {
    if d == 0 {
        '0'
    } else if d == 1 {
        '1'
    } else if d == 2 {
        '2'
    } else if d == 3 {
        '3'
    } else if d == 4 {
        '4'
    } else if d == 5 {
        '5'
    } else if d == 6 {
        '6'
    } else if d == 7 {
        '7'
    } else if d == 8 {
        '8'
    } else {
        '9'
    }
}

/// The decimal digits of `n`, most significant first, without leading zeros
/// (a single `0` for zero).
pub open spec fn decimal(n: nat) -> Seq<char>
    decreases n,
{
    if n < 10 {
        seq![digit_char(n as int)]
    } else {
        decimal(n / 10).push(digit_char((n % 10) as int))
    }
}

/// `count` zeros.
pub open spec fn zeros(count: nat) -> Seq<char> {
    Seq::new(count, |i: int| '0')
}

/// The decimal digits of `n`, filled on the left with zeros up to `width`
/// characters; longer numbers are not cut.
pub open spec fn zero_padded(n: nat, width: nat) -> Seq<char> {
    let digits = decimal(n);
    if digits.len() >= width {
        digits
    } else {
        zeros((width - digits.len()) as nat) + digits
    }
}

fn digit_of(d: u8) -> (c: char)
    requires
        d < 10,
    ensures
        c == digit_char(d as int),
{
    if d == 0 {
        '0'
    } else if d == 1 {
        '1'
    } else if d == 2 {
        '2'
    } else if d == 3 {
        '3'
    } else if d == 4 {
        '4'
    } else if d == 5 {
        '5'
    } else if d == 6 {
        '6'
    } else if d == 7 {
        '7'
    } else if d == 8 {
        '8'
    } else {
        '9'
    }
}

/// The digits of `n` from the least significant one upwards.
spec fn digits_reversed(n: nat) -> Seq<char>
    decreases n,
{
    if n < 10 {
        seq![digit_char(n as int)]
    } else {
        seq![digit_char((n % 10) as int)] + digits_reversed(n / 10)
    }
}

proof fn lemma_digits_reversed(n: nat)
    ensures
        digits_reversed(n) == decimal(n).reverse(),
    decreases n,
{
    if n < 10 {
        assert(digits_reversed(n) =~= decimal(n).reverse());
    } else {
        lemma_digits_reversed(n / 10);
        let head = decimal(n / 10);
        let last = digit_char((n % 10) as int);
        assert(head.push(last).reverse() =~= seq![last] + head.reverse());
    }
}

/// Renders `n` in decimal, zero-padded on the left to at least `width`
/// characters.
pub fn pad_decimal(n: u128, width: usize) -> (text: String)
    ensures
        text@ == zero_padded(n as nat, width as nat),
{
    let mut low_first: Vec<char> = Vec::new();
    let mut rest: u128 = n;
    while rest >= 10
        invariant
            low_first@ + digits_reversed(rest as nat) == digits_reversed(n as nat),
        decreases rest,
    {
        let d: u8 = (rest % 10) as u8;
        proof {
            assert(low_first@.push(digit_char(d as int)) + digits_reversed((rest / 10) as nat)
                =~= low_first@ + digits_reversed(rest as nat));
        }
        low_first.push(digit_of(d));
        rest = rest / 10;
    }
    let last: u8 = rest as u8;
    low_first.push(digit_of(last));
    proof {
        lemma_digits_reversed(n as nat);
        assert(low_first@ =~= digits_reversed(n as nat));
        assert(low_first@.reverse().reverse() =~= low_first@);
        assert(decimal(n as nat).reverse().reverse() =~= decimal(n as nat));
    }
    let ghost digits = decimal(n as nat);
    assert(low_first@ == digits.reverse());
    let mut text = String::new();
    let mut pad: usize = low_first.len();
    while pad < width
        invariant
            low_first.len() <= pad,
            text@ == zeros((pad - low_first.len()) as nat),
            pad <= width || pad == low_first.len(),
        decreases width - pad,
    {
        text.push('0');
        pad = pad + 1;
        assert(text@ =~= zeros((pad - low_first.len()) as nat));
    }
    let ghost padding = text@;
    let mut left: usize = low_first.len();
    while left > 0
        invariant
            left <= low_first.len(),
            low_first@ == digits.reverse(),
            text@ == padding + digits.subrange(0, low_first.len() - left),
        decreases left,
    {
        left = left - 1;
        let c: char = low_first[left];
        text.push(c);
        proof {
            let k = low_first.len() - left - 1;
            assert(digits.reverse()[left as int] == digits[k]);
            assert(digits.subrange(0, k + 1) =~= digits.subrange(0, k).push(digits[k]));
            assert(text@ =~= padding + digits.subrange(0, k + 1));
        }
    }
    proof {
        assert(digits.subrange(0, digits.len() as int) =~= digits);
        assert(zeros(0) + digits =~= digits);
    }
    text
}

/// The parts of `parts` written one after another, with `separator` between
/// each two neighbours.
pub open spec fn joined(parts: Seq<Seq<char>>, separator: Seq<char>) -> Seq<char>
    decreases parts.len(),
{
    if parts.len() == 0 {
        Seq::empty()
    } else if parts.len() == 1 {
        parts[0]
    } else {
        joined(parts.drop_last(), separator) + separator + parts.last()
    }
}

/// The views of the strings of `parts`.
pub open spec fn views_of(parts: Seq<String>) -> Seq<Seq<char>> {
    parts.map(|i: int, s: String| s@)
}

/// Joins `parts` with `separator` between each two neighbours.
pub fn join(parts: &Vec<String>, separator: &str) -> (text: String)
    ensures
        text@ == joined(views_of(parts@), separator@),
{
    let mut text = String::new();
    let mut i: usize = 0;
    let ghost views = views_of(parts@);
    while i < parts.len()
        invariant
            i <= parts.len(),
            views == views_of(parts@),
            text@ == joined(views.subrange(0, i as int), separator@),
        decreases parts.len() - i,
    {
        if i > 0 {
            text.append(separator);
        }
        text.append(parts[i].as_str());
        proof {
            let before = views.subrange(0, i as int);
            let after = views.subrange(0, i + 1);
            assert(after.drop_last() =~= before);
            assert(after.last() == parts@[i as int]@);
            if i == 0 {
                assert(text@ =~= after[0]);
            }
        }
        i = i + 1;
    }
    assert(views.subrange(0, parts.len() as int) =~= views);
    text
}

/// A label followed by the parts, separated by commas, in square brackets.
pub open spec fn bracketed_text(label: Seq<char>, parts: Seq<Seq<char>>) -> Seq<char> {
    label + seq!['['] + joined(parts, seq![',']) + seq![']']
}

/// Writes `label` and, in square brackets, `parts` separated by commas.
pub fn bracketed(label: &str, parts: &Vec<String>) -> (text: String)
    ensures
        text@ == bracketed_text(label@, views_of(parts@)),
{
    proof {
        reveal_strlit("[");
        reveal_strlit(",");
        reveal_strlit("]");
    }
    let mut text = String::from_str(label);
    text.append("[");
    let inner = join(parts, ",");
    assert(","@ =~= seq![',']);
    text.append(inner.as_str());
    text.append("]");
    assert(text@ =~= bracketed_text(label@, views_of(parts@)));
    text
}

} // verus!
