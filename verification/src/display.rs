//! Formatting of numbers and of highlighted contamination text for display.

use vstd::prelude::*;
use vstd::string::StringExecFns;
use crate::text::{chars_of, push_char};

verus! {

/// The terminal color code that a highlight marker stands for, or the
/// character itself: passages cyan, questions red, answers magenta, and each
/// closing marker a reset.
pub open spec fn highlight_code(c: char) -> Seq<char> {
    if c == '\u{27e8}' {
        "\x1b[36m"@
    } else if c == '\u{27e9}' {
        "\x1b[0m"@
    } else if c == '\u{3010}' {
        "\x1b[31m"@
    } else if c == '\u{3011}' {
        "\x1b[0m"@
    } else if c == '\u{27e6}' {
        "\x1b[35m"@
    } else if c == '\u{27e7}' {
        "\x1b[0m"@
    } else {
        seq![c]
    }
}

/// A text with each highlight marker replaced by its color code.
pub open spec fn spec_bold_highlights(s: Seq<char>) -> Seq<char>
    decreases s.len(),
{
    if s.len() == 0 {
        Seq::empty()
    } else {
        spec_bold_highlights(s.drop_last()) + highlight_code(s.last())
    }
}

/// Converts the bracket highlights of a text into terminal colors.
pub fn format_with_bold_highlights(text: &str) -> (res: String)
    ensures
        res@ == spec_bold_highlights(text@),
{
    let chars = chars_of(text);
    let mut res = String::new();
    let mut i: usize = 0;
    while i < chars.len()
        invariant
            i <= chars@.len(),
            chars@ == text@,
            res@ == spec_bold_highlights(chars@.take(i as int)),
        decreases chars@.len() - i,
    {
        let c = chars[i];
        if c == '\u{27e8}' {
            res.append("\x1b[36m");
        } else if c == '\u{27e9}' {
            res.append("\x1b[0m");
        } else if c == '\u{3010}' {
            res.append("\x1b[31m");
        } else if c == '\u{3011}' {
            res.append("\x1b[0m");
        } else if c == '\u{27e6}' {
            res.append("\x1b[35m");
        } else if c == '\u{27e7}' {
            res.append("\x1b[0m");
        } else {
            let mut one = String::new();
            push_char(&mut one, c);
            res.append(one.as_str());
        }
        proof {
            assert(chars@.take(i + 1).drop_last() =~= chars@.take(i as int));
        }
        i = i + 1;
    }
    assert(chars@.take(chars@.len() as int) =~= chars@);
    res
}


/// The decimal digit character of `d`.
pub open spec fn digit_char(d: int) -> char {
    if d == 0 { '0' } else if d == 1 { '1' } else if d == 2 { '2' } else if d == 3 { '3' } else if d == 4 { '4' }
    else if d == 5 { '5' } else if d == 6 { '6' } else if d == 7 { '7' } else if d == 8 { '8' } else { '9' }
}

/// The decimal digits of `n`, most significant first.
pub open spec fn decimal_digits(n: nat) -> Seq<char>
    decreases n,
{
    if n < 10 {
        seq![digit_char(n as int)]
    } else {
        decimal_digits(n / 10).push(digit_char((n % 10) as int))
    }
}

/// Groups of three digits, each preceded by a comma.
pub open spec fn comma_groups(d: Seq<char>) -> Seq<char>
    decreases d.len(),
{
    if d.len() < 3 {
        Seq::empty()
    } else {
        comma_groups(d.take(d.len() - 3)) + seq![','] + d.skip(d.len() - 3)
    }
}

/// Digits with a comma between thousands: the leading one to three digits,
/// then each further group of three preceded by a comma.
pub open spec fn with_commas(d: Seq<char>) -> Seq<char> {
    let h = (d.len() - 1) % 3 + 1;
    d.take(h) + comma_groups(d.skip(h))
}

fn digit_to_char(d: usize) -> (c: char)
    requires
        d < 10,
    ensures
        c == digit_char(d as int),
{
    if d == 0 { '0' } else if d == 1 { '1' } else if d == 2 { '2' } else if d == 3 { '3' } else if d == 4 { '4' }
    else if d == 5 { '5' } else if d == 6 { '6' } else if d == 7 { '7' } else if d == 8 { '8' } else { '9' }
}

pub(crate) fn decimal(n: usize) -> (v: Vec<char>)
    ensures
        v@ == decimal_digits(n as nat),
    decreases n,
{
    if n < 10 {
        let mut v = Vec::new();
        v.push(digit_to_char(n));
        v
    } else {
        let mut v = decimal(n / 10);
        v.push(digit_to_char(n % 10));
        v
    }
}

proof fn lemma_decimal_nonempty(n: nat)
    ensures
        decimal_digits(n).len() >= 1,
    decreases n,
{
    if n >= 10 {
        lemma_decimal_nonempty(n / 10);
    }
}

/// Writes a number with commas between thousands, e.g. 1234567 as "1,234,567".
pub fn format_number_with_commas(n: usize) -> (res: String)
    ensures
        res@ == with_commas(decimal_digits(n as nat)),
{
    let d = decimal(n);
    proof {
        lemma_decimal_nonempty(n as nat);
    }
    let len = d.len();
    let h = (len - 1) % 3 + 1;
    let mut res = String::new();
    let mut i: usize = 0;
    while i < h
        invariant
            i <= h <= len,
            len == d@.len(),
            res@ == d@.take(i as int),
        decreases h - i,
    {
        push_char(&mut res, d[i]);
        proof {
            assert(res@ =~= d@.take(i + 1));
        }
        i = i + 1;
    }
    let ghost rest = d@.skip(h as int);
    assert(rest.len() % 3 == 0);
    assert(comma_groups(rest.take(0)) =~= Seq::<char>::empty());
    while i < len
        invariant
            h <= i <= len,
            len == d@.len(),
            rest == d@.skip(h as int),
            rest.len() % 3 == 0,
            (i - h) % 3 == 0,
            res@ == d@.take(h as int) + comma_groups(rest.take(i - h)),
        decreases len - i,
    {
        let ghost before = res@;
        push_char(&mut res, ',');
        push_char(&mut res, d[i]);
        push_char(&mut res, d[i + 1]);
        push_char(&mut res, d[i + 2]);
        proof {
            let t = rest.take(i + 3 - h);
            assert(t.take(t.len() - 3) =~= rest.take(i - h));
            assert(t.skip(t.len() - 3) =~= seq![d@[i as int], d@[i + 1], d@[i + 2]]);
            assert(res@ =~= before + seq![','] + seq![d@[i as int], d@[i + 1], d@[i + 2]]);
        }
        i = i + 3;
    }
    assert(rest.take(len - h) =~= rest);
    res
}

/// Writes a number with commas between thousands, as the index report
/// does; the same text as `format_number_with_commas`.
pub fn format_with_commas(n: usize) -> (res: String)
    ensures
        res@ == with_commas(decimal_digits(n as nat)),
{
    format_number_with_commas(n)
}

} // verus!
