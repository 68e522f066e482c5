//! Decimal rendering of unsigned integers into a `String`.
use vstd::prelude::*;
use vstd::string::StringExecFns;

verus! {

/// The ASCII character of a decimal digit.
pub open spec fn digit_char(d: nat) -> char {
    if d == 0 {
        '0'
    } else if d == 1 {
        '1'
    } else if d == 2 {
        '2'
    } else if d == 3 {
        '3'
    } else if d == 4 {
        '4'
    } else if d == 5 {
        '5'
    } else if d == 6 {
        '6'
    } else if d == 7 {
        '7'
    } else if d == 8 {
        '8'
    } else {
        '9'
    }
}

/// The shortest decimal notation of `n`: no sign, no leading zeros.
pub open spec fn decimal(n: nat) -> Seq<char>
    decreases n,
{
    if n < 10 {
        seq![digit_char(n)]
    } else {
        decimal(n / 10).push(digit_char(n % 10))
    }
}

/// `c` is one of the ASCII decimal digits.
pub open spec fn is_digit(c: char) -> bool {
    c == '0' || c == '1' || c == '2' || c == '3' || c == '4' || c == '5' || c == '6' || c == '7'
        || c == '8' || c == '9'
}

/// The value of a decimal digit character.
pub open spec fn digit_value(c: char) -> nat {
    if c == '1' {
        1
    } else if c == '2' {
        2
    } else if c == '3' {
        3
    } else if c == '4' {
        4
    } else if c == '5' {
        5
    } else if c == '6' {
        6
    } else if c == '7' {
        7
    } else if c == '8' {
        8
    } else if c == '9' {
        9
    } else {
        0
    }
}

/// The number that a sequence of decimal digits denotes, most significant
/// digit first.
pub open spec fn parse_decimal(ds: Seq<char>) -> nat
    decreases ds.len(),
{
    if ds.len() == 0 {
        0
    } else {
        parse_decimal(ds.drop_last()) * 10 + digit_value(ds.last())
    }
}

/// The longest prefix of `s` made of decimal digits.
pub open spec fn digit_run(s: Seq<char>) -> Seq<char>
    decreases s.len(),
{
    if s.len() == 0 || !is_digit(s[0]) {
        Seq::empty()
    } else {
        seq![s[0]] + digit_run(s.drop_first())
    }
}

/// The decimal notation of `n` is a non-empty run of digits that parses
/// back to `n`.
pub proof fn lemma_decimal_parses_back(n: nat)
    ensures
        decimal(n).len() > 0,
        forall|i: int| 0 <= i < decimal(n).len() ==> is_digit(#[trigger] decimal(n)[i]),
        parse_decimal(decimal(n)) == n,
    decreases n,
{
    if n >= 10 {
        lemma_decimal_parses_back(n / 10);
        let d = decimal(n);
        assert(d.drop_last() =~= decimal(n / 10));
        assert forall|i: int| 0 <= i < d.len() implies is_digit(#[trigger] d[i]) by {
            if i < d.len() - 1 {
                assert(d[i] == decimal(n / 10)[i]);
            }
        }
        assert(d.last() == digit_char(n % 10));
        assert(digit_value(digit_char(n % 10)) == n % 10);
        assert((n / 10) * 10 + n % 10 == n);
        assert(parse_decimal(d) == parse_decimal(d.drop_last()) * 10 + digit_value(d.last()));
    } else {
        assert(digit_value(digit_char(n)) == n);
        let d = decimal(n);
        assert(parse_decimal(d) == parse_decimal(d.drop_last()) * 10 + digit_value(d.last()));
        assert(parse_decimal(Seq::<char>::empty()) == 0);
        assert(seq![digit_char(n)].drop_last() =~= Seq::<char>::empty());
    }
}

/// A digit run followed by nothing or by a non-digit is read back whole.
pub proof fn lemma_digit_run_of_numeral(ds: Seq<char>, rest: Seq<char>)
    requires
        forall|i: int| 0 <= i < ds.len() ==> is_digit(#[trigger] ds[i]),
        rest.len() == 0 || !is_digit(rest[0]),
    ensures
        digit_run(ds + rest) == ds,
    decreases ds.len(),
{
    if ds.len() == 0 {
        assert(Seq::<char>::empty() + rest =~= rest);
    } else {
        let tail = ds.drop_first();
        assert forall|i: int| 0 <= i < tail.len() implies is_digit(#[trigger] tail[i]) by {
            assert(tail[i] == ds[i + 1]);
        }
        lemma_digit_run_of_numeral(tail, rest);
        assert((ds + rest).drop_first() =~= tail + rest);
        assert(seq![ds[0]] + tail =~= ds);
        assert((ds + rest)[0] == ds[0]);
    }
}

/// Two numerals each followed by nothing or by a non-digit are equal only
/// when their numbers and what follows them are equal.
pub proof fn lemma_numeral_unique(a: nat, b: nat, ra: Seq<char>, rb: Seq<char>)
    requires
        decimal(a) + ra == decimal(b) + rb,
        ra.len() == 0 || !is_digit(ra[0]),
        rb.len() == 0 || !is_digit(rb[0]),
    ensures
        a == b,
        ra == rb,
{
    lemma_decimal_parses_back(a);
    lemma_decimal_parses_back(b);
    lemma_digit_run_of_numeral(decimal(a), ra);
    lemma_digit_run_of_numeral(decimal(b), rb);
    assert(ra =~= (decimal(a) + ra).skip(decimal(a).len() as int));
    assert(rb =~= (decimal(b) + rb).skip(decimal(b).len() as int));
}

/// Reads digits left to right onto `c`: each digit appends to the number.
pub open spec fn accumulate_digits(c: nat, ds: Seq<char>) -> nat
    decreases ds.len(),
{
    if ds.len() == 0 {
        c
    } else {
        accumulate_digits(c * 10 + digit_value(ds[0]), ds.drop_first())
    }
}

/// Scans `s` left to right for maximal runs of digits, `current` being the
/// value of the run being read, if any; returns the runs' values in order.
pub open spec fn scan_numerals(s: Seq<char>, current: Option<nat>) -> Seq<nat>
    decreases s.len(),
{
    if s.len() == 0 {
        match current {
            Some(n) => seq![n],
            None => Seq::empty(),
        }
    } else if is_digit(s[0]) {
        let started = match current {
            Some(n) => n,
            None => 0,
        };
        scan_numerals(s.drop_first(), Some(started * 10 + digit_value(s[0])))
    } else {
        let ended = match current {
            Some(n) => seq![n],
            None => Seq::empty(),
        };
        ended + scan_numerals(s.drop_first(), None)
    }
}

/// The numbers written in `s`, in the order they appear.
pub open spec fn numerals(s: Seq<char>) -> Seq<nat> {
    scan_numerals(s, None)
}

proof fn lemma_accumulate_push(c: nat, ds: Seq<char>, d: char)
    ensures
        accumulate_digits(c, ds.push(d)) == accumulate_digits(c, ds) * 10 + digit_value(d),
    decreases ds.len(),
{
    if ds.len() == 0 {
        assert(ds.push(d).drop_first() =~= Seq::<char>::empty());
        assert(ds.push(d)[0] == d);
        assert(accumulate_digits(c, ds.push(d)) == accumulate_digits(c * 10 + digit_value(d), Seq::<char>::empty()));
    } else {
        assert(ds.push(d).drop_first() =~= ds.drop_first().push(d));
        assert(ds.push(d)[0] == ds[0]);
        lemma_accumulate_push(c * 10 + digit_value(ds[0]), ds.drop_first(), d);
    }
}

proof fn lemma_accumulate_decimal(n: nat)
    ensures
        accumulate_digits(0, decimal(n)) == n,
    decreases n,
{
    if n >= 10 {
        lemma_accumulate_decimal(n / 10);
        lemma_accumulate_push(0, decimal(n / 10), digit_char(n % 10));
        assert(digit_value(digit_char(n % 10)) == n % 10);
        assert((n / 10) * 10 + n % 10 == n);
        assert(decimal(n) == decimal(n / 10).push(digit_char(n % 10)));
    } else {
        assert(digit_value(digit_char(n)) == n);
        let d = decimal(n);
        assert(d == seq![digit_char(n)]);
        assert(d.drop_first() =~= Seq::<char>::empty());
        assert(d[0] == digit_char(n));
        assert(accumulate_digits(0, d) == accumulate_digits(0 * 10 + digit_value(d[0]), d.drop_first()));
    }
}

proof fn lemma_scan_digits(ds: Seq<char>, rest: Seq<char>, c: nat)
    requires
        forall|i: int| 0 <= i < ds.len() ==> is_digit(#[trigger] ds[i]),
    ensures
        scan_numerals(ds + rest, Some(c)) == scan_numerals(rest, Some(accumulate_digits(c, ds))),
    decreases ds.len(),
{
    if ds.len() == 0 {
        assert(ds + rest =~= rest);
    } else {
        let tail = ds.drop_first();
        assert forall|i: int| 0 <= i < tail.len() implies is_digit(#[trigger] tail[i]) by {
            assert(tail[i] == ds[i + 1]);
        }
        assert((ds + rest)[0] == ds[0]);
        assert((ds + rest).drop_first() =~= tail + rest);
        lemma_scan_digits(tail, rest, c * 10 + digit_value(ds[0]));
    }
}

/// Text without digits holds no numbers: it adds nothing to the numerals
/// read before a fresh scan of what follows it.
pub proof fn lemma_numerals_skip_text(text: Seq<char>, rest: Seq<char>)
    requires
        forall|i: int| 0 <= i < text.len() ==> !is_digit(#[trigger] text[i]),
    ensures
        numerals(text + rest) == numerals(rest),
    decreases text.len(),
{
    if text.len() > 0 {
        let tail = text.drop_first();
        assert forall|i: int| 0 <= i < tail.len() implies !is_digit(#[trigger] tail[i]) by {
            assert(tail[i] == text[i + 1]);
        }
        assert((text + rest)[0] == text[0]);
        assert((text + rest).drop_first() =~= tail + rest);
        lemma_numerals_skip_text(tail, rest);
        assert(Seq::<nat>::empty() + numerals(tail + rest) =~= numerals(tail + rest));
    } else {
        assert(text + rest =~= rest);
    }
}

/// The decimal notation of `n`, followed by text that starts with a
/// non-digit, is read as the number `n` followed by the numbers of that text.
pub proof fn lemma_numerals_of_decimal(n: nat, rest: Seq<char>)
    requires
        rest.len() > 0,
        !is_digit(rest[0]),
    ensures
        numerals(decimal(n) + rest) == seq![n] + numerals(rest),
{
    let ds = decimal(n);
    lemma_decimal_parses_back(n);
    let tail = ds.drop_first();
    assert forall|i: int| 0 <= i < tail.len() implies is_digit(#[trigger] tail[i]) by {
        assert(tail[i] == ds[i + 1]);
    }
    assert((ds + rest)[0] == ds[0]);
    assert(is_digit(ds[0]));
    assert((ds + rest).drop_first() =~= tail + rest);
    assert(0 * 10 + digit_value(ds[0]) == digit_value(ds[0]));
    lemma_scan_digits(tail, rest, digit_value(ds[0]));
    lemma_accumulate_decimal(n);
    assert(accumulate_digits(0, ds) == accumulate_digits(digit_value(ds[0]), tail));
    assert(numerals(rest) == Seq::<nat>::empty() + scan_numerals(rest.drop_first(), None));
    assert(Seq::<nat>::empty() + scan_numerals(rest.drop_first(), None) =~= scan_numerals(rest.drop_first(), None));
}

fn digit_str(d: u32) -> (s: &'static str)
    requires
        d < 10,
    ensures
        s@ == seq![digit_char(d as nat)],
{
    if d == 0 {
        proof { reveal_strlit("0"); }
        "0"
    } else if d == 1 {
        proof { reveal_strlit("1"); }
        "1"
    } else if d == 2 {
        proof { reveal_strlit("2"); }
        "2"
    } else if d == 3 {
        proof { reveal_strlit("3"); }
        "3"
    } else if d == 4 {
        proof { reveal_strlit("4"); }
        "4"
    } else if d == 5 {
        proof { reveal_strlit("5"); }
        "5"
    } else if d == 6 {
        proof { reveal_strlit("6"); }
        "6"
    } else if d == 7 {
        proof { reveal_strlit("7"); }
        "7"
    } else if d == 8 {
        proof { reveal_strlit("8"); }
        "8"
    } else {
        proof { reveal_strlit("9"); }
        "9"
    }
}

/// Appends the decimal notation of `n` to `s`.
pub fn push_decimal(s: &mut String, n: u32)
    ensures
        final(s)@ == old(s)@ + decimal(n as nat),
    decreases n,
{
    if n >= 10 {
        push_decimal(s, n / 10);
    }
    s.append(digit_str(n % 10));
    assert(s@ =~= old(s)@ + decimal(n as nat));
}

/// The decimal notation of `n`, as `n.to_string()` writes it.
pub fn decimal_string(n: u32) -> (s: String)
    ensures
        s@ == decimal(n as nat),
{
    let mut s = String::new();
    push_decimal(&mut s, n);
    assert(s@ =~= decimal(n as nat));
    s
}

} // verus!
