//! Words: comparing them, and writing numbers into them.

use vstd::prelude::*;

verus! {

/// Puts one character on the end of a string.
///
/// `String::push`, which documents exactly that.
pub assume_specification[ String::push ](s: &mut String, c: char)
    ensures
        final(s)@ == old(s)@.push(c),
;

/// Whether two strings hold the same characters.
pub(crate) fn same(a: &str, b: &str) -> (r: bool)
    ensures
        r == (a@ == b@),
{
    a.to_owned() == b.to_owned()
}

/// The character that writes a digit.
pub open spec fn digit(n: int) -> char {
    if n == 0 { '0' }
    else if n == 1 { '1' }
    else if n == 2 { '2' }
    else if n == 3 { '3' }
    else if n == 4 { '4' }
    else if n == 5 { '5' }
    else if n == 6 { '6' }
    else if n == 7 { '7' }
    else if n == 8 { '8' }
    else { '9' }
}

/// A natural number in decimal, with no leading zeros.
pub open spec fn digits(n: nat) -> Seq<char>
    decreases n,
{
    if n < 10 {
        seq![digit(n as int)]
    } else {
        digits(n / 10).push(digit(n as int % 10))
    }
}

/// An integer in decimal, with a minus sign in front of a negative one.
pub open spec fn decimal(n: int) -> Seq<char> {
    if n < 0 {
        "-"@ + digits((-n) as nat)
    } else {
        digits(n as nat)
    }
}

/// A number is written in one way and no two numbers are written alike.
pub proof fn lemma_digits_differ(a: nat, b: nat)
    requires
        digits(a) == digits(b),
    ensures
        a == b,
    decreases a,
{
    lemma_digits_some(a);
    lemma_digits_some(b);
    assert(digits(a).last() == digit(a as int % 10));
    assert(digits(b).last() == digit(b as int % 10));
    assert(a % 10 == b % 10);
    if a >= 10 && b >= 10 {
        assert(digits(a / 10) =~= digits(a).drop_last());
        assert(digits(b / 10) =~= digits(b).drop_last());
        lemma_digits_differ(a / 10, b / 10);
    } else if a >= 10 {
        lemma_digits_some(a / 10);
        assert(digits(a).len() == digits(a / 10).len() + 1);
        assert(false);
    } else if b >= 10 {
        lemma_digits_some(b / 10);
        assert(digits(b).len() == digits(b / 10).len() + 1);
        assert(false);
    }
}

/// A number is written with at least one digit, and a number that is not zero is
/// written with no zero in front.
pub proof fn lemma_digits_some(n: nat)
    ensures
        digits(n).len() >= 1,
        n < 10 <==> digits(n).len() == 1,
        n < 100 ==> digits(n).len() <= 2,
        n > 0 ==> digits(n)[0] != '0',
    decreases n,
{
    if n >= 10 {
        lemma_digits_some(n / 10);
    }
}

fn one(n: u128) -> (r: char)
    requires
        n < 10,
    ensures
        r == digit(n as int),
{
    match n {
        0 => '0',
        1 => '1',
        2 => '2',
        3 => '3',
        4 => '4',
        5 => '5',
        6 => '6',
        7 => '7',
        8 => '8',
        _ => '9',
    }
}

/// A natural number in decimal.
pub fn counted(n: u128) -> (r: String)
    ensures
        r@ == digits(n as nat),
    decreases n,
{
    let mut made = if n < 10 { String::new() } else { counted(n / 10) };
    made.push(one(n % 10));
    proof {
        if n < 10 {
            assert(made@ =~= seq![digit(n as int)]);
        }
    }
    made
}

/// An integer in decimal.
pub fn integer(n: i128) -> (r: String)
    requires
        n > i128::MIN,
    ensures
        r@ == decimal(n as int),
{
    if n < 0 {
        "-".to_owned().concat(counted((-n) as u128).as_str())
    } else {
        counted(n as u128)
    }
}

/// The lower case of an ASCII letter, and every other character as it is.
pub open spec fn lower(c: char) -> char {
    if 'A' <= c <= 'Z' { ((c as int) + 32) as char } else { c }
}

/// A string with its ASCII letters in lower case.
pub open spec fn lowered(s: Seq<char>) -> Seq<char> {
    s.map_values(|c: char| lower(c))
}

fn small(c: char) -> (r: char)
    ensures
        r == lower(c),
{
    if 'A' <= c && c <= 'Z' {
        (c as u8 + 32) as char
    } else {
        c
    }
}

/// A string with its ASCII letters in lower case.
pub fn lowercase(s: &str) -> (r: String)
    ensures
        r@ == lowered(s@),
{
    let mut made = String::new();
    let n: usize = s.unicode_len();
    let mut at: usize = 0;
    while at < n
        invariant
            n == s@.len(),
            at <= n,
            made@ == lowered(s@.take(at as int)),
        decreases n - at,
    {
        let c: char = s.get_char(at);
        made.push(small(c));
        proof {
            assert(made@ =~= lowered(s@.take(at as int + 1)));
        }
        at += 1;
    }
    proof {
        assert(s@.take(n as int) =~= s@);
    }
    made
}

/// Whether a string opens with another one.
pub open spec fn opens(s: Seq<char>, with: Seq<char>) -> bool {
    with.len() <= s.len() && s.take(with.len() as int) == with
}

/// What is left of a string once its opening has been taken off, when it opens
/// that way.
pub open spec fn stripped(s: Seq<char>, opening: Seq<char>) -> Option<Seq<char>> {
    if opens(s, opening) { Some(s.skip(opening.len() as int)) } else { None }
}

/// Takes an opening off a string that has it.
pub fn strip<'a>(s: &'a str, opening: &str) -> (r: Option<&'a str>)
    ensures
        match r {
            Some(rest) => stripped(s@, opening@) == Some(rest@),
            None => stripped(s@, opening@) is None,
        },
{
    let n: usize = s.unicode_len();
    let k: usize = opening.unicode_len();
    if k > n {
        return None;
    }
    if same(s.substring_char(0, k), opening) {
        proof {
            assert(s@.subrange(0, k as int) =~= s@.take(k as int));
            assert(s@.subrange(k as int, n as int) =~= s@.skip(k as int));
        }
        Some(s.substring_char(k, n))
    } else {
        proof {
            assert(s@.subrange(0, k as int) =~= s@.take(k as int));
        }
        None
    }
}

/// A number is written digit by digit, the ones last, as characters whose distance from `0` is
/// the digit; and nothing but the number nothing starts with a `0`.
pub proof fn law_a_number_is_its_digits(n: nat)
    ensures
        digits(n).len() >= 1,
        digits(n).last() as int - '0' as int == n % 10,
        n < 10 <==> digits(n).len() == 1,
        n >= 10 ==> digits(n).drop_last() == digits(n / 10),
        n > 0 ==> digits(n)[0] != '0',
    decreases n,
{
    if n >= 10 {
        law_a_number_is_its_digits(n / 10);
        assert(digits(n).drop_last() =~= digits(n / 10));
    }
}

/// A negative number is written as a minus sign and what is left of nothing after it, and a
/// number that is not negative as its digits and nothing before them.
pub proof fn law_a_sign_is_written_first(n: int)
    ensures
        n < 0 ==> decimal(n).len() >= 2 && decimal(n)[0] == '-' && decimal(n).skip(1) == decimal(-n),
        n >= 0 ==> decimal(n)[0] != '-' && decimal(n).last() as int - '0' as int == n % 10,
{
    reveal_strlit("-");
    if n < 0 {
        law_a_number_is_its_digits((-n) as nat);
        assert(decimal(n).skip(1) =~= digits((-n) as nat));
    } else {
        law_a_number_is_its_digits(n as nat);
        lemma_first_digit(n as nat);
    }
}

proof fn lemma_first_digit(n: nat)
    ensures
        digits(n).len() >= 1,
        digits(n)[0] != '-',
    decreases n,
{
    if n >= 10 {
        lemma_first_digit(n / 10);
        law_a_number_is_its_digits(n / 10);
    }
}

/// What an opening was put in front of is what is left when it is taken off, and nothing is left of
/// what does not open with it.
pub proof fn law_an_opening_comes_off(opening: Seq<char>, rest: Seq<char>, s: Seq<char>)
    ensures
        stripped(opening + rest, opening) == Some(rest),
        stripped(s, opening) matches Some(left) ==> s == opening + left,
        opens(s, opening) <==> exists|left: Seq<char>| s == #[trigger] (opening + left),
{
    let n = opening.len() as int;
    assert((opening + rest).take(n) =~= opening);
    assert((opening + rest).skip(n) =~= rest);
    if opens(s, opening) {
        assert(s =~= opening + s.skip(n));
    }
    if exists|left: Seq<char>| s == #[trigger] (opening + left) {
        let left = choose|left: Seq<char>| s == #[trigger] (opening + left);
        assert((opening + left).take(n) =~= opening);
    }
}

/// Lowering a string changes its capitals and nothing else, and leaves none.
pub proof fn law_only_capitals_are_lowered(s: Seq<char>, at: int)
    requires
        0 <= at < s.len(),
    ensures
        lowered(s).len() == s.len(),
        65 <= s[at] as int <= 90 ==> lowered(s)[at] as int == s[at] as int + 32,
        !(65 <= s[at] as int <= 90) ==> lowered(s)[at] == s[at],
        lowered(lowered(s)) == lowered(s),
{
    assert(lowered(lowered(s)) =~= lowered(s));
}

} // verus!
