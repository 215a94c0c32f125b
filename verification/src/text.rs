//! Small operations on text, with what they compute stated over sequences of
//! characters.

use vstd::prelude::*;

verus! {

/// `String::push`: appends the given character to the end of the string.
pub assume_specification[ String::push ](s: &mut String, ch: char)
    ensures
        final(s)@ == old(s)@.push(ch),
;

/// The characters of a text, if there is one.
pub open spec fn opt_text(text: Option<String>) -> Option<Seq<char>> {
    match text {
        Some(text) => Some(text@),
        None => None,
    }
}

/// Whether two texts hold the same characters.
pub fn same_text(a: &str, b: &str) -> (r: bool)
    ensures
        r == (a@ == b@),
{
    a.to_owned() == b.to_owned()
}

/// Space, tab, line feed, form feed and carriage return.
#[verifier::allow_in_spec]
pub fn is_ascii_whitespace(b: u8) -> bool
    returns
        b == 0x20 || b == 0x09 || b == 0x0A || b == 0x0C || b == 0x0D,
{
    b == 0x20 || b == 0x09 || b == 0x0A || b == 0x0C || b == 0x0D
}

/// The position of the first `c` in `s`, or the length of `s` if there is none.
pub open spec fn first_index(s: Seq<char>, c: char) -> nat
    decreases s.len(),
{
    if s.len() == 0 || s[0] == c {
        0
    } else {
        1 + first_index(s.skip(1), c)
    }
}

/// What [`first_index`] is.
pub proof fn first_index_is_first(s: Seq<char>, c: char)
    ensures
        first_index(s, c) <= s.len(),
        forall|i: int| 0 <= i < first_index(s, c) ==> s[i] != c,
        first_index(s, c) < s.len() ==> s[first_index(s, c) as int] == c,
    decreases s.len(),
{
    if s.len() > 0 && s[0] != c {
        first_index_is_first(s.skip(1), c);
        assert forall|i: int| 0 <= i < first_index(s, c) implies s[i] != c by {
            if i > 0 {
                assert(s.skip(1)[i - 1] == s[i]);
            }
        }
    }
}

/// Nothing but [`first_index`] is such a position.
pub proof fn first_index_is_unique(s: Seq<char>, c: char, n: nat)
    requires
        n <= s.len(),
        forall|i: int| 0 <= i < n ==> s[i] != c,
        n < s.len() ==> s[n as int] == c,
    ensures
        first_index(s, c) == n,
{
    first_index_is_first(s, c);
    let m = first_index(s, c);
    if m < n {
        assert(s[m as int] != c);
    } else if n < m {
        assert(s[n as int] != c);
    }
}

/// The characters of `s`.
pub fn chars_of(s: &str) -> (r: Vec<char>)
    ensures
        r@ == s@,
{
    broadcast use vstd::string::axiom_spec_iter;

    let mut all: Vec<char> = Vec::new();
    for c in it: s.chars()
        invariant
            it.seq() == s@,
            all@ == s@.take(it.index() as int),
    {
        all.push(c);
    }
    all
}

/// The position of the first `c` from `from` on and before `to`, or `to` if there
/// is none.
pub fn find_char(chars: &Vec<char>, from: usize, to: usize, c: char) -> (r: usize)
    requires
        from <= to <= chars@.len(),
    ensures
        r == from + first_index(chars@.subrange(from as int, to as int), c),
        from <= r <= to,
{
    let ghost part = chars@.subrange(from as int, to as int);
    let mut n: usize = from;
    while n < to && chars[n] != c
        invariant
            from <= n <= to <= chars@.len(),
            part == chars@.subrange(from as int, to as int),
            forall|i: int| 0 <= i < n - from ==> part[i] != c,
        decreases to - n,
    {
        n = n + 1;
    }
    proof {
        first_index_is_unique(part, c, (n - from) as nat);
    }
    n
}

/// Whether the characters from `from` on and before `to` are those of `other`.
pub fn same_chars(chars: &Vec<char>, from: usize, to: usize, other: &Vec<char>) -> (r: bool)
    requires
        from <= to <= chars@.len(),
    ensures
        r == (chars@.subrange(from as int, to as int) == other@),
{
    let ghost part = chars@.subrange(from as int, to as int);
    if to - from != other.len() {
        return false;
    }
    let mut n: usize = 0;
    while n < other.len()
        invariant
            n <= other@.len(),
            from <= to <= chars@.len(),
            to - from == other@.len(),
            part == chars@.subrange(from as int, to as int),
            forall|i: int| 0 <= i < n ==> part[i] == other@[i],
        decreases other@.len() - n,
    {
        if chars[from + n] != other[n] {
            proof {
                assert(part[n as int] != other@[n as int]);
            }
            return false;
        }
        n = n + 1;
    }
    proof {
        assert(part =~= other@);
    }
    true
}

/// The text of the characters from `from` on and before `to`.
pub fn text_of(chars: &Vec<char>, from: usize, to: usize) -> (r: String)
    requires
        from <= to <= chars@.len(),
    ensures
        r@ == chars@.subrange(from as int, to as int),
{
    let mut text: String = String::new();
    let mut n: usize = from;
    while n < to
        invariant
            from <= n <= to <= chars@.len(),
            text@ == chars@.subrange(from as int, n as int),
        decreases to - n,
    {
        text.push(chars[n]);
        n = n + 1;
        proof {
            assert(text@ =~= chars@.subrange(from as int, n as int));
        }
    }
    text
}

/// `s` without the slashes at its end.
pub open spec fn without_end_slashes(s: Seq<char>) -> Seq<char>
    decreases s.len(),
{
    if s.len() > 0 && s.last() == '/' {
        without_end_slashes(s.drop_last())
    } else {
        s
    }
}

/// Removes every slash at the end of `s`.
pub fn trim_end_slashes(s: &str) -> (r: String)
    ensures
        r@ == without_end_slashes(s@),
{
    let chars: Vec<char> = chars_of(s);
    let mut n: usize = chars.len();
    proof {
        assert(s@.take(n as int) =~= s@);
    }
    while n > 0 && chars[n - 1] == '/'
        invariant
            n <= s@.len(),
            chars@ == s@,
            without_end_slashes(s@) == without_end_slashes(s@.take(n as int)),
        decreases n,
    {
        proof {
            assert(s@.take(n as int).drop_last() =~= s@.take(n - 1));
            assert(s@.take(n as int).last() == s@[n - 1]);
        }
        n = n - 1;
    }
    proof {
        assert(n > 0 ==> s@.take(n as int).last() == s@[n - 1]);
    }
    text_of(&chars, 0, n)
}

/// The character of a decimal digit.
pub open spec fn digit(d: nat) -> char {
    (0x30 + d) as char
}

/// `n` in decimal.
pub open spec fn decimal(n: nat) -> Seq<char>
    decreases n,
{
    if n < 10 {
        seq![digit(n)]
    } else {
        decimal(n / 10).push(digit(n % 10))
    }
}

/// A number in decimal is made of digits, and no other number is written the same.
pub proof fn decimal_is_faithful(n: nat, m: nat)
    ensures
        decimal(n).len() > 0,
        forall|i: int| 0 <= i < decimal(n).len() ==> '0' <= #[trigger] decimal(n)[i] <= '9',
        decimal(n) == decimal(m) ==> n == m,
    decreases n,
{
    let high = decimal(n / 10);
    if n >= 10 {
        decimal_is_faithful(n / 10, m / 10);
    }
    if decimal(n) == decimal(m) {
        assert(decimal(n).last() == digit(n % 10));
        assert(decimal(m).last() == digit(m % 10));
        assert(n % 10 == m % 10);
        if n >= 10 && m >= 10 {
            assert(decimal(n).drop_last() =~= high);
            assert(decimal(m).drop_last() =~= decimal(m / 10));
        } else if n >= 10 {
            assert(decimal(n).len() == high.len() + 1);
        } else if m >= 10 {
            decimal_is_not_empty(m / 10);
            assert(decimal(m).len() == decimal(m / 10).len() + 1);
        }
    }
}

proof fn decimal_is_not_empty(n: nat)
    ensures
        decimal(n).len() > 0,
{
}

/// Writes `n` in decimal.
pub fn decimal_text(n: u64) -> (r: String)
    ensures
        r@ == decimal(n as nat),
    decreases n,
{
    let mut text: String = if n < 10 {
        String::new()
    } else {
        decimal_text(n / 10)
    };
    let low: u8 = (n % 10) as u8;
    text.push((0x30 + low) as char);
    proof {
        if n < 10 {
            assert(Seq::<char>::empty().push(digit(n as nat)) =~= seq![digit(n as nat)]);
        }
    }
    text
}

/// `a` followed by `b`.
pub fn joined(a: &str, b: &str) -> (r: String)
    ensures
        r@ == a@ + b@,
{
    let mut text: String = a.to_owned();
    text.append(b);
    text
}

/// The number that digits stand for.
pub open spec fn value_of(digits: Seq<char>) -> int
    decreases digits.len(),
{
    if digits.len() == 0 {
        0
    } else {
        10 * value_of(digits.drop_last()) + (digits.last() as int - '0' as int)
    }
}

/// A number that is written out can be read back, and starts with no zero but for zero
/// itself.
pub proof fn decimals_read_back(n: nat)
    ensures
        value_of(decimal(n)) == n,
        forall|i: int| 0 <= i < decimal(n).len() ==> '0' <= #[trigger] decimal(n)[i] <= '9',
        decimal(n).len() > 0,
        n > 0 ==> decimal(n)[0] != '0',
    decreases n,
{
    decimal_is_faithful(n, n);
    if n < 10 {
        assert(decimal(n).drop_last() =~= seq![]);
        assert(value_of(seq![]) == 0);
    } else {
        decimals_read_back(n / 10);
        assert(decimal(n).drop_last() =~= decimal(n / 10));
        assert(decimal(n)[0] == decimal(n / 10)[0]);
    }
}

/// A text that is there is seen as it is.
pub proof fn texts_are_seen_whole(text: String)
    ensures
        opt_text(Some(text)) == Some(text@),
        opt_text(None) is None,
{
}

/// White space is a space, a tab, a line feed, a form feed or a carriage return.
pub proof fn white_space_is_ascii(b: u8)
    ensures
        is_ascii_whitespace(b) <==> seq![0x20u8, 0x09u8, 0x0Au8, 0x0Cu8, 0x0Du8].contains(b),
{
    let spaces = seq![0x20u8, 0x09u8, 0x0Au8, 0x0Cu8, 0x0Du8];
    assert(spaces[0] == 0x20 && spaces[1] == 0x09 && spaces[2] == 0x0A && spaces[3] == 0x0C
        && spaces[4] == 0x0D);
}

} // verus!
