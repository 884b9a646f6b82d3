//! Text primitives shared by the parsers: characters of a string, decimal
//! digits, and delimiter search.

use vstd::prelude::*;

verus! {

/// Whether `c` is one of the ten ASCII decimal digits.
pub open spec fn is_digit(c: char) -> bool {
    '0' <= c && c <= '9'
}

/// The number a decimal digit stands for.
pub open spec fn digit_value(c: char) -> nat {
    (c as int - '0' as int) as nat
}

/// The digit that stands for `d`, for `d` below ten.
pub open spec fn digit_char(d: nat) -> char {
    (d + '0' as nat) as char
}

/// The number that a sequence of decimal digits denotes, most significant
/// digit first. The empty sequence denotes zero.
pub open spec fn decimal_value(digits: Seq<char>) -> nat
    decreases digits.len(),
{
    if digits.len() == 0 {
        0
    } else {
        decimal_value(digits.drop_last()) * 10 + digit_value(digits.last())
    }
}

/// The shortest decimal notation of `n`.
pub open spec fn decimal_digits(n: nat) -> Seq<char>
    decreases n,
{
    if n < 10 {
        seq![digit_char(n)]
    } else {
        decimal_digits(n / 10).push(digit_char(n % 10))
    }
}

/// Whether every character of `s` is a decimal digit.
pub open spec fn all_digits(s: Seq<char>) -> bool {
    forall|i: int| 0 <= i < s.len() ==> is_digit(#[trigger] s[i])
}

/// Appending digits never lowers the value: a prefix denotes at most what the
/// whole sequence denotes.
pub proof fn lemma_decimal_value_prefix(digits: Seq<char>, k: int)
    requires
        0 <= k <= digits.len(),
        all_digits(digits),
    ensures
        decimal_value(digits.take(k)) <= decimal_value(digits),
    decreases digits.len() - k,
{
    if k == digits.len() {
        assert(digits.take(k) == digits);
    } else {
        let longer = digits.take(k + 1);
        assert(longer.drop_last() == digits.take(k));
        assert(longer.last() == digits[k]);
        assert(is_digit(digits[k]));
        lemma_decimal_value_prefix(digits, k + 1);
    }
}

/// The notation that `decimal_digits` gives consists of digits and denotes the
/// number it was made from.
pub proof fn lemma_decimal_digits_value(n: nat)
    ensures
        all_digits(decimal_digits(n)),
        decimal_digits(n).len() >= 1,
        decimal_value(decimal_digits(n)) == n,
    decreases n,
{
    if n < 10 {
        let s = decimal_digits(n);
        assert(s.drop_last().len() == 0);
        assert(decimal_value(s.drop_last()) == 0);
    } else {
        lemma_decimal_digits_value(n / 10);
        let s = decimal_digits(n);
        assert(s.drop_last() == decimal_digits(n / 10));
        assert(s.last() == digit_char(n % 10));
    }
}

/// The characters of `s`, in order.
pub fn chars_of(s: &str) -> (v: Vec<char>)
    ensures
        v@ == s@,
{
    broadcast use vstd::string::axiom_spec_iter;

    let mut v: Vec<char> = Vec::new();
    for c in it: s.chars()
        invariant
            it.seq() == s@,
            v@ == s@.take(it.index()),
    {
        v.push(c);
        assert(s@.take(it.index() + 1) == s@.take(it.index()).push(c));
    }
    v
}

/// The value of `c` as a decimal digit, if it is one.
pub fn digit_of(c: char) -> (d: Option<u32>)
    ensures
        d == if is_digit(c) {
            Some(digit_value(c) as u32)
        } else {
            None::<u32>
        },
{
    if '0' <= c && c <= '9' {
        Some(c as u32 - '0' as u32)
    } else {
        None
    }
}

/// The first position of `c` in `s[from..to]`, counted from `from`.
pub open spec fn first_in(s: Seq<char>, from: int, to: int, c: char) -> Option<int> {
    s.subrange(from, to).index_of_first(c)
}

/// The last position of `c` in `s[from..to]`, counted from `from`.
pub open spec fn last_in(s: Seq<char>, from: int, to: int, c: char) -> Option<int> {
    s.subrange(from, to).index_of_last(c)
}

/// A position with `c` at it and none before it is the first position of `c`;
/// a sequence without `c` has no first position.
pub proof fn lemma_first_position(s: Seq<char>, c: char, at: int)
    requires
        0 <= at <= s.len(),
        forall|j: int| 0 <= j < at ==> s[j] != c,
        at < s.len() ==> s[at] == c,
    ensures
        s.index_of_first(c) == if at < s.len() {
            Some(at)
        } else {
            None::<int>
        },
{
    s.index_of_first_ensures(c);
}

/// A position with `c` at it and none after it is the last position of `c`;
/// a sequence without `c` has no last position. Here `at == -1` stands for
/// "none found".
pub proof fn lemma_last_position(s: Seq<char>, c: char, at: int)
    requires
        -1 <= at < s.len(),
        forall|j: int| at < j < s.len() ==> s[j] != c,
        0 <= at ==> s[at] == c,
    ensures
        s.index_of_last(c) == if 0 <= at {
            Some(at)
        } else {
            None::<int>
        },
{
    s.index_of_last_ensures(c);
}

/// Searches `s[from..to]` front to back for `c`.
pub(crate) fn find_first(s: &Vec<char>, from: usize, to: usize, c: char) -> (at: Option<usize>)
    requires
        from <= to <= s.len(),
    ensures
        at matches Some(i) ==> from <= i < to && s[i as int] == c,
        first_in(s@, from as int, to as int, c) == match at {
            Some(i) => Some(i - from),
            None => None::<int>,
        },
{
    let ghost window = s@.subrange(from as int, to as int);
    let mut i: usize = from;
    while i < to
        invariant
            from <= i <= to <= s.len(),
            window == s@.subrange(from as int, to as int),
            forall|j: int| 0 <= j < i - from ==> window[j] != c,
        decreases to - i,
    {
        if s[i] == c {
            proof {
                lemma_first_position(window, c, i - from);
            }
            return Some(i);
        }
        i += 1;
    }
    proof {
        lemma_first_position(window, c, to - from);
    }
    None
}

/// The part of `s` before its first `sep`; all of `s` where it has none.
pub open spec fn head(s: Seq<char>, sep: char) -> Seq<char> {
    match s.index_of_first(sep) {
        Some(at) => s.take(at),
        None => s,
    }
}

/// Where the head of `s[from..to]` ends: at the first `sep` in it, or at `to`.
pub(crate) fn head_end(s: &Vec<char>, from: usize, to: usize, sep: char) -> (end: usize)
    requires
        from <= to <= s.len(),
    ensures
        from <= end <= to,
        end < to ==> s[end as int] == sep,
        s@.subrange(from as int, end as int) == head(s@.subrange(from as int, to as int), sep),
{
    let ghost window = s@.subrange(from as int, to as int);
    match find_first(s, from, to, sep) {
        Some(at) => {
            assert(window.take(at - from) == s@.subrange(from as int, at as int));
            at
        },
        None => to,
    }
}

/// Searches `s[from..to]` back to front for `c`.
pub(crate) fn find_last(s: &Vec<char>, from: usize, to: usize, c: char) -> (at: Option<usize>)
    requires
        from <= to <= s.len(),
    ensures
        at matches Some(i) ==> from <= i < to && s[i as int] == c,
        last_in(s@, from as int, to as int, c) == match at {
            Some(i) => Some(i - from),
            None => None::<int>,
        },
{
    let ghost window = s@.subrange(from as int, to as int);
    let mut i: usize = to;
    while i > from
        invariant
            from <= i <= to <= s.len(),
            window == s@.subrange(from as int, to as int),
            forall|j: int| i - from <= j < to - from ==> window[j] != c,
        decreases i - from,
    {
        i -= 1;
        if s[i] == c {
            proof {
                lemma_last_position(window, c, i - from);
            }
            return Some(i);
        }
    }
    proof {
        lemma_last_position(window, c, -1);
    }
    None
}

/// Whether `s[from..to]` holds exactly the characters of `word`.
pub(crate) fn range_equals(s: &Vec<char>, from: usize, to: usize, word: &Vec<char>) -> (same: bool)
    requires
        from <= to <= s.len(),
    ensures
        same == (s@.subrange(from as int, to as int) == word@),
{
    if to - from != word.len() {
        return false;
    }
    let mut i: usize = 0;
    while i < word.len()
        invariant
            from <= to <= s.len(),
            to - from == word.len(),
            0 <= i <= word.len(),
            forall|j: int| 0 <= j < i ==> s[from + j] == word[j],
        decreases word.len() - i,
    {
        if s[from + i] != word[i] {
            assert(s@.subrange(from as int, to as int)[i as int] != word@[i as int]);
            return false;
        }
        i += 1;
    }
    assert(s@.subrange(from as int, to as int) =~= word@);
    true
}

/// The one-character text of the digit that stands for `d`.
fn digit_text(d: u32) -> (t: &'static str)
    requires
        d < 10,
    ensures
        t@ == seq![digit_char(d as nat)],
{
    proof {
        reveal_strlit("0");
        reveal_strlit("1");
        reveal_strlit("2");
        reveal_strlit("3");
        reveal_strlit("4");
        reveal_strlit("5");
        reveal_strlit("6");
        reveal_strlit("7");
        reveal_strlit("8");
        reveal_strlit("9");
    }
    let t = match d {
        0 => "0",
        1 => "1",
        2 => "2",
        3 => "3",
        4 => "4",
        5 => "5",
        6 => "6",
        7 => "7",
        8 => "8",
        _ => "9",
    };
    assert(t@ =~= seq![digit_char(d as nat)]);
    t
}

/// Appends the shortest decimal notation of `n` to `out`.
pub fn push_decimal(out: &mut String, n: u32)
    ensures
        final(out)@ == old(out)@ + decimal_digits(n as nat),
    decreases n,
{
    if n >= 10 {
        push_decimal(out, n / 10);
    }
    out.append(digit_text(n % 10));
    proof {
        let before = old(out)@;
        if n >= 10 {
            assert(final(out)@ == (before + decimal_digits(n as nat / 10)) + seq![
                digit_char(n as nat % 10),
            ]);
            assert(final(out)@ =~= before + decimal_digits(n as nat / 10).push(
                digit_char(n as nat % 10),
            ));
        }
    }
}

} // verus!
