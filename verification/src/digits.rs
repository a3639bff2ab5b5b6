//! Decimal digit runs: recognition, numeric value, and rendering.
//!
//! Wire names embed row/column coordinates and relative offsets as decimal
//! digit strings; this module gives those strings a numeric meaning and
//! renders numbers back in canonical form (no leading zeros, no sign).

use vstd::prelude::*;

verus! {

/// A decimal digit character.
pub open spec fn is_digit(c: char) -> bool {
    '0' <= c && c <= '9'
}

/// Numeric value of a single digit character.
pub open spec fn digit_val(c: char) -> int {
    c as int - '0' as int
}

/// Every character of `s` is a decimal digit.
pub open spec fn all_digits(s: Seq<char>) -> bool {
    forall|i: int| 0 <= i < s.len() ==> is_digit(#[trigger] s[i])
}

/// Value of a digit string read most-significant first.
pub open spec fn digits_val(s: Seq<char>) -> int
    decreases s.len(),
{
    if s.len() == 0 {
        0
    } else {
        digits_val(s.drop_last()) * 10 + digit_val(s.last())
    }
}

/// Canonical decimal rendering of `n`: no leading zeros, no sign.
pub open spec fn render_dec(n: nat) -> Seq<char>
    decreases n,
{
    if n < 10 {
        seq![digit_char(n)]
    } else {
        render_dec(n / 10).push(digit_char(n % 10))
    }
}

/// The digit character for a value below ten.
pub open spec fn digit_char(n: nat) -> char {
    if n == 0 { '0' }
    else if n == 1 { '1' }
    else if n == 2 { '2' }
    else if n == 3 { '3' }
    else if n == 4 { '4' }
    else if n == 5 { '5' }
    else if n == 6 { '6' }
    else if n == 7 { '7' }
    else { if n == 8 { '8' } else { '9' } }
}

proof fn lemma_digit_char_val(n: nat)
    requires
        n < 10,
    ensures
        is_digit(digit_char(n)),
        digit_val(digit_char(n)) == n,
{
}

/// A canonical rendering consists of digits, is non-empty, and reads back
/// to the number it renders.
pub proof fn lemma_render_dec(n: nat)
    ensures
        render_dec(n).len() >= 1,
        all_digits(render_dec(n)),
        digits_val(render_dec(n)) == n,
    decreases n,
{
    if n < 10 {
        lemma_digit_char_val(n);
        let s = render_dec(n);
        assert(s =~= seq![digit_char(n)]);
        assert(s.drop_last() =~= Seq::<char>::empty());
        assert(digits_val(s.drop_last()) == 0);
        assert(s.last() == digit_char(n));
        assert(digits_val(s) == digit_val(digit_char(n)));
    } else {
        lemma_render_dec(n / 10);
        lemma_digit_char_val(n % 10);
        let s = render_dec(n);
        assert(s =~= render_dec(n / 10).push(digit_char(n % 10)));
        assert(s.drop_last() =~= render_dec(n / 10));
        assert(s.last() == digit_char(n % 10));
        assert(digits_val(s) == (n / 10) * 10 + (n % 10));
        vstd::arithmetic::div_mod::lemma_fundamental_div_mod(n as int, 10);
    }
}

/// The value of a digit string is never negative.
pub proof fn lemma_digits_val_nonneg(s: Seq<char>)
    requires
        all_digits(s),
    ensures
        digits_val(s) >= 0,
    decreases s.len(),
{
    if s.len() > 0 {
        assert(all_digits(s.drop_last())) by {
            assert(forall|i: int|
                0 <= i < s.drop_last().len() ==> s.drop_last()[i] == #[trigger] s[i]);
        }
        lemma_digits_val_nonneg(s.drop_last());
        assert(is_digit(s[s.len() - 1]));
    }
}

/// First index at or after `from` holding a non-digit, or the length of `s`.
pub open spec fn digit_run_end(s: Seq<char>, from: int) -> int
    decreases s.len() - from,
{
    if from < 0 || from >= s.len() {
        s.len() as int
    } else if !is_digit(s[from]) {
        from
    } else {
        digit_run_end(s, from + 1)
    }
}

/// The run end lies between `from` and the length, every character of the
/// run is a digit, and the run is maximal.
pub proof fn lemma_digit_run_end(s: Seq<char>, from: int)
    requires
        0 <= from <= s.len(),
    ensures
        from <= digit_run_end(s, from) <= s.len(),
        forall|i: int| from <= i < digit_run_end(s, from) ==> is_digit(#[trigger] s[i]),
        digit_run_end(s, from) < s.len() ==> !is_digit(s[digit_run_end(s, from)]),
    decreases s.len() - from,
{
    if from < s.len() && is_digit(s[from]) {
        lemma_digit_run_end(s, from + 1);
    }
}

/// Scans forward from `from` to the end of the digit run.
pub fn find_digit_run_end(s: &str, from: usize) -> (j: usize)
    requires
        from <= s@.len(),
    ensures
        j == digit_run_end(s@, from as int),
{
    proof {
        lemma_digit_run_end(s@, from as int);
    }
    let n = s.unicode_len();
    let mut j = from;
    while j < n
        invariant
            from <= j <= n,
            n == s@.len(),
            forall|i: int| from <= i < j ==> is_digit(#[trigger] s@[i]),
            digit_run_end(s@, from as int) >= j,
        decreases n - j,
    {
        let c = s.get_char(j);
        if !(c >= '0' && c <= '9') {
            proof {
                lemma_digit_run_end(s@, from as int);
                lemma_run_end_stops(s@, from as int, j as int);
            }
            return j;
        }
        proof {
            lemma_run_end_extends(s@, from as int, j as int);
        }
        j = j + 1;
    }
    j
}

proof fn lemma_run_end_extends(s: Seq<char>, from: int, j: int)
    requires
        0 <= from <= j < s.len(),
        forall|i: int| from <= i <= j ==> is_digit(#[trigger] s[i]),
    ensures
        digit_run_end(s, from) >= j + 1,
    decreases j - from,
{
    if from < j {
        lemma_run_end_extends(s, from + 1, j);
    } else {
        lemma_digit_run_end(s, from + 1);
    }
}

proof fn lemma_run_end_stops(s: Seq<char>, from: int, j: int)
    requires
        0 <= from <= j < s.len(),
        forall|i: int| from <= i < j ==> is_digit(#[trigger] s[i]),
        !is_digit(s[j]),
    ensures
        digit_run_end(s, from) == j,
    decreases j - from,
{
    if from < j {
        lemma_run_end_stops(s, from + 1, j);
    }
}

/// Parses the digit run `s[from..to]` as a number; `None` when the value
/// does not fit in `u32`.
pub fn parse_digits_u32(s: &str, from: usize, to: usize) -> (r: Option<u32>)
    requires
        from <= to <= s@.len(),
        all_digits(s@.subrange(from as int, to as int)),
    ensures
        digits_val(s@.subrange(from as int, to as int)) <= u32::MAX
            ==> r == Some((digits_val(s@.subrange(from as int, to as int)) as u32)),
        digits_val(s@.subrange(from as int, to as int)) > u32::MAX ==> r is None,
{
    let ghost whole = s@.subrange(from as int, to as int);
    let mut acc: u32 = 0;
    let mut i = from;
    while i < to
        invariant
            from <= i <= to <= s@.len(),
            all_digits(whole),
            whole == s@.subrange(from as int, to as int),
            digits_val(s@.subrange(from as int, i as int)) == acc,
        decreases to - i,
    {
        let ghost pre = s@.subrange(from as int, i as int);
        let c = s.get_char(i);
        proof {
            assert(s@[i as int] == whole[i - from]);
            assert(is_digit(c));
            assert(s@.subrange(from as int, i + 1 as int).drop_last() =~= pre);
            assert(s@.subrange(from as int, i + 1 as int).last() == c);
        }
        let d = (c as u32) - 48;
        if acc > (u32::MAX - d) / 10 {
            proof {
                assert(digits_val(s@.subrange(from as int, i + 1 as int)) > u32::MAX);
                lemma_digits_grow(s@, from as int, i + 1 as int, to as int);
            }
            return None;
        }
        acc = acc * 10 + d;
        i = i + 1;
    }
    Some(acc)
}

/// Extending a digit run whose value already exceeds `u32::MAX` keeps it
/// over `u32::MAX`.
proof fn lemma_digits_grow(s: Seq<char>, from: int, mid: int, to: int)
    requires
        0 <= from <= mid <= to <= s.len(),
        all_digits(s.subrange(from, to)),
        digits_val(s.subrange(from, mid)) > u32::MAX,
    ensures
        digits_val(s.subrange(from, to)) > u32::MAX,
    decreases to - mid,
{
    if mid < to {
        assert(s.subrange(from, mid + 1).drop_last() =~= s.subrange(from, mid));
        assert(is_digit(s.subrange(from, to)[mid + 1 - from - 1]));
        assert(s.subrange(from, mid + 1).last() == s[mid]);
        assert(digits_val(s.subrange(from, mid + 1))
            == digits_val(s.subrange(from, mid)) * 10 + digit_val(s[mid]));
        lemma_digits_grow(s, from, mid + 1, to);
    }
}

/// The decimal text of a digit value below ten.
pub fn digit_str(n: u32) -> (r: &'static str)
    requires
        n < 10,
    ensures
        r@ =~= seq![digit_char(n as nat)],
{
    proof {
        reveal_strlit("0");
        reveal_strlit("1");
        reveal_strlit("2");
        reveal_strlit("3");
        reveal_strlit("4");
        reveal_strlit("5");
        reveal_strlit("6");
        reveal_strlit("7");
        reveal_strlit("8");
        reveal_strlit("9");
    }
    if n == 0 { "0" }
    else if n == 1 { "1" }
    else if n == 2 { "2" }
    else if n == 3 { "3" }
    else if n == 4 { "4" }
    else if n == 5 { "5" }
    else if n == 6 { "6" }
    else if n == 7 { "7" }
    else if n == 8 { "8" }
    else { "9" }
}

/// Renders `n` in canonical decimal form.
pub fn render_u32(n: u32) -> (s: String)
    ensures
        s@ == render_dec(n as nat),
    decreases n,
{
    if n < 10 {
        String::from_str(digit_str(n))
    } else {
        let mut s = render_u32(n / 10);
        s.append(digit_str(n % 10));
        proof {
            assert(s@ =~= render_dec((n as nat) / 10).push(digit_char((n as nat) % 10)));
        }
        s
    }
}

} // verus!
