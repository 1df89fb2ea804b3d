//! Characters and strings: white space, tokens, searching and decimal numbers.
//!
//! Everything here is stated over `Seq<char>`, the view of `str` and `String`.

use vstd::prelude::*;
use vstd::string::*;

verus! {

/// `String::push` appends one character to the end of the string.
pub assume_specification[ String::push ](s: &mut String, ch: char)
    ensures
        final(s)@ == old(s)@.push(ch),
;

/// `String::pop` removes the last character and returns it; on an empty string
/// it returns `None` and changes nothing.
pub assume_specification[ String::pop ](s: &mut String) -> (last: Option<char>)
    ensures
        old(s)@.len() == 0 ==> last.is_none() && final(s)@ == old(s)@,
        old(s)@.len() > 0 ==> last == Some(old(s)@.last()) && final(s)@ == old(s)@.drop_last(),
;

/// `String::clear` removes every character.
pub assume_specification[ String::clear ](s: &mut String)
    ensures
        final(s)@ == Seq::<char>::empty(),
;

/// The characters that carry the Unicode property `White_Space`.
pub open spec fn is_space(c: char) -> bool {
    let u = c as u32;
    ||| 0x09 <= u <= 0x0D
    ||| u == 0x20
    ||| u == 0x85
    ||| u == 0xA0
    ||| u == 0x1680
    ||| 0x2000 <= u <= 0x200A
    ||| u == 0x2028
    ||| u == 0x2029
    ||| u == 0x202F
    ||| u == 0x205F
    ||| u == 0x3000
}

/// Length of the longest prefix of `s` whose characters are all white space
/// (`spaces`) or all not white space (`!spaces`).
pub open spec fn run(s: Seq<char>, spaces: bool) -> nat
    decreases s.len(),
{
    if s.len() > 0 && is_space(s[0]) == spaces {
        1 + run(s.drop_first(), spaces)
    } else {
        0
    }
}

/// Length of the longest suffix of `s` that is all white space.
pub open spec fn trailing_spaces(s: Seq<char>) -> nat
    decreases s.len(),
{
    if s.len() > 0 && is_space(s.last()) {
        1 + trailing_spaces(s.drop_last())
    } else {
        0
    }
}

/// `s` without its leading and trailing white space.
pub open spec fn trimmed(s: Seq<char>) -> Seq<char> {
    let t = s.skip(run(s, true) as int);
    t.take(t.len() - trailing_spaces(t))
}

/// The maximal runs of characters of `s` that are not white space, from left
/// to right.
pub open spec fn tokens(s: Seq<char>) -> Seq<Seq<char>>
    decreases s.len(),
    via tokens_decreases
{
    let t = s.skip(run(s, true) as int);
    if t.len() == 0 {
        Seq::empty()
    } else {
        seq![t.take(run(t, false) as int)] + tokens(t.skip(run(t, false) as int))
    }
}

#[via_fn]
proof fn tokens_decreases(s: Seq<char>) {
    lemma_run(s, true);
    let t = s.skip(run(s, true) as int);
    if t.len() != 0 {
        lemma_run(t, false);
        assert(!is_space(t[0]));
    }
}

/// Index of the first occurrence of `c` in `s`, or `s.len()` when there is none.
pub open spec fn position_of(s: Seq<char>, c: char) -> nat
    decreases s.len(),
{
    if s.len() == 0 || s[0] == c {
        0
    } else {
        1 + position_of(s.drop_first(), c)
    }
}

/// The parts of `s` before and after the first occurrence of `c`.
pub open spec fn split_once(s: Seq<char>, c: char) -> Option<(Seq<char>, Seq<char>)> {
    let i = position_of(s, c) as int;
    if i < s.len() {
        Some((s.take(i), s.skip(i + 1)))
    } else {
        None
    }
}

/// The ASCII decimal digits.
pub open spec fn is_digit(c: char) -> bool {
    48 <= c as u32 <= 57
}

/// The character that stands for the digit `d`.
pub open spec fn digit(d: nat) -> char
    recommends
        d < 10,
{
    ((48 + d) as u8) as char
}

/// `n` in decimal, without leading zeros.
pub open spec fn decimal(n: nat) -> Seq<char>
    decreases n,
{
    if n < 10 {
        seq![digit(n)]
    } else {
        decimal(n / 10).push(digit(n % 10))
    }
}

pub open spec fn all_digits(s: Seq<char>) -> bool {
    forall|i: int| 0 <= i < s.len() ==> is_digit(#[trigger] s[i])
}

/// The number that a string of decimal digits denotes.
pub open spec fn digits_value(s: Seq<char>) -> nat
    decreases s.len(),
{
    if s.len() == 0 {
        0
    } else {
        10 * digits_value(s.drop_last()) + (s.last() as u32 - 48) as nat
    }
}

/// Reads a 16-bit unsigned number: an optional `+`, then one or more decimal
/// digits whose value is at most 65535. Leading zeros are accepted.
pub open spec fn parse_u16(s: Seq<char>) -> Option<u16> {
    if s.len() > 0 && s[0] == '+' {
        digits_to_u16(s.drop_first())
    } else {
        digits_to_u16(s)
    }
}

/// The number that `d` denotes, if `d` is one or more decimal digits and the
/// number fits in 16 bits.
pub open spec fn digits_to_u16(d: Seq<char>) -> Option<u16> {
    if d.len() > 0 && all_digits(d) && digits_value(d) <= u16::MAX {
        Some(digits_value(d) as u16)
    } else {
        None
    }
}

/// What `run` returns: every character before it is in the run, and the
/// character at it, if there is one, is not.
pub proof fn lemma_run(s: Seq<char>, spaces: bool)
    ensures
        run(s, spaces) <= s.len(),
        forall|j: int| 0 <= j < run(s, spaces) ==> is_space(#[trigger] s[j]) == spaces,
        run(s, spaces) < s.len() ==> is_space(s[run(s, spaces) as int]) != spaces,
    decreases s.len(),
{
    if s.len() > 0 && is_space(s[0]) == spaces {
        let r = s.drop_first();
        lemma_run(r, spaces);
        assert forall|j: int| 0 <= j < run(s, spaces) implies is_space(#[trigger] s[j])
            == spaces by {
            if j > 0 {
                assert(s[j] == r[j - 1]);
            }
        }
        if run(s, spaces) < s.len() {
            assert(s[run(s, spaces) as int] == r[run(r, spaces) as int]);
        }
    }
}

/// `run` is the only number with the properties that `lemma_run` states.
pub proof fn lemma_run_is(s: Seq<char>, spaces: bool, k: int)
    requires
        0 <= k <= s.len(),
        forall|j: int| 0 <= j < k ==> is_space(#[trigger] s[j]) == spaces,
        k < s.len() ==> is_space(s[k]) != spaces,
    ensures
        run(s, spaces) == k,
    decreases s.len(),
{
    if k > 0 {
        let r = s.drop_first();
        assert(is_space(s[0]) == spaces);
        assert forall|j: int| 0 <= j < k - 1 implies is_space(#[trigger] r[j]) == spaces by {
            assert(r[j] == s[j + 1]);
        }
        lemma_run_is(r, spaces, k - 1);
    }
}

/// `trailing_spaces` is the only number `k` such that the last `k` characters
/// are white space and the one before them, if there is one, is not.
pub proof fn lemma_trailing_spaces_is(s: Seq<char>, k: int)
    requires
        0 <= k <= s.len(),
        forall|j: int| s.len() - k <= j < s.len() ==> is_space(#[trigger] s[j]),
        k < s.len() ==> !is_space(s[s.len() - k - 1]),
    ensures
        trailing_spaces(s) == k,
    decreases s.len(),
{
    if k > 0 {
        let r = s.drop_last();
        assert(is_space(s[s.len() - 1]));
        assert forall|j: int| r.len() - (k - 1) <= j < r.len() implies is_space(
            #[trigger] r[j],
        ) by {
            assert(r[j] == s[j]);
        }
        lemma_trailing_spaces_is(r, k - 1);
    }
}

/// A trimmed string neither begins nor ends with white space, and trimming
/// it again changes nothing.
pub proof fn lemma_trimmed(s: Seq<char>)
    ensures
        trimmed(s).len() <= s.len(),
        trimmed(s).len() > 0 ==> !is_space(trimmed(s).first()) && !is_space(trimmed(s).last()),
        trimmed(trimmed(s)) == trimmed(s),
{
    lemma_run(s, true);
    let t = s.skip(run(s, true) as int);
    lemma_trailing_spaces(t);
    let r = trimmed(s);
    if r.len() > 0 {
        assert(r.first() == t[0]);
        assert(r.last() == t[t.len() - trailing_spaces(t) - 1]);
        lemma_run_is(r, true, 0);
        lemma_trailing_spaces_is(r.skip(0), 0);
        assert(r.skip(0).take(r.len() as int) =~= r);
    } else {
        assert(trimmed(r) =~= r);
    }
}

/// What `trailing_spaces` returns.
pub proof fn lemma_trailing_spaces(s: Seq<char>)
    ensures
        trailing_spaces(s) <= s.len(),
        forall|j: int| s.len() - trailing_spaces(s) <= j < s.len() ==> is_space(#[trigger] s[j]),
        trailing_spaces(s) < s.len() ==> !is_space(s[s.len() - trailing_spaces(s) - 1]),
    decreases s.len(),
{
    if s.len() > 0 && is_space(s.last()) {
        let r = s.drop_last();
        lemma_trailing_spaces(r);
        assert forall|j: int| s.len() - trailing_spaces(s) <= j < s.len() implies is_space(
            #[trigger] s[j],
        ) by {
            if j < r.len() {
                assert(s[j] == r[j]);
            }
        }
        if trailing_spaces(s) < s.len() {
            assert(s[s.len() - trailing_spaces(s) - 1] == r[r.len() - trailing_spaces(r) - 1]);
        }
    }
}

/// What `position_of` returns.
pub proof fn lemma_position_of(s: Seq<char>, c: char)
    ensures
        position_of(s, c) <= s.len(),
        forall|j: int| 0 <= j < position_of(s, c) ==> #[trigger] s[j] != c,
        position_of(s, c) < s.len() ==> s[position_of(s, c) as int] == c,
    decreases s.len(),
{
    if !(s.len() == 0 || s[0] == c) {
        let r = s.drop_first();
        lemma_position_of(r, c);
        assert forall|j: int| 0 <= j < position_of(s, c) implies #[trigger] s[j] != c by {
            if j > 0 {
                assert(s[j] == r[j - 1]);
            }
        }
        if position_of(s, c) < s.len() {
            assert(s[position_of(s, c) as int] == r[position_of(r, c) as int]);
        }
    }
}

/// `position_of` is the only number with the properties that
/// `lemma_position_of` states.
pub proof fn lemma_position_is(s: Seq<char>, c: char, k: int)
    requires
        0 <= k <= s.len(),
        forall|j: int| 0 <= j < k ==> #[trigger] s[j] != c,
        k < s.len() ==> s[k] == c,
    ensures
        position_of(s, c) == k,
    decreases s.len(),
{
    if k > 0 {
        let r = s.drop_first();
        assert(s[0] != c);
        assert forall|j: int| 0 <= j < k - 1 implies #[trigger] r[j] != c by {
            assert(r[j] == s[j + 1]);
        }
        lemma_position_is(r, c, k - 1);
    }
}

/// White space at the front of a string holds no token.
pub proof fn lemma_tokens_skip_space(s: Seq<char>)
    requires
        s.len() > 0,
        is_space(s[0]),
    ensures
        tokens(s) == tokens(s.drop_first()),
{
    let r = s.drop_first();
    lemma_run(s, true);
    lemma_run(r, true);
    assert(s.skip(run(s, true) as int) =~= r.skip(run(r, true) as int));
}

/// A string that begins with a character other than white space begins with
/// a token, which ends where the next white space or the string's end is.
pub proof fn lemma_tokens_take_word(s: Seq<char>, end: int)
    requires
        0 < end <= s.len(),
        forall|j: int| 0 <= j < end ==> !is_space(#[trigger] s[j]),
        end < s.len() ==> is_space(s[end]),
    ensures
        tokens(s) == seq![s.take(end)] + tokens(s.skip(end)),
{
    lemma_run_is(s, true, 0);
    assert(s.skip(0) =~= s);
    lemma_run_is(s, false, end);
}

/// No token is empty and no token holds white space.
pub proof fn lemma_tokens_are_words(s: Seq<char>)
    ensures
        forall|k: int, j: int|
            0 <= k < tokens(s).len() && 0 <= j < tokens(s)[k].len() ==> !is_space(
                #[trigger] tokens(s)[k][j],
            ),
        forall|k: int| 0 <= k < tokens(s).len() ==> (#[trigger] tokens(s)[k]).len() > 0,
    decreases s.len(),
{
    lemma_run(s, true);
    let t = s.skip(run(s, true) as int);
    if t.len() != 0 {
        lemma_run(t, false);
        assert(!is_space(t[0]));
        let n = run(t, false) as int;
        let rest = t.skip(n);
        lemma_tokens_are_words(rest);
        assert forall|k: int, j: int|
            0 <= k < tokens(s).len() && 0 <= j < tokens(s)[k].len() implies !is_space(
            #[trigger] tokens(s)[k][j],
        ) by {
            if k == 0 {
                assert(tokens(s)[0][j] == t[j]);
            } else {
                assert(tokens(s)[k] == tokens(rest)[k - 1]);
            }
        }
        assert forall|k: int| 0 <= k < tokens(s).len() implies (#[trigger] tokens(s)[k]).len()
            > 0 by {
            if k > 0 {
                assert(tokens(s)[k] == tokens(rest)[k - 1]);
            }
        }
    }
}

/// A longer string of digits denotes a number at least as large as each of
/// its prefixes does.
pub proof fn lemma_digits_value_grows(s: Seq<char>, k: int)
    requires
        0 <= k <= s.len(),
        all_digits(s),
    ensures
        digits_value(s.take(k)) <= digits_value(s),
    decreases s.len() - k,
{
    if k < s.len() {
        lemma_digits_value_grows(s, k + 1);
        assert(s.take(k + 1).drop_last() =~= s.take(k));
        assert(is_digit(s[k]));
    } else {
        assert(s.take(k) =~= s);
    }
}

/// Whether `c` is white space.
pub fn char_is_space(c: char) -> (b: bool)
    ensures
        b == is_space(c),
{
    let u: u32 = c as u32;
    (0x09 <= u && u <= 0x0D) || u == 0x20 || u == 0x85 || u == 0xA0 || u == 0x1680 || (0x2000 <= u
        && u <= 0x200A) || u == 0x2028 || u == 0x2029 || u == 0x202F || u == 0x205F || u == 0x3000
}

/// The characters of a string slice, as a vector.
pub fn chars_of(s: &str) -> (v: Vec<char>)
    ensures
        v@ == s@,
{
    let mut v: Vec<char> = Vec::new();
    for c in it: s.chars()
        invariant
            v@ == it.seq().take(it.index() as int),
            it.seq() == s@,
    {
        v.push(c);
    }
    v
}

/// The characters `chars[from..to]` as a string.
pub fn string_of(chars: &Vec<char>, from: usize, to: usize) -> (s: String)
    requires
        from <= to <= chars.len(),
    ensures
        s@ == chars@.subrange(from as int, to as int),
{
    let mut s = String::new();
    let mut i: usize = from;
    while i < to
        invariant
            from <= i <= to <= chars.len(),
            s@ == chars@.subrange(from as int, i as int),
        decreases to - i,
    {
        s.push(chars[i]);
        i += 1;
        assert(s@ =~= chars@.subrange(from as int, i as int));
    }
    s
}

/// The characters `chars[from..to]` as a vector of their own.
pub fn slice_of(chars: &Vec<char>, from: usize, to: usize) -> (v: Vec<char>)
    requires
        from <= to <= chars.len(),
    ensures
        v@ == chars@.subrange(from as int, to as int),
{
    let mut v: Vec<char> = Vec::new();
    let mut i: usize = from;
    while i < to
        invariant
            from <= i <= to <= chars.len(),
            v@ == chars@.subrange(from as int, i as int),
        decreases to - i,
    {
        v.push(chars[i]);
        i += 1;
        assert(v@ =~= chars@.subrange(from as int, i as int));
    }
    v
}

/// `s` without the white space at its two ends.
pub fn trim(s: &str) -> (t: &str)
    ensures
        t@ == trimmed(s@),
{
    let chars = chars_of(s);
    let n: usize = chars.len();
    let mut start: usize = 0;
    while start < n && char_is_space(chars[start])
        invariant
            start <= n == chars.len(),
            forall|j: int| 0 <= j < start ==> is_space(#[trigger] chars@[j]),
        decreases n - start,
    {
        start += 1;
    }
    let mut end: usize = n;
    while end > start && char_is_space(chars[end - 1])
        invariant
            start <= end <= n == chars.len(),
            forall|j: int| end <= j < n ==> is_space(#[trigger] chars@[j]),
        decreases end,
    {
        end -= 1;
    }
    proof {
        lemma_run_is(chars@, true, start as int);
        let rest = chars@.skip(start as int);
        assert forall|j: int| rest.len() - (n - end) <= j < rest.len() implies is_space(
            #[trigger] rest[j],
        ) by {
            assert(rest[j] == chars@[j + start]);
        }
        if n - end < rest.len() {
            assert(rest[rest.len() - (n - end) - 1] == chars@[end - 1]);
        }
        lemma_trailing_spaces_is(rest, n - end);
        assert(rest.take(rest.len() - (n - end)) =~= chars@.subrange(start as int, end as int));
    }
    s.substring_char(start, end)
}

/// The views of the vectors in `v`.
pub open spec fn views(v: Seq<Vec<char>>) -> Seq<Seq<char>> {
    v.map_values(|t: Vec<char>| t@)
}

/// Splits `s` at white space: the tokens of `s`, in order.
pub fn split_whitespace(s: &str) -> (words: Vec<Vec<char>>)
    ensures
        views(words@) == tokens(s@),
{
    let chars = chars_of(s);
    let n: usize = chars.len();
    let mut words: Vec<Vec<char>> = Vec::new();
    let mut i: usize = 0;
    proof {
        assert(chars@.skip(0) =~= chars@);
        assert(views(words@) + tokens(chars@) =~= tokens(chars@));
    }
    while i < n
        invariant
            i <= n == chars.len(),
            tokens(chars@) == views(words@) + tokens(chars@.skip(i as int)),
        decreases n - i,
    {
        if char_is_space(chars[i]) {
            proof {
                lemma_tokens_skip_space(chars@.skip(i as int));
                assert(chars@.skip(i as int).drop_first() =~= chars@.skip(i + 1));
            }
            i += 1;
        } else {
            let start: usize = i;
            while i < n && !char_is_space(chars[i])
                invariant
                    start <= i <= n == chars.len(),
                    forall|j: int| start <= j < i ==> !is_space(#[trigger] chars@[j]),
                decreases n - i,
            {
                i += 1;
            }
            let word = slice_of(&chars, start, i);
            proof {
                let rest = chars@.skip(start as int);
                assert forall|j: int| 0 <= j < i - start implies !is_space(#[trigger] rest[j]) by {
                    assert(rest[j] == chars@[j + start]);
                }
                lemma_tokens_take_word(rest, i - start);
                assert(rest.take(i - start) =~= word@);
                assert(rest.skip(i - start) =~= chars@.skip(i as int));
                assert(views(words@.push(word)) =~= views(words@).push(word@));
                assert(views(words@).push(word@) + tokens(chars@.skip(i as int)) =~= views(words@)
                    + (seq![word@] + tokens(chars@.skip(i as int))));
            }
            words.push(word);
        }
    }
    proof {
        assert(chars@.skip(n as int).len() == 0);
        lemma_run(chars@.skip(n as int), true);
        assert(tokens(chars@.skip(n as int)) =~= Seq::<Seq<char>>::empty());
        assert(views(words@) + Seq::<Seq<char>>::empty() =~= views(words@));
    }
    words
}

/// Index of the first `c` in `chars`, or the length of `chars`.
pub fn position(chars: &Vec<char>, c: char) -> (i: usize)
    ensures
        i == position_of(chars@, c),
{
    let mut i: usize = 0;
    while i < chars.len() && chars[i] != c
        invariant
            i <= chars.len(),
            forall|j: int| 0 <= j < i ==> #[trigger] chars@[j] != c,
        decreases chars.len() - i,
    {
        i += 1;
    }
    proof {
        lemma_position_is(chars@, c, i as int);
    }
    i
}

/// `s`, followed by as many spaces as it takes to reach `width` characters.
pub open spec fn padded(s: Seq<char>, width: nat) -> Seq<char> {
    if s.len() < width {
        s + Seq::new((width - s.len()) as nat, |i: int| ' ')
    } else {
        s
    }
}

/// `s`, padded with spaces on the right to `width` characters.
pub fn pad_right(s: &str, width: usize) -> (r: String)
    ensures
        r@ == padded(s@, width as nat),
{
    let mut r = String::from_str(s);
    let mut n: usize = s.unicode_len();
    while n < width
        invariant
            r@.len() == n,
            s@.len() <= n,
            n > s@.len() ==> n <= width,
            r@ == s@ + Seq::new((n - s@.len()) as nat, |i: int| ' '),
        decreases width - n,
    {
        r.push(' ');
        n += 1;
        assert(r@ =~= s@ + Seq::new((n - s@.len()) as nat, |i: int| ' '));
    }
    assert(r@ =~= padded(s@, width as nat));
    r
}

/// Appends `n` in decimal to `out`.
pub fn push_decimal(out: &mut String, n: u64)
    ensures
        final(out)@ == old(out)@ + decimal(n as nat),
    decreases n,
{
    if n >= 10 {
        push_decimal(out, n / 10);
    }
    let d: u8 = (n % 10) as u8;
    out.push((48 + d) as char);
    proof {
        if n >= 10 {
            assert(final(out)@ =~= old(out)@ + decimal(n as nat));
        } else {
            assert(final(out)@ =~= old(out)@ + decimal(n as nat));
        }
    }
}

/// Reads a 16-bit unsigned decimal number.
pub fn read_u16(chars: &Vec<char>) -> (r: Option<u16>)
    ensures
        r == parse_u16(chars@),
{
    let n: usize = chars.len();
    let start: usize = if n > 0 && chars[0] == '+' {
        1
    } else {
        0
    };
    let ghost d = chars@.skip(start as int);
    proof {
        if start == 1 {
            assert(chars@.drop_first() =~= d);
        } else {
            assert(chars@ =~= d);
        }
    }
    if start == n {
        return None;
    }
    let mut value: u32 = 0;
    let mut i: usize = start;
    while i < n
        invariant
            start <= i <= n == chars.len(),
            d == chars@.skip(start as int),
            parse_u16(chars@) == digits_to_u16(d),
            forall|j: int| 0 <= j < i - start ==> is_digit(#[trigger] d[j]),
            value == digits_value(d.take(i - start)),
            value <= u16::MAX,
        decreases n - i,
    {
        let c: char = chars[i];
        let u: u32 = c as u32;
        if u < 48 || u > 57 {
            proof {
                assert(!is_digit(d[i - start]));
            }
            return None;
        }
        let ghost before = d.take(i - start);
        value = value * 10 + (u - 48);
        i += 1;
        proof {
            assert(d.take(i - start).drop_last() =~= before);
            assert(d.take(i - start).last() == chars@[i - 1]);
        }
        if value > 65535 {
            proof {
                if all_digits(d) {
                    lemma_digits_value_grows(d, i - start);
                }
            }
            return None;
        }
    }
    proof {
        assert(d.take(n - start) =~= d);
    }
    Some(value as u16)
}

} // verus!
