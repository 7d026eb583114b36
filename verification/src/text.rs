//! Character classes, maximal runs of a class, and decimal numerals.

use vstd::prelude::*;

verus! {

/// Whether `c` has the Unicode `Alphabetic` property.
pub uninterp spec fn is_alphabetic(c: char) -> bool;

/// Whether `c` has the Unicode `White_Space` property.
pub uninterp spec fn is_whitespace(c: char) -> bool;

/// `char::is_alphabetic` decides the Unicode `Alphabetic` property of its
/// argument. Nothing is claimed about which characters have it: the result
/// is only given the name [`is_alphabetic`].
pub assume_specification[ char::is_alphabetic ](c: char) -> (b: bool)
    ensures
        b == is_alphabetic(c),
;

/// `char::is_whitespace` decides the Unicode `White_Space` property of its
/// argument. Nothing is claimed about which characters have it: the result
/// is only given the name [`is_whitespace`].
pub assume_specification[ char::is_whitespace ](c: char) -> (b: bool)
    ensures
        b == is_whitespace(c),
;

/// `String::push` appends one character to the end of the string.
pub assume_specification[ String::push ](s: &mut String, c: char)
    ensures
        final(s)@ == old(s)@.push(c),
;

/// The character classes whose maximal runs the tokenizer consumes.
#[derive(Clone, Copy, Debug, PartialEq, Eq, Structural)]
pub enum CharClass {
    /// Every character with the Unicode `White_Space` property: what is
    /// trimmed from both ends of the input.
    White,
    /// Space, tab, carriage return and newline: what separates tokens.
    Space,
    /// Alphabetic characters and the underscore.
    Word,
    /// The decimal digits `0` to `9`.
    Digit,
}

impl CharClass {
    /// Membership of `c` in the class.
    pub open spec fn contains(self, c: char) -> bool {
        match self {
            CharClass::White => is_whitespace(c),
            CharClass::Space => c == ' ' || c == '\n' || c == '\t' || c == '\r',
            CharClass::Word => is_alphabetic(c) || c == '_',
            CharClass::Digit => '0' <= c && c <= '9',
        }
    }

    /// Decides membership of `c` in the class.
    pub fn has(self, c: char) -> (b: bool)
        ensures
            b == self.contains(c),
    {
        match self {
            CharClass::White => c.is_whitespace(),
            CharClass::Space => c == ' ' || c == '\n' || c == '\t' || c == '\r',
            CharClass::Word => c.is_alphabetic() || c == '_',
            CharClass::Digit => '0' <= c && c <= '9',
        }
    }
}

/// The index just past the maximal run of `class` characters that starts at
/// `from`; `from` itself when the run is empty.
pub open spec fn run_end(s: Seq<char>, from: int, class: CharClass) -> int
    decreases s.len() - from,
{
    if 0 <= from < s.len() && class.contains(s[from]) {
        run_end(s, from + 1, class)
    } else {
        from
    }
}

/// A run ends inside the text, at or after its start.
pub proof fn lemma_run_end_bounds(s: Seq<char>, from: int, class: CharClass)
    requires
        0 <= from <= s.len(),
    ensures
        from <= run_end(s, from, class) <= s.len(),
    decreases s.len() - from,
{
    if from < s.len() && class.contains(s[from]) {
        lemma_run_end_bounds(s, from + 1, class);
    }
}

/// A run is maximal: every character in it belongs to the class, and the
/// character after it, if there is one, does not.
pub proof fn lemma_run_is_maximal(s: Seq<char>, from: int, class: CharClass)
    requires
        0 <= from <= s.len(),
    ensures
        forall|i: int| from <= i < run_end(s, from, class) ==> class.contains(#[trigger] s[i]),
        run_end(s, from, class) < s.len() ==> !class.contains(s[run_end(s, from, class)]),
    decreases s.len() - from,
{
    if from < s.len() && class.contains(s[from]) {
        lemma_run_is_maximal(s, from + 1, class);
    }
}

/// Starting anywhere inside a run leads to the same end.
pub proof fn lemma_run_end_from_inside(s: Seq<char>, from: int, mid: int, class: CharClass)
    requires
        0 <= from <= mid <= run_end(s, from, class),
    ensures
        run_end(s, mid, class) == run_end(s, from, class),
    decreases mid - from,
{
    if from < mid {
        lemma_run_end_bounds(s, from, class);
        assert(run_end(s, from, class) > from);
        lemma_run_end_from_inside(s, from + 1, mid, class);
    }
}

/// The index at which the maximal run of `class` characters that ends just
/// before `to` begins; `to` itself when the run is empty.
pub open spec fn run_start(s: Seq<char>, to: int, class: CharClass) -> int
    decreases to,
{
    if 0 < to <= s.len() && class.contains(s[to - 1]) {
        run_start(s, to - 1, class)
    } else {
        to
    }
}

/// A run that is followed backwards begins inside the text, at or before its
/// end, and is maximal: every character in it belongs to the class, and the
/// character before it, if there is one, does not.
pub proof fn lemma_run_start_is_maximal(s: Seq<char>, to: int, class: CharClass)
    requires
        0 <= to <= s.len(),
    ensures
        0 <= run_start(s, to, class) <= to,
        forall|i: int| run_start(s, to, class) <= i < to ==> class.contains(#[trigger] s[i]),
        run_start(s, to, class) > 0 ==> !class.contains(s[run_start(s, to, class) - 1]),
    decreases to,
{
    if 0 < to && class.contains(s[to - 1]) {
        lemma_run_start_is_maximal(s, to - 1, class);
    }
}

/// `s` without the maximal runs of `class` characters at its two ends.
pub open spec fn trimmed(s: Seq<char>, class: CharClass) -> Seq<char> {
    let from = run_end(s, 0, class);
    let to = run_start(s, s.len() as int, class);
    if from <= to {
        s.subrange(from, to)
    } else {
        Seq::empty()
    }
}

/// Trimming cuts nothing but `class` characters, and leaves none at either
/// end of what it keeps.
pub proof fn lemma_trimmed_has_clean_ends(s: Seq<char>, class: CharClass)
    ensures
        trimmed(s, class).len() <= s.len(),
        forall|i: int| 0 <= i < run_end(s, 0, class) ==> class.contains(#[trigger] s[i]),
        forall|i: int|
            run_start(s, s.len() as int, class) <= i < s.len() ==> class.contains(#[trigger] s[i]),
        trimmed(s, class).len() > 0 ==> !class.contains(trimmed(s, class).first())
            && !class.contains(trimmed(s, class).last()),
        trimmed(s, class).len() == 0 ==> forall|i: int|
            0 <= i < s.len() ==> class.contains(#[trigger] s[i]),
{
    let from = run_end(s, 0, class);
    let to = run_start(s, s.len() as int, class);
    lemma_run_end_bounds(s, 0, class);
    lemma_run_is_maximal(s, 0, class);
    lemma_run_start_is_maximal(s, s.len() as int, class);
    if from < to {
        assert(trimmed(s, class).first() == s[from]);
        assert(trimmed(s, class).last() == s[to - 1]);
    }
}

/// Scans the maximal run of `class` characters that starts at `from`.
pub fn scan_run(text: &Vec<char>, from: usize, class: CharClass) -> (end: usize)
    requires
        from <= text.len(),
    ensures
        end as int == run_end(text@, from as int, class),
        from <= end <= text.len(),
{
    let mut end: usize = from;
    while end < text.len() && class.has(text[end])
        invariant
            from <= end <= text.len(),
            run_end(text@, end as int, class) == run_end(text@, from as int, class),
        decreases text.len() - end,
    {
        end += 1;
    }
    end
}

/// The number that the decimal digit `c` stands for.
pub open spec fn digit_value(c: char) -> int {
    c as int - '0' as int
}

/// The decimal digit that stands for `d`, for `d` from 0 to 9.
pub open spec fn digit_char(d: int) -> char {
    ('0' as int + d) as char
}

/// Whether `s` consists of decimal digits only.
pub open spec fn all_digits(s: Seq<char>) -> bool {
    forall|i: int| 0 <= i < s.len() ==> CharClass::Digit.contains(#[trigger] s[i])
}

/// The number written by the decimal digits `s`, most significant first.
pub open spec fn decimal_value(s: Seq<char>) -> int
    decreases s.len(),
{
    if s.len() == 0 {
        0
    } else {
        decimal_value(s.drop_last()) * 10 + digit_value(s.last())
    }
}

/// The decimal digits of `n`, most significant first, without leading zeros.
pub open spec fn decimal_text(n: nat) -> Seq<char>
    decreases n,
{
    if n < 10 {
        seq![digit_char(n as int)]
    } else {
        decimal_text(n / 10).push(digit_char((n % 10) as int))
    }
}

/// The decimal rendering of `i`, with a leading minus sign when negative.
pub open spec fn render_int(i: int) -> Seq<char> {
    if i < 0 {
        seq!['-'] + decimal_text((-i) as nat)
    } else {
        decimal_text(i as nat)
    }
}

/// A digit string denotes a number that is not negative.
pub proof fn lemma_decimal_value_nonnegative(s: Seq<char>)
    requires
        all_digits(s),
    ensures
        0 <= decimal_value(s),
    decreases s.len(),
{
    if s.len() > 0 {
        assert(CharClass::Digit.contains(s[s.len() - 1]));
        lemma_decimal_value_nonnegative(s.drop_last());
    }
}

/// Dropping trailing digits does not make the number larger.
pub proof fn lemma_prefix_value(s: Seq<char>, k: int)
    requires
        all_digits(s),
        0 <= k <= s.len(),
    ensures
        decimal_value(s.take(k)) <= decimal_value(s),
    decreases s.len() - k,
{
    if k < s.len() {
        assert(CharClass::Digit.contains(s[s.len() - 1]));
        lemma_decimal_value_nonnegative(s.drop_last());
        lemma_prefix_value(s.drop_last(), k);
        assert(s.drop_last().take(k) == s.take(k));
    } else {
        assert(s.take(k) == s);
    }
}

/// Dropping leading digits does not make the number larger.
pub proof fn lemma_suffix_value(s: Seq<char>, k: int)
    requires
        all_digits(s),
        0 <= k <= s.len(),
    ensures
        0 <= decimal_value(s.skip(k)) <= decimal_value(s),
    decreases s.len(),
{
    lemma_decimal_value_nonnegative(s.skip(k));
    if k < s.len() {
        lemma_suffix_value(s.drop_last(), k);
        assert(s.skip(k).drop_last() == s.drop_last().skip(k));
    } else {
        lemma_decimal_value_nonnegative(s);
        assert(s.skip(k).len() == 0);
    }
}

/// Reading back the digits written for `n` gives `n`.
pub proof fn lemma_decimal_round_trip(n: nat)
    ensures
        all_digits(decimal_text(n)),
        decimal_text(n).len() >= 1,
        decimal_value(decimal_text(n)) == n,
    decreases n,
{
    if n < 10 {
        let t = decimal_text(n);
        assert(t.drop_last().len() == 0);
        assert(decimal_value(t.drop_last()) == 0);
    } else {
        lemma_decimal_round_trip(n / 10);
        let t = decimal_text(n);
        assert(t.drop_last() == decimal_text(n / 10));
        assert forall|i: int| 0 <= i < t.len() implies CharClass::Digit.contains(
            #[trigger] t[i],
        ) by {
            if i < t.len() - 1 {
                assert(t[i] == decimal_text(n / 10)[i]);
            }
        }
    }
}

/// The number that a decimal digit stands for.
pub fn digit_to_number(c: char) -> (d: u8)
    requires
        CharClass::Digit.contains(c),
    ensures
        d as int == digit_value(c),
        d <= 9,
{
    (c as u32 - '0' as u32) as u8
}

/// The decimal digit that stands for a number from 0 to 9.
pub fn number_to_digit(d: u8) -> (c: char)
    requires
        d <= 9,
    ensures
        c == digit_char(d as int),
        CharClass::Digit.contains(c),
{
    (48u8 + d) as char
}

/// Reads the digits `text[from..to]` as a number, or reports that it does
/// not fit in an `i128`.
pub fn parse_decimal(text: &Vec<char>, from: usize, to: usize) -> (r: Option<i128>)
    requires
        from <= to <= text.len(),
        all_digits(text@.subrange(from as int, to as int)),
    ensures
        match r {
            Some(v) => v as int == decimal_value(text@.subrange(from as int, to as int)),
            None => decimal_value(text@.subrange(from as int, to as int)) > i128::MAX,
        },
{
    let ghost digits = text@.subrange(from as int, to as int);
    let mut value: i128 = 0;
    let mut i: usize = from;
    assert(digits.take(0).len() == 0);
    while i < to
        invariant
            from <= i <= to <= text.len(),
            digits == text@.subrange(from as int, to as int),
            all_digits(digits),
            0 <= value,
            value as int == decimal_value(digits.take(i - from)),
        decreases to - i,
    {
        let ghost longer = digits.take(i - from + 1);
        proof {
            assert(longer.drop_last() == digits.take(i - from));
            assert(longer.last() == text@[i as int]);
            assert(CharClass::Digit.contains(digits[i - from]));
            lemma_prefix_value(digits, i - from + 1);
        }
        let d: u8 = digit_to_number(text[i]);
        let next = match value.checked_mul(10) {
            Some(tens) => tens.checked_add(d as i128),
            None => None,
        };
        match next {
            Some(v) => {
                value = v;
            },
            None => {
                return None;
            },
        }
        i += 1;
    }
    assert(digits.take(to - from) == digits);
    Some(value)
}

/// Writes `i` in decimal, with a leading minus sign when it is negative.
pub fn int_to_string(i: i128) -> (s: String)
    ensures
        s@ == render_int(i as int),
{
    let negative = i < 0;
    let magnitude: u128 = if negative {
        (-(i + 1)) as u128 + 1
    } else {
        i as u128
    };
    // The digits are produced least significant first.
    let mut reversed: Vec<char> = Vec::new();
    let mut rest: u128 = magnitude;
    let ghost mut tail: Seq<char> = Seq::empty();
    while rest >= 10
        invariant
            decimal_text(magnitude as nat) == decimal_text(rest as nat) + tail,
            reversed@.len() == tail.len(),
            forall|k: int| 0 <= k < tail.len() ==> reversed@[k] == tail[tail.len() - 1 - k],
        decreases rest,
    {
        let c = number_to_digit((rest % 10) as u8);
        proof {
            assert(decimal_text(rest as nat) + tail == decimal_text((rest / 10) as nat) + (seq![c]
                + tail));
            tail = seq![c] + tail;
        }
        reversed.push(c);
        rest = rest / 10;
    }
    let c = number_to_digit(rest as u8);
    proof {
        assert(decimal_text(rest as nat) + tail == seq![c] + tail);
        tail = seq![c] + tail;
    }
    reversed.push(c);
    let mut s = String::new();
    if negative {
        s.push('-');
    }
    let ghost sign = s@;
    let mut k: usize = reversed.len();
    while k > 0
        invariant
            k <= reversed.len(),
            reversed@.len() == tail.len(),
            forall|j: int| 0 <= j < tail.len() ==> reversed@[j] == tail[tail.len() - 1 - j],
            s@ == sign + tail.take(tail.len() - k),
        decreases k,
    {
        k -= 1;
        proof {
            assert(tail.take(tail.len() - k) == tail.take(tail.len() - k - 1).push(
                reversed@[k as int],
            ));
        }
        s.push(reversed[k]);
    }
    assert(tail.take(tail.len() as int) == tail);
    s
}

/// The characters of `s`, in order.
pub fn chars_of(s: &str) -> (chars: Vec<char>)
    ensures
        chars@ == s@,
{
    let mut chars: Vec<char> = Vec::new();
    for c in it: s.chars()
        invariant
            it.seq() == s@,
            chars@ == it.seq().take(it.index() as int),
    {
        chars.push(c);
    }
    chars
}

/// The characters `text[from..to]` as a string.
pub fn string_of(text: &Vec<char>, from: usize, to: usize) -> (s: String)
    requires
        from <= to <= text.len(),
    ensures
        s@ == text@.subrange(from as int, to as int),
{
    let mut s = String::new();
    let mut i: usize = from;
    while i < to
        invariant
            from <= i <= to <= text.len(),
            s@ == text@.subrange(from as int, i as int),
        decreases to - i,
    {
        s.push(text[i]);
        i += 1;
    }
    s
}

/// Whether the characters `text[from..to]` spell `word`.
pub fn spells(text: &Vec<char>, from: usize, to: usize, word: &str) -> (same: bool)
    requires
        from <= to <= text.len(),
    ensures
        same == (text@.subrange(from as int, to as int) == word@),
{
    let n = word.unicode_len();
    if to - from != n {
        return false;
    }
    let mut i: usize = 0;
    while i < n
        invariant
            i <= n,
            n == to - from,
            n == word@.len(),
            from <= to <= text.len(),
            forall|j: int| 0 <= j < i ==> text@[from + j] == word@[j],
        decreases n - i,
    {
        if text[from + i] != word.get_char(i) {
            assert(text@.subrange(from as int, to as int)[i as int] != word@[i as int]);
            return false;
        }
        i += 1;
    }
    assert(text@.subrange(from as int, to as int) =~= word@);
    true
}

/// Scans backwards the maximal run of `class` characters that ends just
/// before `to`.
pub fn scan_run_back(text: &Vec<char>, to: usize, class: CharClass) -> (start: usize)
    requires
        to <= text.len(),
    ensures
        start as int == run_start(text@, to as int, class),
        start <= to,
{
    let mut start: usize = to;
    while start > 0 && class.has(text[start - 1])
        invariant
            start <= to <= text.len(),
            run_start(text@, start as int, class) == run_start(text@, to as int, class),
        decreases start,
    {
        start -= 1;
    }
    start
}

/// The characters of `s` without the maximal runs of `class` characters at
/// its two ends.
pub fn trim(s: &str, class: CharClass) -> (kept: Vec<char>)
    ensures
        kept@ == trimmed(s@, class),
{
    let all = chars_of(s);
    let from = scan_run(&all, 0, class);
    let to = scan_run_back(&all, all.len(), class);
    let mut kept: Vec<char> = Vec::new();
    let mut i: usize = from;
    while i < to
        invariant
            from <= i,
            from <= to ==> i <= to,
            to <= all.len(),
            from <= to ==> kept@ == all@.subrange(from as int, i as int),
            from > to ==> kept@ == Seq::<char>::empty(),
        decreases to - i,
    {
        kept.push(all[i]);
        i += 1;
    }
    kept
}

} // verus!
