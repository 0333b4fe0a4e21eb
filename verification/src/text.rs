//! Text as the checks read it: Unicode whitespace, trimming, splitting on a
//! separator, unsigned decimal numbers, and counts of words and lines.

use vstd::prelude::*;

verus! {

/// Unicode `White_Space`: the characters that `char::is_whitespace` accepts.
pub open spec fn is_white(c: char) -> bool {
    let n = c as u32;
    ||| 0x9 <= n <= 0xd
    ||| n == 0x20
    ||| n == 0x85
    ||| n == 0xa0
    ||| n == 0x1680
    ||| 0x2000 <= n <= 0x200a
    ||| n == 0x2028
    ||| n == 0x2029
    ||| n == 0x202f
    ||| n == 0x205f
    ||| n == 0x3000
}

/// Number of whitespace characters at the start of `s`.
pub open spec fn leading_white(s: Seq<char>) -> nat
    decreases s.len(),
{
    if s.len() == 0 || !is_white(s[0]) {
        0
    } else {
        1 + leading_white(s.drop_first())
    }
}

/// Number of whitespace characters at the end of `s`.
pub open spec fn trailing_white(s: Seq<char>) -> nat
    decreases s.len(),
{
    if s.len() == 0 || !is_white(s.last()) {
        0
    } else {
        1 + trailing_white(s.drop_last())
    }
}

/// `s` without whitespace at either end, as `str::trim` gives it.
pub open spec fn trim(s: Seq<char>) -> Seq<char> {
    let rest = s.skip(leading_white(s) as int);
    rest.take(rest.len() - trailing_white(rest))
}

/// The pieces of `s` between occurrences of `sep`, as `str::split` gives them:
/// always at least one, and an empty one at each end where `s` starts or ends
/// with `sep`.
pub open spec fn split_on(s: Seq<char>, sep: char) -> Seq<Seq<char>>
    decreases s.len(),
{
    if s.len() == 0 {
        seq![Seq::<char>::empty()]
    } else {
        let prev = split_on(s.drop_last(), sep);
        if s.last() == sep {
            prev.push(Seq::<char>::empty())
        } else {
            prev.update(prev.len() - 1, prev.last().push(s.last()))
        }
    }
}

pub open spec fn is_digit(c: char) -> bool {
    '0' <= c <= '9'
}

pub open spec fn digit_value(c: char) -> nat {
    (c as u32 - '0' as u32) as nat
}

pub open spec fn digit_char(d: nat) -> char {
    (d + '0' as u32) as char
}

/// The value of a run of decimal digits, most significant first.
pub open spec fn digits_value(s: Seq<char>) -> nat
    decreases s.len(),
{
    if s.len() == 0 {
        0
    } else {
        digits_value(s.drop_last()) * 10 + digit_value(s.last())
    }
}

/// `s` without one leading `+`, if it has one.
pub open spec fn unsigned_digits(s: Seq<char>) -> Seq<char> {
    if s.len() > 0 && s[0] == '+' {
        s.drop_first()
    } else {
        s
    }
}

/// Whether every character of `s` is a decimal digit.
pub open spec fn all_digits(s: Seq<char>) -> bool {
    forall|i: int| 0 <= i < s.len() ==> is_digit(#[trigger] s[i])
}

/// An unsigned number as `u16::from_str` or `u64::from_str` reads it: an
/// optional `+`, then at least one decimal digit and nothing else, with a value
/// of at most `max`.
pub open spec fn parse_unsigned(s: Seq<char>, max: nat) -> Option<nat> {
    let digits = unsigned_digits(s);
    if digits.len() > 0 && all_digits(digits) && digits_value(digits) <= max {
        Some(digits_value(digits))
    } else {
        None
    }
}

/// The decimal digits of `n`, as `to_string` writes an unsigned integer.
pub open spec fn decimal(n: nat) -> Seq<char>
    decreases n,
{
    if n < 10 {
        seq![digit_char(n)]
    } else {
        decimal(n / 10).push(digit_char(n % 10))
    }
}

/// Number of words, as `str::split_whitespace` counts them: the maximal runs of
/// characters that are not whitespace.
pub open spec fn word_count(s: Seq<char>) -> nat
    decreases s.len(),
{
    if s.len() == 0 {
        0
    } else if !is_white(s.last()) && (s.len() == 1 || is_white(s[s.len() - 2])) {
        word_count(s.drop_last()) + 1
    } else {
        word_count(s.drop_last())
    }
}

/// Number of `'\n'` in `s`.
pub open spec fn newlines(s: Seq<char>) -> nat
    decreases s.len(),
{
    if s.len() == 0 {
        0
    } else if s.last() == '\n' {
        newlines(s.drop_last()) + 1
    } else {
        newlines(s.drop_last())
    }
}

/// Number of lines, as `str::lines` counts them: none in an empty text, and a
/// final line ending that ends no further line.
pub open spec fn line_count(s: Seq<char>) -> nat {
    if s.len() == 0 {
        0
    } else if s.last() == '\n' {
        newlines(s)
    } else {
        newlines(s) + 1
    }
}

/// Appends `c` to `s` with `String::push`.
#[verifier::external_body]
pub(crate) fn push_char(s: &mut String, c: char)
    ensures
        final(s)@ == old(s)@.push(c),
{
    s.push(c);
}

/// The characters of `s`, one by one.
pub fn chars_of(s: &str) -> (chars: Vec<char>)
    ensures
        chars@ == s@,
{
    let mut chars: Vec<char> = Vec::new();
    for c in it: s.chars()
        invariant
            chars@ == it.seq().take(it.index() as int),
    {
        chars.push(c);
    }
    chars
}

/// The characters `chars[from..to]` as a `String`.
pub fn string_of(chars: &Vec<char>, from: usize, to: usize) -> (s: String)
    requires
        from <= to <= chars@.len(),
    ensures
        s@ == chars@.subrange(from as int, to as int),
{
    let mut s = String::new();
    let mut i = from;
    while i < to
        invariant
            from <= i <= to <= chars@.len(),
            s@ == chars@.subrange(from as int, i as int),
        decreases to - i,
    {
        push_char(&mut s, chars[i]);
        assert(chars@.subrange(from as int, i + 1) =~= chars@.subrange(from as int, i as int).push(
            chars@[i as int],
        ));
        i = i + 1;
    }
    s
}

/// Whether `c` is Unicode whitespace, as `char::is_whitespace` tells.
pub fn is_whitespace(c: char) -> (white: bool)
    ensures
        white == is_white(c),
{
    let n = c as u32;
    (0x9 <= n && n <= 0xd) || n == 0x20 || n == 0x85 || n == 0xa0 || n == 0x1680 || (0x2000 <= n
        && n <= 0x200a) || n == 0x2028 || n == 0x2029 || n == 0x202f || n == 0x205f || n == 0x3000
}


proof fn lemma_leading_white(s: Seq<char>, i: int)
    requires
        0 <= i <= s.len(),
        forall|j: int| 0 <= j < i ==> is_white(#[trigger] s[j]),
        i == s.len() || !is_white(s[i]),
    ensures
        leading_white(s) == i,
    decreases i,
{
    if i > 0 {
        lemma_leading_white(s.drop_first(), i - 1);
    }
}

proof fn lemma_trailing_white(s: Seq<char>, k: int)
    requires
        0 <= k <= s.len(),
        forall|j: int| s.len() - k <= j < s.len() ==> is_white(#[trigger] s[j]),
        k == s.len() || !is_white(s[s.len() - 1 - k]),
    ensures
        trailing_white(s) == k,
    decreases k,
{
    if k > 0 {
        lemma_trailing_white(s.drop_last(), k - 1);
    }
}

/// The bounds of `chars[from..to]` once whitespace is trimmed from both ends.
pub fn trim_bounds(chars: &Vec<char>, from: usize, to: usize) -> (bounds: (usize, usize))
    requires
        from <= to <= chars@.len(),
    ensures
        from <= bounds.0 <= bounds.1 <= to,
        chars@.subrange(bounds.0 as int, bounds.1 as int) == trim(
            chars@.subrange(from as int, to as int),
        ),
{
    let mut start = from;
    while start < to && is_whitespace(chars[start])
        invariant
            from <= start <= to <= chars@.len(),
            forall|j: int| from <= j < start ==> is_white(#[trigger] chars@[j]),
        decreases to - start,
    {
        start = start + 1;
    }
    let mut end = to;
    while end > start && is_whitespace(chars[end - 1])
        invariant
            from <= start <= end <= to <= chars@.len(),
            forall|j: int| end <= j < to ==> is_white(#[trigger] chars@[j]),
        decreases end - start,
    {
        end = end - 1;
    }
    proof {
        let s = chars@.subrange(from as int, to as int);
        lemma_leading_white(s, start - from);
        let rest = s.skip(start - from);
        assert(rest =~= chars@.subrange(start as int, to as int));
        lemma_trailing_white(rest, to - end);
        assert(rest.take(rest.len() - (to - end)) =~= chars@.subrange(start as int, end as int));
    }
    (start, end)
}

proof fn lemma_digits_value_prefix(s: Seq<char>, k: int)
    requires
        0 <= k <= s.len(),
    ensures
        digits_value(s.take(k)) <= digits_value(s),
    decreases s.len() - k,
{
    if k < s.len() {
        lemma_digits_value_prefix(s, k + 1);
        assert(s.take(k + 1).drop_last() =~= s.take(k));
    } else {
        assert(s.take(k) =~= s);
    }
}

/// Reads `chars[from..to]` as an unsigned number no greater than `max`, as
/// `from_str` of an unsigned integer type reads it.
pub fn parse_unsigned_at(chars: &Vec<char>, from: usize, to: usize, max: u64) -> (value: Option<u64>)
    requires
        from <= to <= chars@.len(),
    ensures
        match value {
            Some(v) => parse_unsigned(chars@.subrange(from as int, to as int), max as nat) == Some(
                v as nat,
            ),
            None => parse_unsigned(chars@.subrange(from as int, to as int), max as nat) is None,
        },
{
    let ghost s = chars@.subrange(from as int, to as int);
    let mut start = from;
    if start < to && chars[start] == '+' {
        start = start + 1;
    }
    let ghost digits = chars@.subrange(start as int, to as int);
    assert(digits =~= unsigned_digits(s));
    if start == to {
        return None;
    }
    let mut value: u64 = 0;
    let mut i = start;
    while i < to
        invariant
            from <= start < to <= chars@.len(),
            start <= i <= to,
            digits == chars@.subrange(start as int, to as int),
            digits == unsigned_digits(s),
            s == chars@.subrange(from as int, to as int),
            forall|j: int| start <= j < i ==> is_digit(#[trigger] chars@[j]),
            value as nat == digits_value(chars@.subrange(start as int, i as int)),
            value <= max,
        decreases to - i,
    {
        let c = chars[i];
        assert(chars@.subrange(start as int, i + 1).drop_last() =~= chars@.subrange(
            start as int,
            i as int,
        ));
        if !('0' <= c && c <= '9') {
            assert(!is_digit(digits[i - start]));
            return None;
        }
        let d = (c as u32 - '0' as u32) as u64;
        let next: u128 = value as u128 * 10 + d as u128;
        if next > max as u128 {
            proof {
                assert(digits.take(i + 1 - start) =~= chars@.subrange(start as int, i + 1));
                assert(digits_value(chars@.subrange(start as int, i + 1)) == next);
                lemma_digits_value_prefix(digits, i + 1 - start);
                assert(digits_value(digits) > max);
            }
            return None;
        }
        value = next as u64;
        i = i + 1;
    }
    assert(chars@.subrange(start as int, i as int) =~= digits);
    Some(value)
}


/// The decimal digit `d`.
fn digit(d: u64) -> (c: char)
    requires
        d < 10,
    ensures
        c == digit_char(d as nat),
{
    ((d as u8) + 48u8) as char
}

/// `n` in decimal, as `to_string` writes it.
pub fn decimal_string(n: u64) -> (s: String)
    ensures
        s@ == decimal(n as nat),
{
    let mut reversed: Vec<char> = Vec::new();
    let mut m = n;
    let ghost mut tail: Seq<char> = Seq::empty();
    loop
        invariant_except_break
            decimal(n as nat) == decimal(m as nat) + tail,
        invariant
            reversed@.len() == tail.len(),
            forall|j: int| 0 <= j < tail.len() ==> #[trigger] tail[j] == reversed@[tail.len() - 1 - j],
        ensures
            decimal(n as nat) == tail,
        decreases m,
    {
        let c = digit(m % 10);
        reversed.push(c);
        proof {
            let old_tail = tail;
            tail = seq![c] + tail;
            assert forall|j: int| 0 <= j < tail.len() implies #[trigger] tail[j] == reversed@[tail.len()
                - 1 - j] by {
                if j > 0 {
                    assert(tail[j] == old_tail[j - 1]);
                }
            }
        }
        if m < 10 {
            assert(decimal(m as nat) =~= seq![c]);
            break;
        }
        assert(decimal(m as nat) == decimal((m / 10) as nat).push(c));
        m = m / 10;
    }
    let mut s = String::new();
    let mut k = reversed.len();
    while k > 0
        invariant
            k <= reversed@.len() == tail.len(),
            forall|j: int| 0 <= j < tail.len() ==> #[trigger] tail[j] == reversed@[tail.len() - 1 - j],
            s@ == tail.take(tail.len() - k),
        decreases k,
    {
        k = k - 1;
        push_char(&mut s, reversed[k]);
        assert(tail.take(tail.len() - k) =~= tail.take(tail.len() - k - 1).push(
            tail[tail.len() - 1 - k],
        ));
    }
    assert(tail.take(tail.len() as int) =~= tail);
    s
}

/// Number of words in `chars`, as `str::split_whitespace` counts them.
pub fn count_words(chars: &Vec<char>) -> (count: usize)
    ensures
        count == word_count(chars@),
{
    let mut count: usize = 0;
    let mut i: usize = 0;
    while i < chars.len()
        invariant
            i <= chars@.len(),
            count <= i,
            count == word_count(chars@.take(i as int)),
        decreases chars@.len() - i,
    {
        assert(chars@.take(i + 1).drop_last() =~= chars@.take(i as int));
        if !is_whitespace(chars[i]) && (i == 0 || is_whitespace(chars[i - 1])) {
            count = count + 1;
        }
        i = i + 1;
    }
    assert(chars@.take(i as int) =~= chars@);
    count
}

/// Number of lines in `chars`, as `str::lines` counts them.
pub fn count_lines(chars: &Vec<char>) -> (count: usize)
    ensures
        count == line_count(chars@),
        count <= chars@.len(),
{
    let mut breaks: usize = 0;
    let mut i: usize = 0;
    while i < chars.len()
        invariant
            i <= chars@.len(),
            breaks <= i,
            breaks == newlines(chars@.take(i as int)),
        decreases chars@.len() - i,
    {
        assert(chars@.take(i + 1).drop_last() =~= chars@.take(i as int));
        if chars[i] == '\n' {
            breaks = breaks + 1;
        }
        i = i + 1;
    }
    assert(chars@.take(i as int) =~= chars@);
    if chars.len() == 0 || chars[chars.len() - 1] == '\n' {
        breaks
    } else {
        proof {
            assert(chars@.drop_last().take(chars@.len() - 1) =~= chars@.drop_last());
            lemma_newlines_bound(chars@.drop_last());
        }
        breaks + 1
    }
}

proof fn lemma_newlines_bound(s: Seq<char>)
    ensures
        newlines(s) <= s.len(),
    decreases s.len(),
{
    if s.len() > 0 {
        lemma_newlines_bound(s.drop_last());
    }
}


/// Reads `text` as a `u64`, as `u64::from_str` reads it.
pub fn parse_u64(text: &str) -> (value: Option<u64>)
    ensures
        match value {
            Some(v) => parse_unsigned(text@, u64::MAX as nat) == Some(v as nat),
            None => parse_unsigned(text@, u64::MAX as nat) is None,
        },
{
    let chars = chars_of(text);
    let value = parse_unsigned_at(&chars, 0, chars.len(), u64::MAX);
    assert(chars@.subrange(0, chars@.len() as int) =~= text@);
    value
}

/// `str::split` always yields at least one piece.
pub proof fn lemma_split_nonempty(s: Seq<char>, sep: char)
    ensures
        split_on(s, sep).len() >= 1,
    decreases s.len(),
{
    if s.len() > 0 {
        lemma_split_nonempty(s.drop_last(), sep);
    }
}


/// Written in decimal, a number reads back as itself: what `to_string` writes,
/// `from_str` reads as the same number, and the text holds digits only.
pub proof fn lemma_decimal_reads_back(n: nat)
    ensures
        decimal(n).len() > 0,
        all_digits(decimal(n)),
        digits_value(decimal(n)) == n,
        unsigned_digits(decimal(n)) == decimal(n),
        forall|max: nat| n <= max ==> parse_unsigned(decimal(n), max) == Some(n),
        n == 0 ==> decimal(n) == seq!['0'],
        n > 0 ==> decimal(n)[0] != '0',
    decreases n,
{
    let d = (n % 10) as nat;
    assert(digit_value(digit_char(d)) == d);
    if n < 10 {
        assert(decimal(n).drop_last() =~= Seq::<char>::empty());
        assert(digits_value(decimal(n)) == digits_value(Seq::<char>::empty()) * 10 + d);
    } else {
        lemma_decimal_reads_back(n / 10);
        let prev = decimal(n / 10);
        assert(decimal(n).drop_last() =~= prev);
        assert(decimal(n)[0] == prev[0]);
        assert(decimal(n).last() == digit_char(d));
        assert(digits_value(decimal(n)) == digits_value(prev) * 10 + d);
        assert(n == (n / 10) * 10 + d);
    }
    assert(is_digit(decimal(n)[0]));
    assert(!(decimal(n)[0] == '+'));
}

/// A text without `sep` is one piece.
pub proof fn lemma_split_without_separator(s: Seq<char>, sep: char)
    requires
        forall|i: int| 0 <= i < s.len() ==> s[i] != sep,
    ensures
        split_on(s, sep) == seq![s],
    decreases s.len(),
{
    if s.len() > 0 {
        lemma_split_without_separator(s.drop_last(), sep);
        assert(s.drop_last().push(s.last()) =~= s);
        assert(seq![s.drop_last()].update(0, s.drop_last().push(s.last())) =~= seq![s]);
    } else {
        assert(s =~= Seq::<char>::empty());
    }
}

/// A text that neither starts nor ends with whitespace is its own trim.
pub proof fn lemma_trim_unchanged(s: Seq<char>)
    requires
        s.len() > 0,
        !is_white(s[0]),
        !is_white(s.last()),
    ensures
        trim(s) == s,
{
    assert(s.skip(0) =~= s);
    assert(s.take(s.len() as int) =~= s);
}


/// `newlines` counts exactly the `'\n'` characters of a text: no other
/// character, `'\r'` among them, adds to it.
pub proof fn lemma_newlines_are_line_feeds(s: Seq<char>)
    ensures
        newlines(s) == s.filter(|c: char| c == '\n').len(),
    decreases s.len(),
{
    reveal_with_fuel(Seq::filter, 1);
    if s.len() > 0 {
        lemma_newlines_are_line_feeds(s.drop_last());
    }
}

/// `str::lines` counts one line per `'\n'`, and one more for text after the
/// last `'\n'`; an empty text has none. Line endings `"\r\n"` count once.
pub proof fn lemma_line_count_by_line_feeds(s: Seq<char>)
    ensures
        line_count(s) == s.filter(|c: char| c == '\n').len() + if s.len() > 0 && s.last() != '\n' {
            1int
        } else {
            0int
        },
        line_count(Seq::<char>::empty()) == 0,
{
    lemma_newlines_are_line_feeds(s);
}


/// `str::split` gives one piece more than there are separators, and no piece
/// holds a separator.
pub proof fn lemma_split_pieces(s: Seq<char>, sep: char)
    ensures
        split_on(s, sep).len() == s.filter(|c: char| c == sep).len() + 1,
        forall|i: int, j: int|
            0 <= i < split_on(s, sep).len() && 0 <= j < split_on(s, sep)[i].len() ==> #[trigger] split_on(
                s,
                sep,
            )[i][j] != sep,
    decreases s.len(),
{
    reveal_with_fuel(Seq::filter, 1);
    if s.len() > 0 {
        lemma_split_pieces(s.drop_last(), sep);
        lemma_split_nonempty(s.drop_last(), sep);
        let prev = split_on(s.drop_last(), sep);
        if s.last() != sep {
            assert forall|i: int, j: int|
                0 <= i < split_on(s, sep).len() && 0 <= j < split_on(s, sep)[i].len() implies #[trigger] split_on(
                s,
                sep,
            )[i][j] != sep by {
                if i < prev.len() - 1 {
                    assert(split_on(s, sep)[i] == prev[i]);
                } else if j < prev.last().len() {
                    assert(split_on(s, sep)[i][j] == prev[i][j]);
                }
            }
        } else {
            assert forall|i: int, j: int|
                0 <= i < split_on(s, sep).len() && 0 <= j < split_on(s, sep)[i].len() implies #[trigger] split_on(
                s,
                sep,
            )[i][j] != sep by {
                assert(split_on(s, sep)[i] == prev[i]);
            }
        }
    }
}


proof fn lemma_leading_white_facts(s: Seq<char>)
    ensures
        leading_white(s) <= s.len(),
        forall|j: int| 0 <= j < leading_white(s) ==> is_white(#[trigger] s[j]),
        leading_white(s) < s.len() ==> !is_white(s[leading_white(s) as int]),
    decreases s.len(),
{
    if s.len() > 0 && is_white(s[0]) {
        lemma_leading_white_facts(s.drop_first());
        assert forall|j: int| 0 <= j < leading_white(s) implies is_white(#[trigger] s[j]) by {
            if j > 0 {
                assert(s[j] == s.drop_first()[j - 1]);
            }
        }
    }
}

proof fn lemma_trailing_white_facts(s: Seq<char>)
    ensures
        trailing_white(s) <= s.len(),
        forall|j: int| s.len() - trailing_white(s) <= j < s.len() ==> is_white(#[trigger] s[j]),
        trailing_white(s) < s.len() ==> !is_white(s[s.len() - 1 - trailing_white(s)]),
    decreases s.len(),
{
    if s.len() > 0 && is_white(s.last()) {
        lemma_trailing_white_facts(s.drop_last());
        assert forall|j: int| s.len() - trailing_white(s) <= j < s.len() implies is_white(
            #[trigger] s[j],
        ) by {
            if j < s.len() - 1 {
                assert(s[j] == s.drop_last()[j]);
            }
        }
    }
}

/// `trim` keeps one contiguous piece of a text: everything cut from either
/// end is whitespace, and the piece kept neither starts nor ends with it.
pub proof fn lemma_trim_cuts_only_whitespace(s: Seq<char>)
    ensures
        exists|a: int, b: int|
            {
                &&& 0 <= a <= b <= s.len()
                &&& trim(s) == s.subrange(a, b)
                &&& forall|j: int| 0 <= j < a ==> is_white(#[trigger] s[j])
                &&& forall|j: int| b <= j < s.len() ==> is_white(#[trigger] s[j])
                &&& a < b ==> !is_white(s[a]) && !is_white(s[b - 1])
            },
{
    lemma_leading_white_facts(s);
    let a = leading_white(s) as int;
    let rest = s.skip(a);
    lemma_trailing_white_facts(rest);
    let b = s.len() - trailing_white(rest);
    assert(trim(s) =~= s.subrange(a, b));
    assert forall|j: int| b <= j < s.len() implies is_white(#[trigger] s[j]) by {
        assert(s[j] == rest[j - a]);
    }
    if a < b {
        assert(s[b - 1] == rest[rest.len() - 1 - trailing_white(rest)]);
    }
    assert(forall|j: int| 0 <= j < a ==> is_white(#[trigger] s[j]));
}


/// Words on either side of whitespace count separately: joining two texts
/// with a whitespace character between them adds their word counts.
pub proof fn lemma_words_add_across_whitespace(a: Seq<char>, w: char, b: Seq<char>)
    requires
        is_white(w),
    ensures
        word_count(a + seq![w] + b) == word_count(a) + word_count(b),
    decreases b.len(),
{
    let s = a + seq![w] + b;
    if b.len() == 0 {
        assert(s =~= a.push(w));
        assert(s.drop_last() =~= a);
    } else {
        let shorter = b.drop_last();
        lemma_words_add_across_whitespace(a, w, shorter);
        assert(s.drop_last() =~= a + seq![w] + shorter);
        assert(s.last() == b.last());
        assert(s[s.len() - 2] == if shorter.len() > 0 { b[b.len() - 2] } else { w });
    }
}

/// A text of no whitespace, not empty, is one word.
pub proof fn lemma_one_word(s: Seq<char>)
    requires
        s.len() > 0,
        forall|i: int| 0 <= i < s.len() ==> !is_white(#[trigger] s[i]),
    ensures
        word_count(s) == 1,
    decreases s.len(),
{
    if s.len() > 1 {
        assert forall|i: int| 0 <= i < s.drop_last().len() implies !is_white(
            #[trigger] s.drop_last()[i],
        ) by {
            assert(s.drop_last()[i] == s[i]);
        }
        lemma_one_word(s.drop_last());
        assert(!is_white(s[s.len() - 2]));
        assert(!is_white(s[s.len() - 1]));
    } else {
        assert(s.drop_last() =~= Seq::<char>::empty());
        assert(!is_white(s[0]));
        assert(word_count(Seq::<char>::empty()) == 0);
    }
}

} // verus!
