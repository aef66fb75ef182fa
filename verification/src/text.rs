//! Text helpers: decimal numbers, comparison, trimming and splitting at white space.
use vstd::prelude::*;
use vstd::string::StringExecFns;

verus! {

/// `String::push` appends the character.
pub assume_specification[ String::push ](s: &mut String, c: char)
    ensures
        final(s)@ == old(s)@.push(c),
;

/// The decimal digit of `d`.
pub open spec fn digit_char(d: int) -> char
    recommends
        0 <= d < 10,
{
    if d == 0 {
        '0'
    } else if d == 1 {
        '1'
    } else if d == 2 {
        '2'
    } else if d == 3 {
        '3'
    } else if d == 4 {
        '4'
    } else if d == 5 {
        '5'
    } else if d == 6 {
        '6'
    } else if d == 7 {
        '7'
    } else if d == 8 {
        '8'
    } else {
        '9'
    }
}

/// `n` in decimal, without leading zeros.
pub open spec fn decimal(n: int) -> Seq<char>
    decreases n,
{
    if n < 10 {
        seq![digit_char(n)]
    } else {
        decimal(n / 10).push(digit_char(n % 10))
    }
}

/// `n` in decimal, filled up with leading zeros to at least `width` characters.
pub open spec fn decimal_padded(n: int, width: int) -> Seq<char> {
    let digits = decimal(n);
    if digits.len() >= width {
        digits
    } else {
        Seq::new((width - digits.len()) as nat, |i: int| '0') + digits
    }
}

/// The character for a digit below 10.
pub fn digit(d: u64) -> (c: char)
    requires
        d < 10,
    ensures
        c == digit_char(d as int),
{
    match d {
        0 => '0',
        1 => '1',
        2 => '2',
        3 => '3',
        4 => '4',
        5 => '5',
        6 => '6',
        7 => '7',
        8 => '8',
        _ => '9',
    }
}

/// Appends `n` in decimal.
pub fn push_decimal(s: &mut String, n: u64)
    ensures
        final(s)@ == old(s)@ + decimal(n as int),
    decreases n,
{
    let ghost before = s@;
    if n >= 10 {
        push_decimal(s, n / 10);
    }
    s.push(digit(n % 10));
    assert(s@ =~= before + decimal(n as int));
}

/// Number of decimal digits of `n`.
fn digit_count(n: u64) -> (count: usize)
    ensures
        count == decimal(n as int).len(),
        1 <= count <= 20,
{
    let mut rest: u64 = n;
    let mut count: usize = 1;
    let ghost total = decimal(n as int).len();
    proof {
        lemma_decimal_len(n as int);
    }
    while rest >= 10
        invariant
            1 <= count,
            count - 1 + decimal(rest as int).len() == total,
            total <= 20,
            decimal(rest as int).len() >= 1,
        decreases rest,
    {
        rest = rest / 10;
        count += 1;
    }
    count
}

/// 64-bit numbers have at most 20 digits.
proof fn lemma_decimal_len(n: int)
    requires
        0 <= n <= u64::MAX,
    ensures
        1 <= decimal(n).len() <= 20,
{
    reveal_with_fuel(decimal, 21);
}

/// Appends `n` in decimal with leading zeros up to `width` characters.
pub fn push_decimal_padded(s: &mut String, n: u64, width: usize)
    ensures
        final(s)@ == old(s)@ + decimal_padded(n as int, width as int),
{
    let ghost before = s@;
    let count: usize = digit_count(n);
    let fill: usize = if count >= width {
        0
    } else {
        width - count
    };
    let mut i: usize = 0;
    while i < fill
        invariant
            i <= fill,
            s@ == before + Seq::new(i as nat, |k: int| '0'),
        decreases fill - i,
    {
        s.push('0');
        i += 1;
        assert(s@ =~= before + Seq::new(i as nat, |k: int| '0'));
    }
    push_decimal(s, n);
    assert(s@ =~= before + decimal_padded(n as int, width as int));
}

/// The characters of a text.
pub fn chars_of(s: &str) -> (chars: Vec<char>)
    ensures
        chars@ == s@,
{
    let mut chars: Vec<char> = Vec::new();
    for c in it: s.chars()
        invariant
            it.seq() == s@,
            chars@ == s@.subrange(0, it.index() as int),
    {
        chars.push(c);
        assert(chars@ =~= s@.subrange(0, it.index() + 1));
    }
    assert(chars@ =~= s@);
    chars
}

/// The text made of the characters `chars[from..to]`.
pub fn text_of(chars: &[char], from: usize, to: usize) -> (text: String)
    requires
        from <= to <= chars@.len(),
    ensures
        text@ == chars@.subrange(from as int, to as int),
{
    let mut text: String = String::new();
    let mut i: usize = from;
    while i < to
        invariant
            from <= i <= to <= chars@.len(),
            text@ == chars@.subrange(from as int, i as int),
        decreases to - i,
    {
        text.push(chars[i]);
        i += 1;
        assert(text@ =~= chars@.subrange(from as int, i as int));
    }
    text
}

/// Whether two texts are equal.
pub fn same_text(a: &str, b: &str) -> (same: bool)
    ensures
        same == (a@ == b@),
{
    let x = chars_of(a);
    let y = chars_of(b);
    if x.len() != y.len() {
        return false;
    }
    let mut i: usize = 0;
    while i < x.len()
        invariant
            i <= x@.len(),
            x@ == a@,
            y@ == b@,
            x@.len() == y@.len(),
            forall|j: int| 0 <= j < i ==> x@[j] == y@[j],
        decreases x@.len() - i,
    {
        if x[i] != y[i] {
            assert(a@[i as int] != b@[i as int]);
            return false;
        }
        i += 1;
    }
    assert(a@ =~= b@);
    true
}

/// A copy of the text.
pub fn owned(s: &str) -> (text: String)
    ensures
        text@ == s@,
{
    String::from_str(s)
}

/// The characters with the Unicode property `White_Space`.
pub open spec fn white_space(c: char) -> bool {
    let u = c as u32;
    ||| 0x09 <= u <= 0x0d
    ||| u == 0x20
    ||| u == 0x85
    ||| u == 0xa0
    ||| u == 0x1680
    ||| 0x2000 <= u <= 0x200a
    ||| u == 0x2028
    ||| u == 0x2029
    ||| u == 0x202f
    ||| u == 0x205f
    ||| u == 0x3000
}

/// Whether a character is white space.
pub fn is_white_space(c: char) -> (yes: bool)
    ensures
        yes == white_space(c),
{
    let u: u32 = c as u32;
    (0x09 <= u && u <= 0x0d) || u == 0x20 || u == 0x85 || u == 0xa0 || u == 0x1680 || (0x2000 <= u
        && u <= 0x200a) || u == 0x2028 || u == 0x2029 || u == 0x202f || u == 0x205f || u == 0x3000
}

/// `s` without the white space that it ends with.
pub open spec fn trim_end(s: Seq<char>) -> Seq<char>
    decreases s.len(),
{
    if s.len() == 0 || !white_space(s.last()) {
        s
    } else {
        trim_end(s.drop_last())
    }
}

/// `s` without the white space that it starts with.
pub open spec fn trim_start(s: Seq<char>) -> Seq<char>
    decreases s.len(),
{
    if s.len() == 0 || !white_space(s[0]) {
        s
    } else {
        trim_start(s.drop_first())
    }
}

/// `s` without the white space at either end.
pub open spec fn trimmed(s: Seq<char>) -> Seq<char> {
    trim_end(trim_start(s))
}

/// Removes the white space at either end.
pub fn trim(s: &str) -> (text: String)
    ensures
        text@ == trimmed(s@),
{
    let chars = chars_of(s);
    let n: usize = chars.len();
    let mut from: usize = 0;
    assert(s@.subrange(0, n as int) =~= s@);
    while from < n && is_white_space(chars[from])
        invariant
            from <= n,
            n == chars@.len(),
            chars@ == s@,
            trim_start(s@) == trim_start(s@.subrange(from as int, n as int)),
        decreases n - from,
    {
        assert(s@.subrange(from as int, n as int).drop_first() =~= s@.subrange(from + 1, n as int));
        from += 1;
    }
    let ghost tail = s@.subrange(from as int, n as int);
    let mut to: usize = n;
    assert(trim_start(s@) == tail);
    while to > from && is_white_space(chars[to - 1])
        invariant
            from <= to <= n,
            n == chars@.len(),
            chars@ == s@,
            trimmed(s@) == trim_end(s@.subrange(from as int, to as int)),
        decreases to,
    {
        assert(s@.subrange(from as int, to as int).drop_last() =~= s@.subrange(
            from as int,
            to - 1,
        ));
        to -= 1;
    }
    text_of(chars.as_slice(), from, to)
}

/// The first of the pieces of `s` that white space separates, up to and without the first white
/// space.
pub open spec fn word_len(s: Seq<char>) -> int
    decreases s.len(),
{
    if s.len() == 0 || white_space(s[0]) {
        0
    } else {
        1 + word_len(s.drop_first())
    }
}

/// A word is no longer than its text.
pub proof fn lemma_word_len(s: Seq<char>)
    ensures
        0 <= word_len(s) <= s.len(),
        forall|i: int| 0 <= i < word_len(s) ==> !white_space(s[i]),
        word_len(s) < s.len() ==> white_space(s[word_len(s)]),
    decreases s.len(),
{
    if s.len() > 0 && !white_space(s[0]) {
        let rest = s.drop_first();
        lemma_word_len(rest);
        assert forall|i: int| 0 <= i < word_len(s) implies !white_space(s[i]) by {
            if i > 0 {
                assert(s[i] == rest[i - 1]);
            }
        }
        assert(word_len(s) < s.len() ==> s[word_len(s)] == rest[word_len(rest)]);
    }
}

/// The non-empty pieces of `s` between white space, in order.
pub open spec fn words(s: Seq<char>) -> Seq<Seq<char>>
    decreases s.len(),
    via words_decreases
{
    if s.len() == 0 {
        seq![]
    } else if white_space(s[0]) {
        words(s.drop_first())
    } else {
        seq![s.subrange(0, word_len(s))] + words(s.subrange(word_len(s), s.len() as int))
    }
}

#[via_fn]
proof fn words_decreases(s: Seq<char>) {
    lemma_word_len(s);
}

/// Splits a text at white space.
pub fn split_words(s: &str) -> (pieces: Vec<String>)
    ensures
        pieces@.len() == words(s@).len(),
        forall|i: int| 0 <= i < pieces@.len() ==> (#[trigger] pieces@[i])@ == words(s@)[i],
{
    let chars = chars_of(s);
    let n: usize = chars.len();
    let mut pieces: Vec<String> = Vec::new();
    let mut at: usize = 0;
    assert(s@.subrange(0, n as int) =~= s@);
    while at < n
        invariant
            at <= n,
            n == chars@.len(),
            chars@ == s@,
            pieces@.len() + words(s@.subrange(at as int, n as int)).len() == words(s@).len(),
            forall|i: int| 0 <= i < pieces@.len() ==> (#[trigger] pieces@[i])@ == words(s@)[i],
            forall|i: int|
                0 <= i < words(s@.subrange(at as int, n as int)).len() ==> words(s@)[pieces@.len()
                    + i] == #[trigger] words(s@.subrange(at as int, n as int))[i],
        decreases n - at,
    {
        let ghost rest = s@.subrange(at as int, n as int);
        if is_white_space(chars[at]) {
            assert(rest.drop_first() =~= s@.subrange(at + 1, n as int));
            at += 1;
        } else {
            let from: usize = at;
            proof {
                lemma_word_len(rest);
            }
            while at < n && !is_white_space(chars[at])
                invariant
                    from <= at <= n,
                    n == chars@.len(),
                    chars@ == s@,
                    rest == s@.subrange(from as int, n as int),
                    word_len(rest) == (at - from) + word_len(s@.subrange(at as int, n as int)),
                decreases n - at,
            {
                assert(s@.subrange(at as int, n as int).drop_first() =~= s@.subrange(
                    at + 1,
                    n as int,
                ));
                at += 1;
            }
            let ghost len = word_len(rest);
            assert(len == at - from);
            assert(rest.subrange(0, len) =~= s@.subrange(from as int, at as int));
            assert(rest.subrange(len, rest.len() as int) =~= s@.subrange(at as int, n as int));
            let ghost tail = words(s@.subrange(at as int, n as int));
            assert(words(rest) == seq![rest.subrange(0, len)] + tail);
            let ghost before = pieces@;
            pieces.push(text_of(chars.as_slice(), from, at));
            assert(words(rest)[0] == rest.subrange(0, len));
            assert forall|i: int| 0 <= i < tail.len() implies words(s@)[pieces@.len() + i]
                == #[trigger] tail[i] by {
                assert(words(rest)[i + 1] == tail[i]);
            }
        }
    }
    pieces
}

/// The value of a decimal digit, or `None` for another character.
pub open spec fn digit_value(c: char) -> Option<int> {
    if '0' <= c <= '9' {
        Some(c as u32 - '0' as u32)
    } else {
        None
    }
}

/// Only decimal digits.
pub open spec fn all_digits(s: Seq<char>) -> bool {
    forall|i: int| 0 <= i < s.len() ==> (#[trigger] digit_value(s[i])) is Some
}

/// The number that the digits of `s` stand for.
pub open spec fn digits_value(s: Seq<char>) -> int
    decreases s.len(),
{
    if s.len() == 0 {
        0
    } else {
        digits_value(s.drop_last()) * 10 + digit_value(s.last())->Some_0
    }
}

/// `s` without the plus sign that it may start with.
pub open spec fn without_plus(s: Seq<char>) -> Seq<char> {
    if s.len() > 0 && s[0] == '+' {
        s.drop_first()
    } else {
        s
    }
}

/// The 64-bit number that `s` stands for: digits, at least one, with a plus sign before them or
/// not.
pub open spec fn parsed_u64(s: Seq<char>) -> Option<u64> {
    let digits = without_plus(s);
    if digits.len() > 0 && all_digits(digits) && digits_value(digits) <= u64::MAX {
        Some(digits_value(digits) as u64)
    } else {
        None
    }
}

pub proof fn lemma_digits_value_grows(s: Seq<char>, n: int)
    requires
        all_digits(s),
        0 <= n <= s.len(),
    ensures
        0 <= digits_value(s.subrange(0, n)) <= digits_value(s),
    decreases s.len(),
{
    if n == s.len() {
        assert(s.subrange(0, n) =~= s);
        if n > 0 {
            assert(all_digits(s.drop_last())) by {
                assert forall|i: int| 0 <= i < s.drop_last().len() implies (#[trigger] digit_value(
                    s.drop_last()[i],
                )) is Some by {
                    assert(digit_value(s[i]) is Some);
                }
            }
            assert(digit_value(s[s.len() - 1]) is Some);
            lemma_digits_value_grows(s.drop_last(), n - 1);
        }
    } else {
        let shorter = s.drop_last();
        assert(all_digits(shorter)) by {
            assert forall|i: int| 0 <= i < shorter.len() implies (#[trigger] digit_value(
                shorter[i],
            )) is Some by {
                assert(digit_value(s[i]) is Some);
            }
        }
        assert(digit_value(s[s.len() - 1]) is Some);
        lemma_digits_value_grows(shorter, n);
        assert(shorter.subrange(0, n) =~= s.subrange(0, n));
    }
}

/// Parses a 64-bit number.
pub fn parse_u64(s: &str) -> (number: Option<u64>)
    ensures
        number == parsed_u64(s@),
{
    let chars = chars_of(s);
    let n: usize = chars.len();
    let from: usize = if n > 0 && chars[0] == '+' {
        1
    } else {
        0
    };
    let ghost digits = without_plus(s@);
    assert(digits =~= s@.subrange(from as int, n as int));
    if from == n {
        return None;
    }
    let mut value: u64 = 0;
    let mut i: usize = from;
    assert(digits.subrange(0, 0) =~= seq![]);
    while i < n
        invariant
            from <= i <= n,
            n == chars@.len(),
            chars@ == s@,
            digits == s@.subrange(from as int, n as int),
            digits == without_plus(s@),
            forall|j: int| 0 <= j < i - from ==> (#[trigger] digit_value(digits[j])) is Some,
            value == digits_value(digits.subrange(0, i - from)),
        decreases n - i,
    {
        let c = chars[i];
        assert(digits[i - from] == c);
        if c < '0' || c > '9' {
            assert(digit_value(digits[i - from]) is None);
            return None;
        }
        let d: u64 = (c as u32 - '0' as u32) as u64;
        let ghost shorter = digits.subrange(0, i - from);
        let ghost longer = digits.subrange(0, i - from + 1);
        proof {
            assert(longer.drop_last() =~= shorter);
            assert(digits_value(longer) == value * 10 + d);
            if all_digits(digits) {
                lemma_digits_value_grows(digits, i - from + 1);
            }
        }
        match value.checked_mul(10) {
            Some(tens) => match tens.checked_add(d) {
                Some(sum) => {
                    value = sum;
                },
                None => {
                    return None;
                },
            },
            None => {
                return None;
            },
        }
        i += 1;
    }
    assert(digits.subrange(0, n - from) =~= digits);
    Some(value)
}

/// Calls `std::str::from_utf8`: the text that the bytes encode, or `None` where they are not
/// valid UTF-8.
#[verifier::external_body]
pub(crate) fn utf8_text(bytes: &[u8]) -> (text: Option<String>)
    ensures
        text is Some <==> vstd::utf8::valid_utf8(bytes@),
        text matches Some(t) ==> t@ == vstd::utf8::decode_utf8(bytes@),
{
    std::str::from_utf8(bytes).ok().map(|text| text.to_string())
}

} // verus!
