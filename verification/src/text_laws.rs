//! What the text helpers can be relied on for.
use vstd::prelude::*;

verus! {

/// White space only.
pub open spec fn blank(s: Seq<char>) -> bool {
    forall|i: int| 0 <= i < s.len() ==> crate::text::white_space(#[trigger] s[i])
}

/// No white space.
pub open spec fn solid(s: Seq<char>) -> bool {
    forall|i: int| 0 <= i < s.len() ==> !crate::text::white_space(#[trigger] s[i])
}

/// Among the ASCII characters, tab, line feed, vertical tab, form feed, carriage return and blank
/// are white space, and no others.
pub proof fn law_ascii_white_space(c: char)
    requires
        (c as u32) < 128,
    ensures
        crate::text::white_space(c) <==> c == '\t' || c == '\n' || c as u32 == 11 || c as u32 == 12
            || c == '\r' || c == ' ',
{
}

proof fn lemma_trim_end(s: Seq<char>)
    ensures
        ({
            let kept = crate::text::trim_end(s);
            &&& kept.len() <= s.len()
            &&& s == kept + s.subrange(kept.len() as int, s.len() as int)
            &&& blank(s.subrange(kept.len() as int, s.len() as int))
            &&& kept.len() > 0 ==> !crate::text::white_space(kept.last())
        }),
    decreases s.len(),
{
    let kept = crate::text::trim_end(s);
    if s.len() > 0 && crate::text::white_space(s.last()) {
        let shorter = s.drop_last();
        lemma_trim_end(shorter);
        let n = kept.len() as int;
        assert(s =~= kept + s.subrange(n, s.len() as int)) by {
            assert(shorter =~= s.subrange(0, s.len() - 1));
            assert forall|i: int| 0 <= i < n implies kept[i] == s[i] by {
                assert((kept + shorter.subrange(n, shorter.len() as int))[i] == shorter[i]);
            }
        }
        let tail = s.subrange(n, s.len() as int);
        assert forall|i: int| 0 <= i < tail.len() implies crate::text::white_space(
            #[trigger] tail[i],
        ) by {
            if n + i < s.len() - 1 {
                assert(shorter.subrange(n, shorter.len() as int)[i] == tail[i]);
            }
        }
    } else {
        assert(s =~= kept + s.subrange(s.len() as int, s.len() as int));
    }
}

proof fn lemma_trim_start(s: Seq<char>)
    ensures
        ({
            let kept = crate::text::trim_start(s);
            let cut = s.len() - kept.len();
            &&& 0 <= cut
            &&& s == s.subrange(0, cut) + kept
            &&& blank(s.subrange(0, cut))
            &&& kept.len() > 0 ==> !crate::text::white_space(kept[0])
        }),
    decreases s.len(),
{
    let kept = crate::text::trim_start(s);
    let cut = s.len() - kept.len();
    if s.len() > 0 && crate::text::white_space(s[0]) {
        let shorter = s.drop_first();
        lemma_trim_start(shorter);
        assert(s =~= s.subrange(0, cut) + kept) by {
            assert forall|i: int| 0 <= i < kept.len() implies kept[i] == s[cut + i] by {
                assert((shorter.subrange(0, cut - 1) + kept)[cut - 1 + i] == shorter[cut - 1 + i]);
            }
        }
        let head = s.subrange(0, cut);
        assert forall|i: int| 0 <= i < head.len() implies crate::text::white_space(
            #[trigger] head[i],
        ) by {
            if i > 0 {
                assert(shorter.subrange(0, cut - 1)[i - 1] == head[i]);
            }
        }
    } else {
        assert(s =~= s.subrange(0, 0) + kept);
    }
}

/// Trimming cuts white space off both ends, and nothing else: what it leaves starts and ends with
/// something else, if anything is left.
pub proof fn law_trim_cuts_white_space_only(s: Seq<char>) -> (cut: (Seq<char>, Seq<char>))
    ensures
        s == cut.0 + crate::text::trimmed(s) + cut.1,
        blank(cut.0),
        blank(cut.1),
        crate::text::trimmed(s).len() > 0 ==> !crate::text::white_space(crate::text::trimmed(s)[0])
            && !crate::text::white_space(crate::text::trimmed(s).last()),
{
    let started = crate::text::trim_start(s);
    let kept = crate::text::trimmed(s);
    lemma_trim_start(s);
    lemma_trim_end(started);
    let head = s.subrange(0, s.len() - started.len());
    let tail = started.subrange(kept.len() as int, started.len() as int);
    assert(s =~= head + kept + tail);
    if kept.len() > 0 {
        assert(kept[0] == started[0]);
    }
    (head, tail)
}

/// White space around a text that neither starts nor ends with white space is what trimming takes
/// away.
pub proof fn law_trim_finds_the_text(head: Seq<char>, text: Seq<char>, tail: Seq<char>)
    requires
        blank(head),
        blank(tail),
        text.len() > 0 ==> !crate::text::white_space(text[0]) && !crate::text::white_space(
            text.last(),
        ),
    ensures
        crate::text::trimmed(head + text + tail) == text,
    decreases head.len() + tail.len(),
{
    let s = head + text + tail;
    if head.len() > 0 {
        assert(s[0] == head[0]);
        let rest = head.drop_first();
        assert forall|i: int| 0 <= i < rest.len() implies crate::text::white_space(
            #[trigger] rest[i],
        ) by {
            assert(rest[i] == head[i + 1]);
        }
        law_trim_finds_the_text(rest, text, tail);
        assert(s.drop_first() =~= rest + text + tail);
    } else if text.len() == 0 {
        assert(s =~= tail);
        lemma_blank_trims_to_nothing(tail);
    } else {
        assert(s[0] == text[0]);
        assert(crate::text::trim_start(s) == s);
        lemma_trims_tail(text, tail);
        assert(s =~= text + tail);
    }
}

proof fn lemma_blank_trims_to_nothing(s: Seq<char>)
    requires
        blank(s),
    ensures
        crate::text::trimmed(s) == Seq::<char>::empty(),
    decreases s.len(),
{
    if s.len() > 0 {
        assert(crate::text::white_space(s[0]));
        let rest = s.drop_first();
        assert forall|i: int| 0 <= i < rest.len() implies crate::text::white_space(
            #[trigger] rest[i],
        ) by {
            assert(rest[i] == s[i + 1]);
        }
        lemma_blank_trims_to_nothing(rest);
    } else {
        assert(s =~= seq![]);
    }
}

proof fn lemma_trims_tail(text: Seq<char>, tail: Seq<char>)
    requires
        blank(tail),
        text.len() > 0,
        !crate::text::white_space(text.last()),
    ensures
        crate::text::trim_end(text + tail) == text,
    decreases tail.len(),
{
    let s = text + tail;
    if tail.len() > 0 {
        assert(s.last() == tail[tail.len() - 1]);
        let rest = tail.drop_last();
        assert forall|i: int| 0 <= i < rest.len() implies crate::text::white_space(
            #[trigger] rest[i],
        ) by {
            assert(rest[i] == tail[i]);
        }
        lemma_trims_tail(text, rest);
        assert(s.drop_last() =~= text + rest);
    } else {
        assert(s =~= text);
    }
}

proof fn lemma_word_len_of_solid(w: Seq<char>, rest: Seq<char>)
    requires
        solid(w),
        rest.len() > 0 ==> crate::text::white_space(rest[0]),
    ensures
        crate::text::word_len(w + rest) == w.len(),
    decreases w.len(),
{
    let s = w + rest;
    if w.len() > 0 {
        assert(s[0] == w[0]);
        let shorter = w.drop_first();
        assert forall|i: int| 0 <= i < shorter.len() implies !crate::text::white_space(
            #[trigger] shorter[i],
        ) by {
            assert(shorter[i] == w[i + 1]);
        }
        lemma_word_len_of_solid(shorter, rest);
        assert(s.drop_first() =~= shorter + rest);
    } else if rest.len() > 0 {
        assert(s[0] == rest[0]);
    }
}

/// A text without white space is one word; nothing is none.
pub proof fn law_solid_text_is_one_word(w: Seq<char>)
    requires
        solid(w),
    ensures
        w.len() > 0 ==> crate::text::words(w) == seq![w],
        w.len() == 0 ==> crate::text::words(w) == Seq::<Seq<char>>::empty(),
{
    if w.len() > 0 {
        assert(!crate::text::white_space(w[0]));
        lemma_word_len_of_solid(w, seq![]);
        assert(w + Seq::<char>::empty() =~= w);
        assert(w.subrange(0, w.len() as int) =~= w);
        assert(w.subrange(w.len() as int, w.len() as int) =~= seq![]);
        assert(crate::text::words(seq![]) =~= seq![]);
        assert(crate::text::words(w) =~= seq![w]);
    }
}

/// Two texts with white space between them have the words of the one, followed by those of the
/// other.
pub proof fn law_white_space_separates_words(a: Seq<char>, gap: char, b: Seq<char>)
    requires
        crate::text::white_space(gap),
    ensures
        crate::text::words(a + seq![gap] + b) == crate::text::words(a) + crate::text::words(b),
    decreases a.len(),
{
    let s = a + seq![gap] + b;
    if a.len() == 0 {
        assert(s[0] == gap);
        assert(s.drop_first() =~= b);
        assert(crate::text::words(a) =~= seq![]);
        assert(crate::text::words(a) + crate::text::words(b) =~= crate::text::words(b));
    } else if crate::text::white_space(a[0]) {
        assert(s[0] == a[0]);
        law_white_space_separates_words(a.drop_first(), gap, b);
        assert(s.drop_first() =~= a.drop_first() + seq![gap] + b);
    } else {
        assert(s[0] == a[0]);
        let n = crate::text::word_len(a);
        crate::text::lemma_word_len(a);
        let word = a.subrange(0, n);
        let rest = a.subrange(n, a.len() as int);
        assert forall|i: int| 0 <= i < word.len() implies !crate::text::white_space(
            #[trigger] word[i],
        ) by {
            assert(word[i] == a[i]);
        }
        let behind = rest + seq![gap] + b;
        assert(behind[0] == if n < a.len() {
            a[n]
        } else {
            gap
        });
        lemma_word_len_of_solid(word, behind);
        assert(s =~= word + behind);
        assert(s.subrange(0, n) =~= word);
        assert(s.subrange(n, s.len() as int) =~= behind);
        law_white_space_separates_words(rest, gap, b);
        assert((seq![word] + crate::text::words(rest)) + crate::text::words(b) =~= seq![word] + (
        crate::text::words(rest) + crate::text::words(b)));
    }
}

/// Numbers below 10 are written as the characters from '0' on; a larger number is written as what
/// stands before its last digit, followed by that digit. Different numbers are written differently.
pub proof fn law_decimal_is_positional(n: int)
    requires
        0 <= n,
    ensures
        n < 10 ==> {
            &&& crate::text::decimal(n).len() == 1
            &&& crate::text::decimal(n)[0] as u32 == 0x30 + n
        },
        n >= 10 ==> {
            &&& crate::text::decimal(n).drop_last() == crate::text::decimal(n / 10)
            &&& crate::text::decimal(n).last() as u32 == 0x30 + n % 10
        },
{
    if n >= 10 {
        assert(crate::text::decimal(n).drop_last() =~= crate::text::decimal(n / 10));
    }
}

/// Reading a number back: `parsed_u64` of a number in decimal, with leading zeros or not, is the
/// number.
pub proof fn law_decimal_reads_back(n: u64, width: int)
    requires
        0 <= width,
    ensures
        crate::text::parsed_u64(crate::text::decimal(n as int)) == Some(n),
        crate::text::parsed_u64(crate::text::decimal_padded(n as int, width)) == Some(n),
        crate::text::decimal_padded(n as int, width).len() == if crate::text::decimal(
            n as int,
        ).len() >= width {
            crate::text::decimal(n as int).len() as int
        } else {
            width
        },
{
    let digits = crate::text::decimal(n as int);
    crate::parquet_writer::lemma_decimal_reads_back(n as int);
    assert(crate::text::digit_value(digits[0]) is Some);
    assert(crate::text::without_plus(digits) == digits);
    let k = if digits.len() >= width {
        0nat
    } else {
        (width - digits.len()) as nat
    };
    crate::parquet_writer::lemma_leading_zeros(k, digits);
    let padded = crate::text::decimal_padded(n as int, width);
    assert(padded =~= Seq::new(k, |i: int| '0') + digits);
    assert(crate::text::digit_value(padded[0]) is Some);
    assert(crate::text::without_plus(padded) == padded);
}

/// What a number is read from: at least one character, all of them the digits '0' to '9' but for a
/// plus sign in front; a further digit makes ten times the number and the digit of it.
pub proof fn law_only_digits_are_numbers(s: Seq<char>, d: char)
    ensures
        crate::text::parsed_u64(s) is Some ==> {
            &&& s.len() > 0
            &&& s != seq!['+']
            &&& forall|i: int|
                0 < i < s.len() ==> 0x30 <= #[trigger] s[i] as u32 && s[i] as u32 <= 0x39
            &&& s[0] == '+' || 0x30 <= s[0] as u32 && s[0] as u32 <= 0x39
        },
        crate::text::parsed_u64(s) matches Some(n) ==> 0x30 <= d as u32 && d as u32 <= 0x39 ==> (
        crate::text::parsed_u64(s.push(d)) == if n * 10 + (d as u32 - 0x30) <= u64::MAX {
            Some((n * 10 + (d as u32 - 0x30)) as u64)
        } else {
            None
        }),
{
    if let Some(n) = crate::text::parsed_u64(s) {
        let digits = crate::text::without_plus(s);
        assert forall|i: int| 0 < i < s.len() implies 0x30 <= #[trigger] s[i] as u32 && s[i] as u32
            <= 0x39 by {
            if s[0] == '+' {
                assert(crate::text::digit_value(digits[i - 1]) is Some);
            } else {
                assert(crate::text::digit_value(digits[i]) is Some);
            }
        }
        if s[0] != '+' {
            assert(crate::text::digit_value(digits[0]) is Some);
        }
        if s =~= seq!['+'] {
            assert(digits.len() == 0);
        }
        if 0x30 <= d as u32 && d as u32 <= 0x39 {
            let longer = crate::text::without_plus(s.push(d));
            assert(longer =~= digits.push(d));
            assert(longer.drop_last() =~= digits);
            crate::text::lemma_digits_value_grows(digits, 0);
            assert(crate::text::digit_value(d) == Some(d as u32 - 0x30));
            assert forall|i: int| 0 <= i < longer.len() implies (#[trigger] crate::text::digit_value(
                longer[i],
            )) is Some by {
                if i < digits.len() {
                    assert(crate::text::digit_value(digits[i]) is Some);
                }
            }
        }
    }
}

} // verus!
