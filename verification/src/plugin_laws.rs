//! What the commands of the plugin come to, told by the texts that they hold.
use crate::plugin::{FilterCommand, KeySelection, ShmPlugin};
use vstd::prelude::*;

verus! {

/// Each character of `word` is the one of `capitals` or its small letter.
pub open spec fn spells(word: Seq<char>, capitals: Seq<char>) -> bool {
    &&& word.len() == capitals.len()
    &&& forall|i: int|
        0 <= i < word.len() ==> (#[trigger] word[i]) == capitals[i] || word[i] as u32
            == capitals[i] as u32 + 0x20
}

/// A star, or one of the words "clear" and "reset" in any mixture of cases, is that command,
/// whatever white space stands around it.
pub proof fn law_command_words(head: Seq<char>, word: Seq<char>, tail: Seq<char>)
    requires
        crate::text_laws::blank(head),
        crate::text_laws::blank(tail),
    ensures
        word == seq!['*'] ==> crate::plugin::command_in(head + word + tail)
            == FilterCommand::WriteAll,
        spells(word, seq!['C', 'L', 'E', 'A', 'R']) ==> crate::plugin::command_in(
            head + word + tail,
        ) == FilterCommand::Clear,
        spells(word, seq!['R', 'E', 'S', 'E', 'T']) ==> crate::plugin::command_in(
            head + word + tail,
        ) == FilterCommand::Reset,
{
    reveal_strlit("*");
    reveal_strlit("CLEAR");
    reveal_strlit("RESET");
    let body = head + word + tail;
    let clear = seq!['C', 'L', 'E', 'A', 'R'];
    let reset = seq!['R', 'E', 'S', 'E', 'T'];
    assert("*"@ =~= seq!['*']);
    assert("CLEAR"@ =~= clear);
    assert("RESET"@ =~= reset);
    if word == seq!['*'] {
        assert(word[0] == '*');
        crate::text_laws::law_trim_finds_the_text(head, word, tail);
    }
    if spells(word, clear) {
        assert(word[0] == clear[0] || word[0] as u32 == clear[0] as u32 + 0x20);
        assert(word[4] == clear[4] || word[4] as u32 == clear[4] as u32 + 0x20);
        crate::text_laws::law_trim_finds_the_text(head, word, tail);
        assert forall|i: int| 0 <= i < 5 implies #[trigger] crate::plugin::ascii_lower(word[i])
            == crate::plugin::ascii_lower(clear[i]) by {
            assert(word[i] == clear[i] || word[i] as u32 == clear[i] as u32 + 0x20);
        }
        assert(crate::plugin::same_but_case(word, clear));
    }
    if spells(word, reset) {
        assert(word[0] == reset[0] || word[0] as u32 == reset[0] as u32 + 0x20);
        assert(word[4] == reset[4] || word[4] as u32 == reset[4] as u32 + 0x20);
        crate::text_laws::law_trim_finds_the_text(head, word, tail);
        assert forall|i: int| 0 <= i < 5 implies #[trigger] crate::plugin::ascii_lower(word[i])
            == crate::plugin::ascii_lower(reset[i]) by {
            assert(word[i] == reset[i] || word[i] as u32 == reset[i] as u32 + 0x20);
        }
        assert(crate::plugin::same_but_case(word, reset));
        if crate::plugin::same_but_case(word, clear) {
            assert(crate::plugin::ascii_lower(word[0]) == crate::plugin::ascii_lower(clear[0]));
        }
    }
}

proof fn lemma_letter(c: char, capital: char)
    requires
        crate::plugin::ascii_lower(c) == crate::plugin::ascii_lower(capital),
        0x41 <= capital as u32 && capital as u32 <= 0x5a,
    ensures
        c == capital || c as u32 == capital as u32 + 0x20,
{
}

/// Every other body is a list of keys: a JSON array where its first character that is no white
/// space is a bracket, words between white space otherwise.
pub proof fn law_other_bodies_are_lists(head: Seq<char>, text: Seq<char>, tail: Seq<char>)
    requires
        crate::text_laws::blank(head),
        crate::text_laws::blank(tail),
        text.len() > 0 ==> !crate::text::white_space(text[0]) && !crate::text::white_space(
            text.last(),
        ),
        text != seq!['*'],
        !spells(text, seq!['C', 'L', 'E', 'A', 'R']),
        !spells(text, seq!['R', 'E', 'S', 'E', 'T']),
    ensures
        crate::plugin::command_in(head + text + tail) == if text.len() > 0 && text[0] == '[' {
            FilterCommand::AddJson
        } else {
            FilterCommand::AddList
        },
{
    reveal_strlit("*");
    reveal_strlit("CLEAR");
    reveal_strlit("RESET");
    let clear = seq!['C', 'L', 'E', 'A', 'R'];
    let reset = seq!['R', 'E', 'S', 'E', 'T'];
    assert("*"@ =~= seq!['*']);
    assert("CLEAR"@ =~= clear);
    assert("RESET"@ =~= reset);
    crate::text_laws::law_trim_finds_the_text(head, text, tail);
    if crate::plugin::same_but_case(text, clear) {
        assert forall|i: int| 0 <= i < 5 implies (#[trigger] text[i]) == clear[i] || text[i] as u32
            == clear[i] as u32 + 0x20 by {
            assert(crate::plugin::ascii_lower(text[i]) == crate::plugin::ascii_lower(clear[i]));
            assert(i == 0 || i == 1 || i == 2 || i == 3 || i == 4);
            assert(0x41 <= clear[i] as u32 && clear[i] as u32 <= 0x5a);
            lemma_letter(text[i], clear[i]);
        }
        assert(spells(text, clear));
    }
    if crate::plugin::same_but_case(text, reset) {
        assert forall|i: int| 0 <= i < 5 implies (#[trigger] text[i]) == reset[i] || text[i] as u32
            == reset[i] as u32 + 0x20 by {
            assert(crate::plugin::ascii_lower(text[i]) == crate::plugin::ascii_lower(reset[i]));
            assert(i == 0 || i == 1 || i == 2 || i == 3 || i == 4);
            assert(0x41 <= reset[i] as u32 && reset[i] as u32 <= 0x5a);
            lemma_letter(text[i], reset[i]);
        }
        assert(spells(text, reset));
    }
}

/// The texts that a list command holds: the strings of a JSON array, or the words of the body.
pub open spec fn holds_texts(body: Seq<char>, texts: Seq<Seq<char>>) -> bool {
    ||| crate::plugin::command_in(body) == FilterCommand::AddJson && crate::key_filter::json_strings(
        body,
    ) == Ok::<Seq<Seq<char>>, Seq<char>>(texts)
    ||| crate::plugin::command_in(body) == FilterCommand::AddList && texts == crate::text::words(
        body,
    )
}

/// The text at `i` stands for a key, and no text before it fails to.
pub open spec fn names_key(texts: Seq<Seq<char>>, i: int, key: Seq<u8>) -> bool {
    &&& 0 <= i < texts.len()
    &&& texts[i].len() > 0
    &&& crate::key_filter::parsed_key(texts[i]) == Ok::<Seq<u8>, Seq<char>>(key)
    &&& forall|j: int|
        0 <= j < i && (#[trigger] texts[j]).len() > 0 ==> crate::key_filter::parsed_key(
            texts[j],
        ) is Ok
}

/// The text at `i` is the first one that is neither empty nor a key.
pub open spec fn fails_first(texts: Seq<Seq<char>>, i: int) -> bool {
    &&& 0 <= i < texts.len()
    &&& texts[i].len() > 0
    &&& crate::key_filter::parsed_key(texts[i]) is Err
    &&& forall|j: int|
        0 <= j < i && (#[trigger] texts[j]).len() > 0 ==> crate::key_filter::parsed_key(
            texts[j],
        ) is Ok
}

/// Every text is empty or a key.
pub open spec fn none_fails(texts: Seq<Seq<char>>) -> bool {
    forall|j: int|
        0 <= j < texts.len() && (#[trigger] texts[j]).len() > 0 ==> crate::key_filter::parsed_key(
            texts[j],
        ) is Ok
}

/// How many texts are not empty.
pub open spec fn filled(texts: Seq<Seq<char>>) -> nat
    decreases texts.len(),
{
    if texts.len() == 0 {
        0
    } else {
        filled(texts.drop_first()) + if texts[0].len() > 0 {
            1nat
        } else {
            0
        }
    }
}

proof fn lemma_named_is_added(texts: Seq<Seq<char>>, i: int, key: Seq<u8>)
    requires
        names_key(texts, i, key),
    ensures
        crate::plugin::keys_added(texts).keys.contains(key),
    decreases texts.len(),
{
    let added = crate::plugin::keys_added(texts);
    let rest = texts.drop_first();
    let later = crate::plugin::keys_added(rest);
    if i == 0 {
        assert(added.keys[0] == key);
    } else {
        assert(rest[i - 1] == texts[i]);
        assert forall|j: int| 0 <= j < i - 1 && (#[trigger] rest[j]).len() > 0 implies
            crate::key_filter::parsed_key(rest[j]) is Ok by {
            assert(rest[j] == texts[j + 1]);
        }
        lemma_named_is_added(rest, i - 1, key);
        let k = choose|k: int| 0 <= k < later.keys.len() && later.keys[k] == key;
        if texts[0].len() > 0 {
            assert(crate::key_filter::parsed_key(texts[0]) is Ok);
            assert(added.keys[k + 1] == key);
        }
    }
}

proof fn lemma_added_is_named(texts: Seq<Seq<char>>, k: int) -> (i: int)
    requires
        0 <= k < crate::plugin::keys_added(texts).keys.len(),
    ensures
        names_key(texts, i, crate::plugin::keys_added(texts).keys[k]),
    decreases texts.len(),
{
    let added = crate::plugin::keys_added(texts);
    let rest = texts.drop_first();
    if texts[0].len() == 0 {
        let i = lemma_added_is_named(rest, k);
        assert(rest[i] == texts[i + 1]);
        assert forall|j: int| 0 <= j < i + 1 && (#[trigger] texts[j]).len() > 0 implies
            crate::key_filter::parsed_key(texts[j]) is Ok by {
            assert(rest[j - 1] == texts[j]);
        }
        i + 1
    } else if k == 0 {
        0
    } else {
        let i = lemma_added_is_named(rest, k - 1);
        assert(rest[i] == texts[i + 1]);
        assert forall|j: int| 0 <= j < i + 1 && (#[trigger] texts[j]).len() > 0 implies
            crate::key_filter::parsed_key(texts[j]) is Ok by {
            if j > 0 {
                assert(rest[j - 1] == texts[j]);
            }
        }
        i + 1
    }
}

proof fn lemma_count_and_refusal(texts: Seq<Seq<char>>, i: int)
    ensures
        none_fails(texts) ==> {
            &&& crate::plugin::keys_added(texts).refused is None
            &&& crate::plugin::keys_added(texts).keys.len() == filled(texts)
        },
        fails_first(texts, i) ==> crate::plugin::keys_added(texts).refused == Some(
            (texts[i], crate::key_filter::parsed_key(texts[i])->Err_0),
        ),
    decreases texts.len(),
{
    if texts.len() > 0 {
        let rest = texts.drop_first();
        lemma_count_and_refusal(rest, i - 1);
        if none_fails(texts) {
            assert forall|j: int| 0 <= j < rest.len() && (#[trigger] rest[j]).len() > 0 implies
                crate::key_filter::parsed_key(rest[j]) is Ok by {
                assert(rest[j] == texts[j + 1]);
            }
            if texts[0].len() > 0 {
                assert(crate::key_filter::parsed_key(texts[0]) is Ok);
            }
        }
        if fails_first(texts, i) && i > 0 {
            assert(rest[i - 1] == texts[i]);
            assert forall|j: int| 0 <= j < i - 1 && (#[trigger] rest[j]).len() > 0 implies
                crate::key_filter::parsed_key(rest[j]) is Ok by {
                assert(rest[j] == texts[j + 1]);
            }
            if texts[0].len() > 0 {
                assert(crate::key_filter::parsed_key(texts[0]) is Ok);
            }
        }
    }
}

proof fn lemma_bits_come_from_keys(needed: Map<Seq<u8>, Set<int>>, keys: Seq<Seq<u8>>, bit: int) -> (k:
    int)
    requires
        crate::plugin::bits_of(needed, keys).contains(bit),
    ensures
        0 <= k < keys.len(),
        needed[keys[k]].contains(bit),
    decreases keys.len(),
{
    if needed[keys.last()].contains(bit) {
        keys.len() - 1
    } else {
        let k = lemma_bits_come_from_keys(needed, keys.drop_last(), bit);
        assert(keys.drop_last()[k] == keys[k]);
        k
    }
}

/// Every key that a list names before any text that is no key is let through once the list was
/// added, on top of the keys that were let through by the filter before.
pub proof fn law_each_named_key_is_let_through(
    before: KeySelection,
    after: KeySelection,
    body: Seq<char>,
    reply: Option<Seq<char>>,
    texts: Seq<Seq<char>>,
    i: int,
    key: Seq<u8>,
    other: Seq<u8>,
)
    ensures
        crate::plugin::replied(before, after, body, reply) && holds_texts(body, texts) && names_key(
            texts,
            i,
            key,
        ) && key.len() == 32 ==> after.lets_through(key),
        crate::plugin::replied(before, after, body, reply) && holds_texts(body, texts)
            && crate::key_filter::passes(before.filter).contains(other) ==> after.lets_through(
            other,
        ),
{
    if crate::plugin::replied(before, after, body, reply) && holds_texts(body, texts) {
        let keys = crate::plugin::keys_added(texts).keys;
        assert(crate::plugin::key_texts(body) == Ok::<Seq<Seq<char>>, Seq<char>>(texts));
        if names_key(texts, i, key) {
            lemma_named_is_added(texts, i, key);
            let k = choose|k: int| 0 <= k < keys.len() && keys[k] == key;
            crate::plugin::lemma_bits_hold_each(
                crate::key_filter::needed_bits(before.filter),
                keys,
                k,
            );
        }
    }
}

/// A list sets only bits that one of the keys needs that it names before any text that is no key;
/// without such a key it sets none.
pub proof fn law_only_named_keys_set_bits(
    before: KeySelection,
    after: KeySelection,
    body: Seq<char>,
    reply: Option<Seq<char>>,
    texts: Seq<Seq<char>>,
    bit: int,
)
    ensures
        crate::plugin::replied(before, after, body, reply) && holds_texts(body, texts) ==> {
            &&& crate::key_filter::needed_bits(after.filter) == crate::key_filter::needed_bits(
                before.filter,
            )
            &&& crate::key_filter::filter_bits(after.filter).contains(bit) ==> {
                ||| crate::key_filter::filter_bits(before.filter).contains(bit)
                ||| exists|i: int, key: Seq<u8>| #[trigger]
                    names_key(texts, i, key) && crate::key_filter::needed_bits(
                        before.filter,
                    )[key].contains(bit)
            }
        },
{
    if crate::plugin::replied(before, after, body, reply) && holds_texts(body, texts) {
        let needed = crate::key_filter::needed_bits(before.filter);
        let keys = crate::plugin::keys_added(texts).keys;
        assert(crate::plugin::key_texts(body) == Ok::<Seq<Seq<char>>, Seq<char>>(texts));
        if crate::key_filter::filter_bits(after.filter).contains(bit)
            && !crate::key_filter::filter_bits(before.filter).contains(bit) {
            let k = lemma_bits_come_from_keys(needed, keys, bit);
            let i = lemma_added_is_named(texts, k);
            assert(names_key(texts, i, keys[k]) && needed[keys[k]].contains(bit));
        }
    }
}

/// How a list is answered: with the number of its texts that are not empty where each of them is a
/// key, and otherwise with the first one that is none and the reason. Either way not every key is
/// let through any more.
pub proof fn law_list_is_answered_by_its_texts(
    before: KeySelection,
    after: KeySelection,
    body: Seq<char>,
    reply: Option<Seq<char>>,
    texts: Seq<Seq<char>>,
    i: int,
)
    ensures
        crate::plugin::replied(before, after, body, reply) && holds_texts(body, texts) ==> {
            &&& !after.write_all
            &&& none_fails(texts) ==> reply == Some(
                "OK ADDED "@ + crate::text::decimal(filled(texts) as int) + "\n"@,
            )
            &&& fails_first(texts, i) ==> reply == Some(
                "ERR "@ + ("bad pubkey '"@ + texts[i] + "': "@ + crate::key_filter::parsed_key(
                    texts[i],
                )->Err_0) + "\n"@,
            )
        },
{
    if holds_texts(body, texts) {
        assert(crate::plugin::key_texts(body) == Ok::<Seq<Seq<char>>, Seq<char>>(texts));
        lemma_count_and_refusal(texts, i);
    }
}

/// A body that starts with a bracket and is no JSON array of strings adds nothing and is answered
/// with the reason.
pub proof fn law_bad_array_adds_nothing(
    before: KeySelection,
    after: KeySelection,
    body: Seq<char>,
    reply: Option<Seq<char>>,
)
    ensures
        crate::plugin::replied(before, after, body, reply) && crate::plugin::command_in(body)
            == FilterCommand::AddJson ==> (crate::key_filter::json_strings(body) matches Err(reason)
            ==> {
            &&& after.filter == before.filter
            &&& !after.write_all
            &&& reply == Some("ERR "@ + ("invalid JSON array: "@ + reason) + "\n"@)
        }),
{
}

/// A star lets every key through; clearing lets none through by the filter and changes nothing else;
/// a reset is left to the owner of the ring.
pub proof fn law_words_do_what_they_say(
    before: KeySelection,
    after: KeySelection,
    body: Seq<char>,
    reply: Option<Seq<char>>,
    key: Seq<u8>,
)
    ensures
        crate::plugin::replied(before, after, body, reply) ==> {
            &&& crate::plugin::command_in(body) == FilterCommand::WriteAll ==> {
                &&& after.lets_through(key)
                &&& after.filter == before.filter
                &&& reply == Some("OK ALL (writing all account updates)\n"@)
            }
            &&& crate::plugin::command_in(body) == FilterCommand::Clear ==> {
                &&& after.write_all == before.write_all
                &&& after.lets_through(key) <==> before.write_all
                &&& reply == Some("OK CLEARED\n"@)
            }
            &&& crate::plugin::command_in(body) == FilterCommand::Reset ==> {
                &&& after == before
                &&& reply is None
            }
        },
{
}

/// A key is let through exactly where every key is, or where all bits that it needs are set.
pub proof fn law_key_needs_its_bits(selection: KeySelection, key: Seq<u8>)
    requires
        key.len() == 32,
    ensures
        selection.lets_through(key) <==> selection.write_all || forall|bit: int|
            crate::key_filter::needed_bits(selection.filter)[key].contains(bit)
                ==> #[trigger] crate::key_filter::filter_bits(selection.filter).contains(bit),
{
    let needed = crate::key_filter::needed_bits(selection.filter)[key];
    let set = crate::key_filter::filter_bits(selection.filter);
    assert(needed.subset_of(set) <==> forall|bit: int|
        needed.contains(bit) ==> #[trigger] set.contains(bit));
}

/// A reset that succeeded empties the filter; one that failed leaves everything as it was and is
/// answered with the reason.
pub proof fn law_reset_is_answered_by_its_outcome(
    before: KeySelection,
    after: KeySelection,
    outcome: Result<(), String>,
    answer: Seq<char>,
    key: Seq<u8>,
)
    requires
        crate::plugin::reset_answered(before, after, outcome, answer),
    ensures
        after.write_all == before.write_all,
        outcome is Ok ==> {
            &&& !crate::key_filter::passes(after.filter).contains(key)
            &&& answer == "OK RESET (SHM queue and Filter reinitialized)\n"@
        },
        outcome matches Err(reason) ==> {
            &&& after == before
            &&& answer == "ERR Failed to reset: "@ + reason@ + "\n"@
        },
{
}

/// A command to the plugin acts on the selection as it does on its own, and leaves the ring alone
/// unless it is a reset; a reset whose name is valid leaves an empty ring of the plugin's capacity.
pub proof fn law_plugin_follows_commands(
    before: ShmPlugin,
    after: ShmPlugin,
    body: Seq<char>,
    answer: Seq<char>,
)
    ensures
        crate::plugin::answered(before, after, body, answer) ==> {
            let name = crate::shm_segment::with_slash(before.shm_path@);
            &&& after.shm_path == before.shm_path
            &&& after.shm_capacity == before.shm_capacity
            &&& crate::plugin::command_in(body) != FilterCommand::Reset ==> {
                &&& after.ring == before.ring
                &&& crate::plugin::replied(before.selection, after.selection, body, Some(answer))
            }
            &&& crate::plugin::command_in(body) == FilterCommand::Reset
                && crate::shm_segment::valid_shm_name(name) ==> {
                &&& after.ring.alloc_off == 0
                &&& after.ring.capacity == before.shm_capacity
                &&& forall|i: int|
                    0 <= i < after.ring.buf@.len() ==> #[trigger] after.ring.buf@[i] == 0
                &&& crate::key_filter::passes(after.selection.filter) == Set::<Seq<u8>>::empty()
                &&& answer == "OK RESET (SHM queue and Filter reinitialized)\n"@
            }
            &&& crate::plugin::command_in(body) == FilterCommand::Reset
                && !crate::shm_segment::valid_shm_name(name) ==> {
                &&& after.ring == before.ring
                &&& after.selection.filter == before.selection.filter
                &&& answer == "ERR Failed to reset: "@ + ("Failed to unlink old SHM: "@ + (
                "invalid shm name: "@ + name)) + "\n"@
            }
            &&& crate::plugin::command_in(body) == FilterCommand::Reset
                ==> after.selection.write_all == before.selection.write_all
        },
{
}

/// An update is written exactly where its key is let through: by a star, or by the filter. One that is
/// not leaves the ring alone. One that is, and whose record fits the ring, is pushed as it is; whether
/// other keys are let through makes no difference, and stays as it was.
pub proof fn law_updates_that_pass_are_written(
    before: ShmPlugin,
    after: ShmPlugin,
    rec: crate::shm::Record,
    written: bool,
    other: Seq<u8>,
)
    requires
        crate::plugin::update_written(before, after, rec, written),
        0 < before.writer.cap,
    ensures
        written <==> before.selection.write_all || crate::key_filter::passes(
            before.selection.filter,
        ).contains(rec.pubkey),
        !written ==> after.ring == before.ring,
        written && crate::shm::record_need(rec.data.len() as int) <= before.writer.cap
            && crate::shm::record_need(rec.data.len() as int) <= u32::MAX ==> {
            let cap = before.writer.cap as int;
            let cur = before.ring.alloc_off as int;
            &&& after.ring.buf@ == crate::shm::ring_after_push(before.ring.buf@, cap, cur, rec)
            &&& after.ring.alloc_off > before.ring.alloc_off
        },
        after.lets_through(other) == before.lets_through(other),
{
    let need = crate::shm::record_need(rec.data.len() as int);
    let cap = before.writer.cap as int;
    if written && need <= cap {
        crate::shm_layout_laws::law_record_place(before.ring.alloc_off as int, need, cap);
    }
}

} // verus!
