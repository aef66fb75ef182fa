//! Writes account updates that pass a key filter into a ring, and takes commands that change the
//! filter.
//!
//! A command is the whole body of one connection: `*` lets every key through, `CLEAR` empties the
//! filter, `RESET` also starts a new ring, and anything else is a list of keys to add, as a JSON
//! array of strings or separated by white space.
use crate::key_filter::{
    decode_lossy, filter_clear, filter_contains, filter_insert, parse_json_strings, parse_key,
};
use crate::shm::{ShmError, ShmIoErrorKind, ShmRing, ShmWriter, HEADER_SIZE, PAGE_SIZE};
use crate::shm_segment::normalized_shm_name;
use crate::text::{chars_of, owned, push_decimal, same_text, split_words, trim};
use fastbloom::AtomicBloomFilter;
use gxhash::GxBuildHasher;
use vstd::prelude::*;
use vstd::string::StringExecFns;

verus! {

/// Number of keys that the filter is made for.
pub const FILTER_EXPECTED_ITEMS: usize = 20000;

/// Capacity of the plugin's ring: 512 MiB.
pub const SHM_CAPACITY_DEFAULT: usize = 0x2000_0000;

/// Local port at which the plugin takes commands.
pub const FILTER_SERVER_PORT: u16 = 5681;

/// Name of the plugin's ring.
pub fn default_shm_path() -> (path: &'static str)
    ensures
        path@ == "/moufang_accounts"@,
{
    "/moufang_accounts"
}

/// What a command asks for.
#[derive(Debug, Clone, Copy, PartialEq, Eq, Structural)]
pub enum FilterCommand {
    /// Let every key through.
    WriteAll,
    /// Empty the filter.
    Clear,
    /// Empty the filter and start a new ring.
    Reset,
    /// Add the keys of a JSON array.
    AddJson,
    /// Add the keys of a list.
    AddList,
}

/// A letter A to Z as a small letter, another character as it is.
pub open spec fn ascii_lower(c: char) -> int {
    let u = c as u32;
    if 0x41 <= u <= 0x5a {
        u + 0x20
    } else {
        u as int
    }
}

/// Equal but for the case of ASCII letters.
pub open spec fn same_but_case(a: Seq<char>, b: Seq<char>) -> bool {
    &&& a.len() == b.len()
    &&& forall|i: int| 0 <= i < a.len() ==> #[trigger] ascii_lower(a[i]) == ascii_lower(b[i])
}

fn lower(c: char) -> (u: u32)
    ensures
        u == ascii_lower(c),
{
    let u: u32 = c as u32;
    if 0x41 <= u && u <= 0x5a {
        u + 0x20
    } else {
        u
    }
}

/// Whether two texts are equal but for the case of ASCII letters.
pub fn equals_ignoring_case(a: &str, b: &str) -> (same: bool)
    ensures
        same == same_but_case(a@, b@),
{
    let x = chars_of(a);
    let y = chars_of(b);
    if x.len() != y.len() {
        return false;
    }
    let mut i: usize = 0;
    while i < x.len()
        invariant
            i <= x@.len(),
            x@ == a@,
            y@ == b@,
            x@.len() == y@.len(),
            forall|j: int| 0 <= j < i ==> #[trigger] ascii_lower(a@[j]) == ascii_lower(b@[j]),
        decreases x@.len() - i,
    {
        if lower(x[i]) != lower(y[i]) {
            assert(ascii_lower(a@[i as int]) != ascii_lower(b@[i as int]));
            return false;
        }
        i += 1;
    }
    true
}

/// The command that a body holds.
pub open spec fn command_in(body: Seq<char>) -> FilterCommand {
    let text = crate::text::trimmed(body);
    if text == "*"@ {
        FilterCommand::WriteAll
    } else if same_but_case(text, "CLEAR"@) {
        FilterCommand::Clear
    } else if same_but_case(text, "RESET"@) {
        FilterCommand::Reset
    } else if text.len() > 0 && text[0] == '[' {
        FilterCommand::AddJson
    } else {
        FilterCommand::AddList
    }
}

/// Finds out which command a body holds.
pub fn parse_command(body: &str) -> (command: FilterCommand)
    ensures
        command == command_in(body@),
{
    let text = trim(body);
    if same_text(text.as_str(), "*") {
        return FilterCommand::WriteAll;
    }
    if equals_ignoring_case(text.as_str(), "CLEAR") {
        return FilterCommand::Clear;
    }
    if equals_ignoring_case(text.as_str(), "RESET") {
        return FilterCommand::Reset;
    }
    let chars = chars_of(text.as_str());
    if chars.len() > 0 && chars[0] == '[' {
        FilterCommand::AddJson
    } else {
        FilterCommand::AddList
    }
}

/// What adding keys by their texts comes to.
#[verifier::ext_equal]
pub struct KeysAdded {
    /// The keys, in order, up to the first text that is no key.
    pub keys: Seq<Seq<u8>>,
    /// That text, and the reason why it is no key.
    pub refused: Option<(Seq<char>, Seq<char>)>,
}

/// Adding the keys that `texts` stand for; empty texts are skipped, and the first one that is no
/// key ends the addition.
pub open spec fn keys_added(texts: Seq<Seq<char>>) -> KeysAdded
    decreases texts.len(),
{
    if texts.len() == 0 {
        KeysAdded { keys: seq![], refused: None }
    } else if texts[0].len() == 0 {
        keys_added(texts.drop_first())
    } else {
        match crate::key_filter::parsed_key(texts[0]) {
            Ok(key) => {
                let rest = keys_added(texts.drop_first());
                KeysAdded { keys: seq![key] + rest.keys, refused: rest.refused }
            },
            Err(reason) => KeysAdded { keys: seq![], refused: Some((texts[0], reason)) },
        }
    }
}

/// The bits that some keys need together.
pub open spec fn bits_of(needed: Map<Seq<u8>, Set<int>>, keys: Seq<Seq<u8>>) -> Set<int>
    decreases keys.len(),
{
    if keys.len() == 0 {
        Set::empty()
    } else {
        bits_of(needed, keys.drop_last()).union(needed[keys.last()])
    }
}

/// The filter after the keys were added: their bits are set on top of the earlier ones, and no
/// others.
pub open spec fn filter_grown(
    before: AtomicBloomFilter<GxBuildHasher>,
    after: AtomicBloomFilter<GxBuildHasher>,
    keys: Seq<Seq<u8>>,
) -> bool {
    &&& crate::key_filter::needed_bits(after) == crate::key_filter::needed_bits(before)
    &&& crate::key_filter::filter_bits(after) == crate::key_filter::filter_bits(before).union(
        bits_of(crate::key_filter::needed_bits(before), keys),
    )
}

/// The filter after it was emptied: no bit is set, and no key is let through.
pub open spec fn filter_emptied(
    before: AtomicBloomFilter<GxBuildHasher>,
    after: AtomicBloomFilter<GxBuildHasher>,
) -> bool {
    &&& crate::key_filter::needed_bits(after) == crate::key_filter::needed_bits(before)
    &&& crate::key_filter::filter_bits(after) == Set::<int>::empty()
    &&& crate::key_filter::passes(after) == Set::<Seq<u8>>::empty()
}

/// Empties the filter.
fn empty_filter(filter: &mut AtomicBloomFilter<GxBuildHasher>)
    ensures
        filter_emptied(*old(filter), *final(filter)),
{
    filter_clear(filter);
    proof {
        let needed = crate::key_filter::needed_bits(*filter);
        let passing = crate::key_filter::passes(*filter);
        assert forall|key: Seq<u8>| !passing.contains(key) by {
            if key.len() == 32 {
                assert(needed[key] != Set::<int>::empty());
                if needed[key].subset_of(Set::<int>::empty()) {
                    assert(needed[key] =~= Set::<int>::empty());
                }
            }
        }
        assert(passing =~= Set::<Seq<u8>>::empty());
    }
}

/// The error for a text that is no key.
pub open spec fn bad_key_text(text: Seq<char>, reason: Seq<char>) -> Seq<char> {
    "bad pubkey '"@ + text + "': "@ + reason
}

/// Adds the keys that `texts` stand for to the filter: their number, or the error for the first
/// text that is no key.
pub fn parse_keys(texts: &Vec<String>, filter: &mut AtomicBloomFilter<GxBuildHasher>) -> (outcome:
    Result<usize, String>)
    ensures
        ({
            let added = keys_added(crate::key_filter::string_views(texts@));
            &&& filter_grown(*old(filter), *final(filter), added.keys)
            &&& match added.refused {
                Some((text, reason)) => {
                    &&& outcome matches Err(e)
                    &&& e@ == bad_key_text(text, reason)
                },
                None => outcome matches Ok(count) && count == added.keys.len(),
            }
        }),
{
    let ghost views = crate::key_filter::string_views(texts@);
    let ghost before = *filter;
    let ghost all = keys_added(views);
    let ghost mut done: Seq<Seq<u8>> = seq![];
    let n: usize = texts.len();
    let mut count: usize = 0;
    let mut i: usize = 0;
    proof {
        assert(views.subrange(0, n as int) =~= views);
        assert(done + all.keys =~= all.keys);
        let bits = crate::key_filter::filter_bits(before);
        assert(bits.union(Set::<int>::empty()) =~= bits);
    }
    while i < n
        invariant
            i <= n,
            n == texts@.len(),
            views == crate::key_filter::string_views(texts@),
            all == keys_added(views),
            all.keys == done + keys_added(views.subrange(i as int, n as int)).keys,
            all.refused == keys_added(views.subrange(i as int, n as int)).refused,
            before == *old(filter),
            count == done.len(),
            count <= i,
            filter_grown(before, *filter, done),
        decreases n - i,
    {
        let ghost rest = views.subrange(i as int, n as int);
        proof {
            assert(rest[0] == texts@[i as int]@);
            assert(rest.drop_first() =~= views.subrange(i + 1, n as int));
        }
        let text: &str = texts[i].as_str();
        let chars = chars_of(text);
        if chars.len() > 0 {
            match parse_key(text) {
                Ok(key) => {
                    filter_insert(filter, &key);
                    count += 1;
                    proof {
                        let later = keys_added(rest.drop_first());
                        assert(keys_added(rest).keys =~= seq![key@] + later.keys);
                        assert(done + (seq![key@] + later.keys) =~= done.push(key@) + later.keys);
                        assert(done.push(key@).drop_last() =~= done);
                        let needed = crate::key_filter::needed_bits(before);
                        let bits = crate::key_filter::filter_bits(before);
                        assert(bits.union(bits_of(needed, done)).union(needed[key@])
                            =~= bits.union(bits_of(needed, done.push(key@))));
                        done = done.push(key@);
                    }
                },
                Err(reason) => {
                    let mut e = owned("bad pubkey '");
                    e.append(text);
                    e.append("': ");
                    e.append(reason.as_str());
                    proof {
                        assert(keys_added(rest).keys =~= seq![]);
                        assert(all.keys =~= done);
                    }
                    return Err(e);
                },
            }
        }
        i += 1;
    }
    proof {
        assert(views.subrange(n as int, n as int) =~= seq![]);
        assert(all.keys =~= done);
    }
    Ok(count)
}

/// The texts of the keys that a body names, or the error for a body that is no JSON array.
pub open spec fn key_texts(body: Seq<char>) -> Result<Seq<Seq<char>>, Seq<char>> {
    if command_in(body) == FilterCommand::AddJson {
        match crate::key_filter::json_strings(body) {
            Ok(texts) => Ok(texts),
            Err(reason) => Err("invalid JSON array: "@ + reason),
        }
    } else {
        Ok(crate::text::words(body))
    }
}

/// Adds the keys of a JSON array of strings.
pub fn parse_json_array(body: &str, filter: &mut AtomicBloomFilter<GxBuildHasher>) -> (outcome:
    Result<usize, String>)
    ensures
        match crate::key_filter::json_strings(body@) {
            Ok(texts) => {
                let added = keys_added(texts);
                &&& filter_grown(*old(filter), *final(filter), added.keys)
                &&& match added.refused {
                    Some((text, reason)) => {
                        &&& outcome matches Err(e)
                        &&& e@ == bad_key_text(text, reason)
                    },
                    None => outcome matches Ok(count) && count == added.keys.len(),
                }
            },
            Err(reason) => {
                &&& *final(filter) == *old(filter)
                &&& outcome matches Err(e)
                &&& e@ == "invalid JSON array: "@ + reason
            },
        },
{
    match parse_json_strings(body) {
        Ok(texts) => parse_keys(&texts, filter),
        Err(reason) => {
            let mut e = owned("invalid JSON array: ");
            e.append(reason.as_str());
            Err(e)
        },
    }
}

/// Adds the keys of a list separated by white space.
pub fn parse_whitespace_list(body: &str, filter: &mut AtomicBloomFilter<GxBuildHasher>) -> (outcome:
    Result<usize, String>)
    ensures
        ({
            let added = keys_added(crate::text::words(body@));
            &&& filter_grown(*old(filter), *final(filter), added.keys)
            &&& match added.refused {
                Some((text, reason)) => {
                    &&& outcome matches Err(e)
                    &&& e@ == bad_key_text(text, reason)
                },
                None => outcome matches Ok(count) && count == added.keys.len(),
            }
        }),
{
    let texts = split_words(body);
    assert(crate::key_filter::string_views(texts@) =~= crate::text::words(body@));
    parse_keys(&texts, filter)
}

/// Which keys are let through; commands change it.
pub struct KeySelection {
    pub filter: AtomicBloomFilter<GxBuildHasher>,
    /// Whether every key is let through.
    pub write_all: bool,
}

/// What follows from a command.
#[derive(Debug)]
pub enum CommandReply {
    /// It is carried out; this is the answer.
    Answer(String),
    /// The ring is to be reset; the outcome of that decides on the answer.
    Reset,
}

impl CommandReply {
    /// The answer, unless the ring is to be reset first.
    pub open spec fn text(self) -> Option<Seq<char>> {
        match self {
            CommandReply::Answer(answer) => Some(answer@),
            CommandReply::Reset => None,
        }
    }
}

/// The plugin: a ring with its writer, and the selection of the keys to write.
pub struct ShmPlugin {
    pub selection: KeySelection,
    pub writer: ShmWriter,
    pub ring: ShmRing,
    pub shm_path: String,
    pub shm_capacity: usize,
}

/// The text of a segment error.
pub open spec fn shm_error_text(error: ShmError) -> Seq<char> {
    match error {
        ShmError::Io(e) => "shared memory io: "@ + e.message@,
        ShmError::Nix(e) => "nix: "@ + e@,
        ShmError::InvalidHeader => "invalid header"@,
        ShmError::NoSpace => "insufficient space"@,
        ShmError::InvalidShmName(name) => "invalid shm name: "@ + name@,
    }
}

impl ShmError {
    /// The error as text.
    pub fn text(&self) -> (text: String)
        ensures
            text@ == shm_error_text(*self),
    {
        match self {
            ShmError::Io(e) => {
                let mut text = owned("shared memory io: ");
                text.append(e.message.as_str());
                text
            },
            ShmError::Nix(e) => {
                let mut text = owned("nix: ");
                text.append(e.as_str());
                text
            },
            ShmError::InvalidHeader => owned("invalid header"),
            ShmError::NoSpace => owned("insufficient space"),
            ShmError::InvalidShmName(name) => {
                let mut text = owned("invalid shm name: ");
                text.append(name.as_str());
                text
            },
        }
    }
}

/// The answer to a list of keys.
pub open spec fn list_answer(added: KeysAdded) -> Seq<char> {
    match added.refused {
        None => "OK ADDED "@ + crate::text::decimal(added.keys.len() as int) + "\n"@,
        Some((text, reason)) => "ERR "@ + bad_key_text(text, reason) + "\n"@,
    }
}

/// The answer to the outcome of adding keys.
pub fn added_answer(outcome: Result<usize, String>) -> (answer: String)
    ensures
        answer@ == match outcome {
            Ok(count) => "OK ADDED "@ + crate::text::decimal(count as int) + "\n"@,
            Err(e) => "ERR "@ + e@ + "\n"@,
        },
{
    match outcome {
        Ok(count) => {
            let mut answer = owned("OK ADDED ");
            push_decimal(&mut answer, count as u64);
            answer.append("\n");
            answer
        },
        Err(e) => {
            let mut answer = owned("ERR ");
            answer.append(e.as_str());
            answer.append("\n");
            answer
        },
    }
}

impl KeySelection {
    /// The keys that are let through.
    pub open spec fn lets_through(&self, key: Seq<u8>) -> bool {
        self.write_all || crate::key_filter::passes(self.filter).contains(key)
    }

    /// A selection by a filter.
    pub fn new(filter: AtomicBloomFilter<GxBuildHasher>) -> (selection: KeySelection)
        ensures
            selection.filter == filter,
            !selection.write_all,
    {
        KeySelection { filter, write_all: false }
    }

    /// Whether the updates of a key are written.
    pub fn is_let_through(&self, pubkey: &[u8; 32]) -> (through: bool)
        ensures
            through == self.lets_through(pubkey@),
    {
        self.write_all || filter_contains(&self.filter, pubkey)
    }

    /// The ring was reset, or could not be: the filter is emptied with it. Returns the answer to
    /// the command.
    pub fn on_reset(&mut self, outcome: Result<(), String>) -> (answer: String)
        ensures
            reset_answered(*old(self), *final(self), outcome, answer@),
    {
        match outcome {
            Ok(()) => {
                empty_filter(&mut self.filter);
                owned("OK RESET (SHM queue and Filter reinitialized)\n")
            },
            Err(e) => {
                let mut answer = owned("ERR Failed to reset: ");
                answer.append(e.as_str());
                answer.append("\n");
                answer
            },
        }
    }

    /// Carries out the command that the body of a connection holds, but for a reset.
    pub fn handle_conn(&mut self, body: &[u8]) -> (reply: CommandReply)
        ensures
            replied(*old(self), *final(self), crate::key_filter::lossy_text(body@), reply.text()),
            vstd::utf8::valid_utf8(body@) ==> replied(
                *old(self),
                *final(self),
                vstd::utf8::decode_utf8(body@),
                reply.text(),
            ),
    {
        let text = decode_lossy(body);
        self.handle_text(text.as_str())
    }

    /// Carries out the command that a text holds, but for a reset.
    pub fn handle_text(&mut self, body: &str) -> (reply: CommandReply)
        ensures
            replied(*old(self), *final(self), body@, reply.text()),
    {
        match parse_command(body) {
            FilterCommand::WriteAll => {
                self.write_all = true;
                CommandReply::Answer(owned("OK ALL (writing all account updates)\n"))
            },
            FilterCommand::Clear => {
                empty_filter(&mut self.filter);
                CommandReply::Answer(owned("OK CLEARED\n"))
            },
            FilterCommand::Reset => CommandReply::Reset,
            FilterCommand::AddJson => {
                self.write_all = false;
                let outcome = parse_json_array(body, &mut self.filter);
                CommandReply::Answer(added_answer(outcome))
            },
            FilterCommand::AddList => {
                self.write_all = false;
                let outcome = parse_whitespace_list(body, &mut self.filter);
                CommandReply::Answer(added_answer(outcome))
            },
        }
    }
}

/// What the outcome of a reset does to the selection, and how the command is answered.
pub open spec fn reset_answered(
    before: KeySelection,
    after: KeySelection,
    outcome: Result<(), String>,
    answer: Seq<char>,
) -> bool {
    &&& after.write_all == before.write_all
    &&& match outcome {
        Ok(()) => {
            &&& filter_emptied(before.filter, after.filter)
            &&& answer == "OK RESET (SHM queue and Filter reinitialized)\n"@
        },
        Err(e) => {
            &&& after.filter == before.filter
            &&& answer == "ERR Failed to reset: "@ + e@ + "\n"@
        },
    }
}

/// What a command does to the selection, and how it is answered: `None` where the ring is to be
/// reset first.
pub open spec fn replied(
    before: KeySelection,
    after: KeySelection,
    body: Seq<char>,
    reply: Option<Seq<char>>,
) -> bool {
    match command_in(body) {
        FilterCommand::WriteAll => {
            &&& after.write_all
            &&& after.filter == before.filter
            &&& reply == Some("OK ALL (writing all account updates)\n"@)
        },
        FilterCommand::Clear => {
            &&& after.write_all == before.write_all
            &&& filter_emptied(before.filter, after.filter)
            &&& reply == Some("OK CLEARED\n"@)
        },
        FilterCommand::Reset => {
            &&& after == before
            &&& reply is None
        },
        _ => {
            &&& !after.write_all
            &&& match key_texts(body) {
                Ok(texts) => {
                    &&& filter_grown(before.filter, after.filter, keys_added(texts).keys)
                    &&& reply == Some(list_answer(keys_added(texts)))
                },
                Err(e) => {
                    &&& after.filter == before.filter
                    &&& reply == Some("ERR "@ + e + "\n"@)
                },
            }
        },
    }
}

impl ShmPlugin {
    /// The ring is one of the plugin's capacity, and a new one of that capacity can be made.
    pub open spec fn valid(&self) -> bool {
        &&& self.ring.valid()
        &&& self.writer.cap == self.ring.capacity
        &&& 0 < self.shm_capacity
        &&& self.shm_capacity + HEADER_SIZE + PAGE_SIZE - 1 <= isize::MAX
    }

    /// Room is left on the cursor for one more record.
    pub open spec fn can_push(&self) -> bool {
        self.ring.alloc_off + 2 * self.writer.cap <= u64::MAX
    }

    /// The keys that are let through.
    pub open spec fn lets_through(&self, key: Seq<u8>) -> bool {
        self.selection.lets_through(key)
    }

    /// A plugin with an empty ring and a filter.
    pub fn new(
        filter: AtomicBloomFilter<GxBuildHasher>,
        shm_path: String,
        shm_capacity: usize,
    ) -> (made: Result<ShmPlugin, ShmError>)
        requires
            shm_capacity + HEADER_SIZE + PAGE_SIZE - 1 <= isize::MAX,
        ensures
            shm_capacity == 0 ==> {
                &&& made matches Err(ShmError::Io(e))
                &&& e.kind == ShmIoErrorKind::InvalidInput
                &&& e.message@ == "capacity_bytes=0"@
            },
            shm_capacity > 0 && !crate::shm_segment::valid_shm_name(
                crate::shm_segment::with_slash(shm_path@),
            ) ==> {
                &&& made matches Err(ShmError::InvalidShmName(n))
                &&& n@ == crate::shm_segment::with_slash(shm_path@)
            },
            shm_capacity > 0 && crate::shm_segment::valid_shm_name(
                crate::shm_segment::with_slash(shm_path@),
            ) ==> {
                &&& made matches Ok(plugin)
                &&& plugin.valid()
                &&& plugin.selection.filter == filter
                &&& !plugin.selection.write_all
                &&& plugin.ring.alloc_off == 0
                &&& plugin.ring.capacity == shm_capacity
                &&& plugin.ring.buf@ == crate::bytes::zeros(
                    crate::shm_segment::aligned(HEADER_SIZE + shm_capacity, PAGE_SIZE as int)
                        - HEADER_SIZE,
                )
                &&& plugin.shm_path == shm_path
                &&& plugin.shm_capacity == shm_capacity
            },
    {
        match ShmWriter::create(shm_path.as_str(), shm_capacity) {
            Ok((writer, ring)) => Ok(
                ShmPlugin {
                    selection: KeySelection::new(filter),
                    writer,
                    ring,
                    shm_path,
                    shm_capacity,
                },
            ),
            Err(e) => Err(e),
        }
    }

    /// Starts a new, empty ring in the place of the old one.
    pub fn reset_shm(&mut self) -> (outcome: Result<(), String>)
        requires
            old(self).valid(),
        ensures
            final(self).valid(),
            final(self).selection == old(self).selection,
            final(self).shm_path == old(self).shm_path,
            final(self).shm_capacity == old(self).shm_capacity,
            ({
                let name = crate::shm_segment::with_slash(old(self).shm_path@);
                if crate::shm_segment::valid_shm_name(name) {
                    &&& outcome is Ok
                    &&& final(self).ring.alloc_off == 0
                    &&& final(self).ring.capacity == old(self).shm_capacity
                    &&& final(self).ring.buf@ == crate::bytes::zeros(
                        crate::shm_segment::aligned(
                            HEADER_SIZE + old(self).shm_capacity,
                            PAGE_SIZE as int,
                        ) - HEADER_SIZE,
                    )
                } else {
                    &&& outcome matches Err(e)
                    &&& e@ == "Failed to unlink old SHM: "@ + ("invalid shm name: "@ + name)
                    &&& final(self).ring == old(self).ring
                }
            }),
    {
        match normalized_shm_name(self.shm_path.as_str()) {
            Ok(_) => {},
            Err(e) => {
                let cause = e.text();
                let mut text = owned("Failed to unlink old SHM: ");
                text.append(cause.as_str());
                return Err(text);
            },
        }
        match ShmWriter::create(self.shm_path.as_str(), self.shm_capacity) {
            Ok((writer, ring)) => {
                self.writer = writer;
                self.ring = ring;
                Ok(())
            },
            Err(e) => {
                let cause = e.text();
                let mut text = owned("Failed to create new SHM: ");
                text.append(cause.as_str());
                Err(text)
            },
        }
    }

    /// Writes an account update at time `now_us` if its key is let through; the result says whether
    /// it was. An update larger than the ring is dropped.
    pub fn filtered_write(
        &mut self,
        pubkey: &[u8; 32],
        data: &[u8],
        trigger_sig: &[u8; 64],
        now_us: u64,
    ) -> (written: bool)
        requires
            old(self).valid(),
            old(self).can_push(),
        ensures
            final(self).valid(),
            written == old(self).lets_through(pubkey@),
            final(self).selection == old(self).selection,
            final(self).shm_path == old(self).shm_path,
            final(self).shm_capacity == old(self).shm_capacity,
            !written ==> final(self).ring == old(self).ring,
            written ==> {
                let need = crate::shm::record_need(data@.len() as int);
                let cap = old(self).writer.cap as int;
                let cur = old(self).ring.alloc_off as int;
                if need <= cap && need <= u32::MAX {
                    &&& final(self).ring.alloc_off == crate::shm::record_position(cur, need, cap)
                        + need
                    &&& final(self).ring.buf@ == crate::shm::ring_after_push(
                        old(self).ring.buf@,
                        cap,
                        cur,
                        crate::shm::Record {
                            pubkey: pubkey@,
                            data: data@,
                            lamports: now_us,
                            trigger_sig: trigger_sig@,
                        },
                    )
                } else {
                    final(self).ring == old(self).ring
                }
            },
            update_written(
                *old(self),
                *final(self),
                (crate::shm::Record {
                    pubkey: pubkey@,
                    data: data@,
                    lamports: now_us,
                    trigger_sig: trigger_sig@,
                }),
                written,
            ),
    {
        if self.selection.is_let_through(pubkey) {
            self.enqueue(pubkey, data, trigger_sig, now_us);
            return true;
        }
        false
    }

    fn enqueue(&mut self, pubkey: &[u8; 32], data: &[u8], trigger_sig: &[u8; 64], now_us: u64)
        requires
            old(self).valid(),
            old(self).can_push(),
        ensures
            final(self).valid(),
            final(self).selection == old(self).selection,
            final(self).shm_path == old(self).shm_path,
            final(self).shm_capacity == old(self).shm_capacity,
            ({
                let need = crate::shm::record_need(data@.len() as int);
                let cap = old(self).writer.cap as int;
                let cur = old(self).ring.alloc_off as int;
                if need <= cap && need <= u32::MAX {
                    &&& final(self).ring.alloc_off == crate::shm::record_position(cur, need, cap)
                        + need
                    &&& final(self).ring.buf@ == crate::shm::ring_after_push(
                        old(self).ring.buf@,
                        cap,
                        cur,
                        crate::shm::Record {
                            pubkey: pubkey@,
                            data: data@,
                            lamports: now_us,
                            trigger_sig: trigger_sig@,
                        },
                    )
                } else {
                    final(self).ring == old(self).ring
                }
            }),
            exists|outcome: Result<(u64, usize), ShmError>| #[trigger]
                crate::shm::pushed(
                    old(self).ring,
                    final(self).ring,
                    old(self).writer.cap as int,
                    (crate::shm::Record {
                        pubkey: pubkey@,
                        data: data@,
                        lamports: now_us,
                        trigger_sig: trigger_sig@,
                    }),
                    outcome,
                ),
    {
        let _outcome = self.writer.push(&mut self.ring, pubkey, data, now_us, trigger_sig);
    }

    /// Writes the marker that ends the account updates of a transaction, whatever the filter lets
    /// through.
    pub fn flush_tx_end_marker(&mut self, trigger_sig: &[u8; 64])
        requires
            old(self).valid(),
            old(self).can_push(),
        ensures
            final(self).valid(),
            final(self).selection == old(self).selection,
            final(self).shm_path == old(self).shm_path,
            final(self).shm_capacity == old(self).shm_capacity,
            ({
                let need = crate::shm::record_need(1);
                let cap = old(self).writer.cap as int;
                let cur = old(self).ring.alloc_off as int;
                if need <= cap {
                    &&& final(self).ring.alloc_off == crate::shm::record_position(cur, need, cap)
                        + need
                    &&& final(self).ring.buf@ == crate::shm::ring_after_push(
                        old(self).ring.buf@,
                        cap,
                        cur,
                        crate::shm::Record {
                            pubkey: crate::shm::TX_END_MARKER_PUBKEY@,
                            data: seq![0u8],
                            lamports: 0,
                            trigger_sig: trigger_sig@,
                        },
                    )
                } else {
                    final(self).ring == old(self).ring
                }
            }),
    {
        let _ = self.writer.push_tx_end_marker(&mut self.ring, trigger_sig);
    }

    /// Carries out the command that the body of a connection holds, and returns the answer.
    pub fn handle_conn(&mut self, body: &[u8]) -> (answer: String)
        requires
            old(self).valid(),
        ensures
            final(self).valid(),
            answered(
                *old(self),
                *final(self),
                crate::key_filter::lossy_text(body@),
                answer@,
            ),
            vstd::utf8::valid_utf8(body@) ==> answered(
                *old(self),
                *final(self),
                vstd::utf8::decode_utf8(body@),
                answer@,
            ),
    {
        let text = decode_lossy(body);
        self.handle_text(text.as_str())
    }

    /// Carries out the command that a text holds, and returns the answer.
    pub fn handle_text(&mut self, body: &str) -> (answer: String)
        requires
            old(self).valid(),
        ensures
            final(self).valid(),
            answered(*old(self), *final(self), body@, answer@),
    {
        match self.selection.handle_text(body) {
            CommandReply::Answer(answer) => answer,
            CommandReply::Reset => {
                let outcome = self.reset_shm();
                self.selection.on_reset(outcome)
            },
        }
    }
}

/// What becomes of an account update.
pub open spec fn update_written(
    before: ShmPlugin,
    after: ShmPlugin,
    rec: crate::shm::Record,
    written: bool,
) -> bool {
    &&& written == before.lets_through(rec.pubkey)
    &&& after.selection == before.selection
    &&& if written {
        exists|outcome: Result<(u64, usize), ShmError>| #[trigger]
            crate::shm::pushed(before.ring, after.ring, before.writer.cap as int, rec, outcome)
    } else {
        after.ring == before.ring
    }
}

/// What a command does to the plugin, and how it is answered.
pub open spec fn answered(
    before: ShmPlugin,
    after: ShmPlugin,
    body: Seq<char>,
    answer: Seq<char>,
) -> bool {
    let name = crate::shm_segment::with_slash(before.shm_path@);
    &&& after.shm_path == before.shm_path
    &&& after.shm_capacity == before.shm_capacity
    &&& if command_in(body) == FilterCommand::Reset {
        &&& after.selection.write_all == before.selection.write_all
        &&& if crate::shm_segment::valid_shm_name(name) {
            &&& filter_emptied(before.selection.filter, after.selection.filter)
            &&& after.ring.alloc_off == 0
            &&& after.ring.capacity == before.shm_capacity
            &&& after.ring.buf@ == crate::bytes::zeros(
                crate::shm_segment::aligned(HEADER_SIZE + before.shm_capacity, PAGE_SIZE as int)
                    - HEADER_SIZE,
            )
            &&& answer == "OK RESET (SHM queue and Filter reinitialized)\n"@
        } else {
            &&& after.selection.filter == before.selection.filter
            &&& after.ring == before.ring
            &&& answer == "ERR Failed to reset: "@ + ("Failed to unlink old SHM: "@ + (
            "invalid shm name: "@ + name)) + "\n"@
        }
    } else {
        &&& after.ring == before.ring
        &&& replied(before.selection, after.selection, body, Some(answer))
    }
}

/// The bits of several keys hold those of each of them.
pub proof fn lemma_bits_hold_each(needed: Map<Seq<u8>, Set<int>>, keys: Seq<Seq<u8>>, i: int)
    requires
        0 <= i < keys.len(),
    ensures
        needed[keys[i]].subset_of(bits_of(needed, keys)),
    decreases keys.len(),
{
    if i < keys.len() - 1 {
        lemma_bits_hold_each(needed, keys.drop_last(), i);
        assert(keys.drop_last()[i] == keys[i]);
    }
}

/// Whether a command adds keys.
pub open spec fn adds_keys(body: Seq<char>) -> bool {
    command_in(body) == FilterCommand::AddJson || command_in(body) == FilterCommand::AddList
}

/// A key that a list names, before any text that is no key, is let through once the list was
/// added, and stays so until the filter is emptied: further lists only add keys.
pub proof fn law_added_keys_are_let_through(
    before: KeySelection,
    mid: KeySelection,
    after: KeySelection,
    first: Seq<char>,
    second: Seq<char>,
    first_reply: Option<Seq<char>>,
    second_reply: Option<Seq<char>>,
    key: Seq<u8>,
)
    ensures
        ({
            let keeps = adds_keys(second) || command_in(second) == FilterCommand::WriteAll;
            let named = key_texts(first) matches Ok(texts) && keys_added(texts).keys.contains(key);
            replied(before, mid, first, first_reply) && replied(mid, after, second, second_reply)
                && adds_keys(first) && keeps && named && key.len() == 32 ==> mid.lets_through(key)
                && after.lets_through(key)
        }),
{
    if let Ok(texts) = key_texts(first) {
        let keys = keys_added(texts).keys;
        if keys.contains(key) {
            let i = choose|i: int| 0 <= i < keys.len() && keys[i] == key;
            lemma_bits_hold_each(crate::key_filter::needed_bits(before.filter), keys, i);
        }
    }
}

/// After a list was added to an emptied filter, a key is let through exactly where the keys that
/// the list names have all the bits that it needs: no bit is set for any other key, and a list
/// without keys lets none through.
pub proof fn law_only_named_keys_count(
    emptied: KeySelection,
    after: KeySelection,
    body: Seq<char>,
    reply: Option<Seq<char>>,
    key: Seq<u8>,
)
    requires
        adds_keys(body),
    ensures
        crate::key_filter::filter_bits(emptied.filter) == Set::<int>::empty() && replied(
            emptied,
            after,
            body,
            reply,
        ) && key.len() == 32 ==> (after.lets_through(key) <==> crate::key_filter::needed_bits(
            emptied.filter,
        )[key].subset_of(
            match key_texts(body) {
                Ok(texts) => bits_of(
                    crate::key_filter::needed_bits(emptied.filter),
                    keys_added(texts).keys,
                ),
                Err(_) => Set::<int>::empty(),
            },
        )),
{
    if let Ok(texts) = key_texts(body) {
        let bits = bits_of(
            crate::key_filter::needed_bits(emptied.filter),
            keys_added(texts).keys,
        );
        assert(Set::<int>::empty().union(bits) =~= bits);
    }
}

/// Emptying the filter, by `CLEAR` or by a reset that succeeded, forgets every key: a key is let
/// through afterwards only where every key is.
pub proof fn law_reset_forgets_keys(
    before: KeySelection,
    after: KeySelection,
    body: Seq<char>,
    reply: Option<Seq<char>>,
    answer: Seq<char>,
    key: Seq<u8>,
)
    ensures
        reset_answered(before, after, Ok(()), answer) ==> (after.lets_through(key)
            <==> before.write_all),
        command_in(body) == FilterCommand::Clear && replied(before, after, body, reply) ==> (
        after.lets_through(key) <==> before.write_all),
{
}

} // verus!
