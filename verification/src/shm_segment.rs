//! Names, sizes and headers of shared-memory segments, and what opening one decides.
use crate::shm::{
    ShmError, ShmIoError, ShmIoErrorKind, ShmReader, ShmRing, ShmWriter, HEADER_SIZE, MAGIC,
    PAGE_SIZE, VERSION,
};
use crate::text::{chars_of, owned, push_decimal};
use vstd::prelude::*;
use vstd::string::StringExecFns;

verus! {

/// A power of two.
pub open spec fn is_power_of_two(a: usize) -> bool {
    exists|n: nat| a == #[trigger] vstd::arithmetic::power2::pow2(n)
}

/// `x` rounded up to a multiple of `a`.
pub open spec fn aligned(x: int, a: int) -> int {
    (x + a - 1) / a * a
}

/// Rounds `x` up to a multiple of the power of two `a`.
pub fn align_up(x: usize, a: usize) -> (y: usize)
    requires
        is_power_of_two(a),
        x + a - 1 <= usize::MAX,
    ensures
        y == aligned(x as int, a as int),
        x <= y < x + a,
        y as int % a as int == 0,
{
    proof {
        let n = choose|n: nat| a == #[trigger] vstd::arithmetic::power2::pow2(n);
        vstd::arithmetic::power2::lemma_pow2_pos(n);
        let z = x + a - 1;
        vstd::arithmetic::div_mod::lemma_fundamental_div_mod(z, a as int);
        vstd::arithmetic::mul::lemma_mul_is_commutative(a as int, z / a as int);
        vstd::arithmetic::div_mod::lemma_mod_multiples_basic(z / a as int, a as int);
    }
    let z: usize = x + (a - 1);
    z - z % a
}

/// Exactly one slash, at the front.
pub open spec fn valid_shm_name(s: Seq<char>) -> bool {
    &&& s.len() > 0
    &&& s[0] == '/'
    &&& forall|i: int| 1 <= i < s.len() ==> s[i] != '/'
}

/// Whether `s` names a POSIX shared-memory object: "/name", with no further slash.
pub fn is_valid_posix_shm_name(s: &str) -> (valid: bool)
    ensures
        valid == valid_shm_name(s@),
{
    let chars = chars_of(s);
    if chars.len() == 0 || chars[0] != '/' {
        return false;
    }
    let mut i: usize = 1;
    while i < chars.len()
        invariant
            1 <= i <= chars@.len(),
            chars@ == s@,
            forall|j: int| 1 <= j < i ==> s@[j] != '/',
        decreases chars@.len() - i,
    {
        if chars[i] == '/' {
            return false;
        }
        i += 1;
    }
    true
}

/// The name with a leading slash.
pub open spec fn with_slash(s: Seq<char>) -> Seq<char> {
    if s.len() > 0 && s[0] == '/' {
        s
    } else {
        seq!['/'] + s
    }
}

/// Puts a name into the form "/name", or refuses it.
pub fn normalized_shm_name(name_or_short: &str) -> (name: Result<String, ShmError>)
    ensures
        name is Ok <==> valid_shm_name(with_slash(name_or_short@)),
        name matches Ok(n) ==> n@ == with_slash(name_or_short@),
        name matches Err(e) ==> e matches ShmError::InvalidShmName(n) && n@ == with_slash(
            name_or_short@,
        ),
{
    let chars = chars_of(name_or_short);
    let normalized: String = if chars.len() > 0 && chars[0] == '/' {
        owned(name_or_short)
    } else {
        let mut s: String = String::new();
        s.push('/');
        s.append(name_or_short);
        assert(s@ =~= with_slash(name_or_short@));
        s
    };
    if is_valid_posix_shm_name(normalized.as_str()) {
        Ok(normalized)
    } else {
        Err(ShmError::InvalidShmName(normalized))
    }
}

/// How a shared-memory object is opened; always for reading and writing.
#[derive(Clone, Copy, PartialEq, Eq, Structural, Debug)]
pub enum OpenMode {
    /// It must exist.
    Existing,
    /// It is created where it does not exist.
    Create,
    /// It must not exist and is created.
    CreateExclusive,
}

/// First attempt to open an object.
pub fn first_open_mode(create: bool) -> (mode: OpenMode)
    ensures
        mode == if create {
            OpenMode::CreateExclusive
        } else {
            OpenMode::Existing
        },
{
    if create {
        OpenMode::CreateExclusive
    } else {
        OpenMode::Existing
    }
}

/// Second attempt, after the first one failed.
pub fn fallback_open_mode(create: bool) -> (mode: OpenMode)
    ensures
        mode == if create {
            OpenMode::Create
        } else {
            OpenMode::Existing
        },
{
    if create {
        OpenMode::Create
    } else {
        OpenMode::Existing
    }
}

/// What is left to do with an opened object.
#[derive(Clone, Copy, PartialEq, Eq, Structural, Debug)]
pub enum AfterOpen {
    /// Set its size.
    Resize,
    /// Use it as it is.
    Keep,
}

/// The text of the error for an existing object of the wrong size.
pub open spec fn size_mismatch_text(current: int, expected: int) -> Seq<char> {
    "existing shm has size "@ + crate::text::decimal(current) + ", expected "@
        + crate::text::decimal(expected)
}

/// Decides what happens to an opened object: one that was just created for writing is sized,
/// one that existed must already have the expected size, and one that is only opened is kept.
pub fn after_open(create: bool, created: bool, current_len: u64, total_len: u64) -> (next: Result<
    AfterOpen,
    ShmError,
>)
    ensures
        create && created ==> next == Ok::<AfterOpen, ShmError>(AfterOpen::Resize),
        !create || !created && current_len == total_len ==> next == Ok::<AfterOpen, ShmError>(
            AfterOpen::Keep,
        ),
        create && !created && current_len != total_len ==> {
            &&& next matches Err(ShmError::Io(e))
            &&& e.kind == ShmIoErrorKind::InvalidInput
            &&& e.message@ == size_mismatch_text(current_len as int, total_len as int)
        },
{
    if !create {
        return Ok(AfterOpen::Keep);
    }
    if created {
        return Ok(AfterOpen::Resize);
    }
    if current_len == total_len {
        return Ok(AfterOpen::Keep);
    }
    let mut message: String = owned("existing shm has size ");
    push_decimal(&mut message, current_len);
    message.append(", expected ");
    push_decimal(&mut message, total_len);
    Err(ShmError::Io(ShmIoError { kind: ShmIoErrorKind::InvalidInput, message }))
}

/// Size of the segment for a ring of `capacity_bytes`: header and ring, in whole pages.
pub fn segment_size(capacity_bytes: usize) -> (total: Result<usize, ShmError>)
    requires
        capacity_bytes + HEADER_SIZE + PAGE_SIZE - 1 <= isize::MAX,
    ensures
        capacity_bytes > 0 ==> total == Ok::<usize, ShmError>(
            aligned(HEADER_SIZE + capacity_bytes, PAGE_SIZE as int) as usize,
        ),
        capacity_bytes == 0 ==> {
            &&& total matches Err(ShmError::Io(e))
            &&& e.kind == ShmIoErrorKind::InvalidInput
            &&& e.message@ == "capacity_bytes=0"@
        },
{
    if capacity_bytes == 0 {
        return Err(
            ShmError::Io(
                ShmIoError {
                    kind: ShmIoErrorKind::InvalidInput,
                    message: owned("capacity_bytes=0"),
                },
            ),
        );
    }
    proof {
        vstd::arithmetic::power2::lemma2_to64();
    }
    Ok(align_up(HEADER_SIZE + capacity_bytes, PAGE_SIZE))
}

/// Whether a segment of `len` bytes with this header can be used.
pub open spec fn usable_segment(magic: u32, version: u32, capacity: u64, len: int) -> bool {
    &&& HEADER_SIZE <= len
    &&& magic == MAGIC
    &&& version == VERSION
    &&& 0 < capacity <= len - HEADER_SIZE
}

/// Checks the header of a mapped segment of `len` bytes and returns the ring's capacity.
pub fn checked_capacity(magic: u32, version: u32, capacity: u64, len: usize) -> (ring_len: Result<
    usize,
    ShmError,
>)
    ensures
        ({
            let accepted = HEADER_SIZE <= len && magic == MAGIC && version == VERSION && 0
                < capacity <= len - HEADER_SIZE;
            &&& accepted ==> ring_len == Ok::<usize, ShmError>(capacity as usize)
            &&& !accepted ==> ring_len == Err::<usize, ShmError>(ShmError::InvalidHeader)
        }),
        ring_len is Ok <==> usable_segment(magic, version, capacity, len as int),
{
    if len < HEADER_SIZE || magic != MAGIC || version != VERSION {
        return Err(ShmError::InvalidHeader);
    }
    let avail: usize = len - HEADER_SIZE;
    if capacity == 0 || capacity > avail as u64 {
        return Err(ShmError::InvalidHeader);
    }
    Ok(capacity as usize)
}

/// Cursor of a new reader: at the tip of the ring, on the lap of the reservation cursor.
pub fn tip_cursor(alloc_off: u64, cap: usize) -> (cursor: (u64, u64))
    requires
        0 < cap,
    ensures
        cursor.0 == alloc_off as int % cap as int,
        cursor.1 == alloc_off as int / cap as int,
{
    (alloc_off % cap as u64, alloc_off / cap as u64)
}

/// A reader that stands at the tip of a ring.
pub open spec fn at_tip(ring: ShmRing, reader: ShmReader) -> bool {
    &&& reader.cap == ring.capacity
    &&& reader.r_off == ring.alloc_off as int % ring.capacity as int
    &&& reader.read_gen == ring.alloc_off as int / ring.capacity as int
}

impl ShmWriter {
    /// A writer with a new, zeroed segment of the given ring capacity.
    pub fn create(path_or_name: &str, capacity_bytes: usize) -> (made: Result<
        (ShmWriter, ShmRing),
        ShmError,
    >)
        requires
            capacity_bytes + HEADER_SIZE + PAGE_SIZE - 1 <= isize::MAX,
        ensures
            capacity_bytes == 0 ==> {
                &&& made matches Err(ShmError::Io(e))
                &&& e.kind == ShmIoErrorKind::InvalidInput
                &&& e.message@ == "capacity_bytes=0"@
            },
            capacity_bytes > 0 && !valid_shm_name(with_slash(path_or_name@)) ==> {
                &&& made matches Err(ShmError::InvalidShmName(n))
                &&& n@ == with_slash(path_or_name@)
            },
            capacity_bytes > 0 && valid_shm_name(with_slash(path_or_name@)) ==> {
                &&& made matches Ok((writer, ring))
                &&& writer.cap == capacity_bytes
                &&& ring.valid()
                &&& ring.magic == MAGIC
                &&& ring.version == VERSION
                &&& ring.capacity == capacity_bytes
                &&& ring.alloc_off == 0
                &&& ring.buf@ == crate::bytes::zeros(
                    aligned(HEADER_SIZE + capacity_bytes, PAGE_SIZE as int) - HEADER_SIZE,
                )
            },
    {
        let total: usize = match segment_size(capacity_bytes) {
            Ok(total) => total,
            Err(e) => {
                return Err(e);
            },
        };
        proof {
            vstd::arithmetic::power2::lemma2_to64();
        }
        let ghost whole = aligned(HEADER_SIZE + capacity_bytes, PAGE_SIZE as int);
        let ring_bytes: usize = total - HEADER_SIZE;
        let held: Vec<u8> = vec![0u8; ring_bytes];
        assert(held@ =~= crate::bytes::zeros(whole - HEADER_SIZE));
        ShmWriter::take_over(path_or_name, capacity_bytes, held)
    }

    /// A writer with a segment that was there before, whose bytes behind the header are `held`: its
    /// header is written anew, the bytes stay. A segment of another size than the given ring
    /// capacity asks for is refused.
    pub fn take_over(path_or_name: &str, capacity_bytes: usize, held: Vec<u8>) -> (made: Result<
        (ShmWriter, ShmRing),
        ShmError,
    >)
        requires
            capacity_bytes + HEADER_SIZE + PAGE_SIZE - 1 <= isize::MAX,
            held@.len() + HEADER_SIZE <= isize::MAX,
        ensures
            capacity_bytes == 0 ==> {
                &&& made matches Err(ShmError::Io(e))
                &&& e.kind == ShmIoErrorKind::InvalidInput
                &&& e.message@ == "capacity_bytes=0"@
            },
            capacity_bytes > 0 && !valid_shm_name(with_slash(path_or_name@)) ==> {
                &&& made matches Err(ShmError::InvalidShmName(n))
                &&& n@ == with_slash(path_or_name@)
            },
            capacity_bytes > 0 && valid_shm_name(with_slash(path_or_name@)) ==> {
                let total = aligned(HEADER_SIZE + capacity_bytes, PAGE_SIZE as int);
                if held@.len() + HEADER_SIZE == total {
                    &&& made matches Ok((writer, ring))
                    &&& writer.cap == capacity_bytes
                    &&& ring.valid()
                    &&& ring.magic == MAGIC
                    &&& ring.version == VERSION
                    &&& ring.capacity == capacity_bytes
                    &&& ring.alloc_off == 0
                    &&& ring.buf == held
                } else {
                    &&& made matches Err(ShmError::Io(e))
                    &&& e.kind == ShmIoErrorKind::InvalidInput
                    &&& e.message@ == size_mismatch_text((held@.len() + HEADER_SIZE) as int, total)
                }
            },
    {
        let total: usize = match segment_size(capacity_bytes) {
            Ok(total) => total,
            Err(e) => {
                return Err(e);
            },
        };
        match normalized_shm_name(path_or_name) {
            Ok(_) => {},
            Err(e) => {
                return Err(e);
            },
        }
        match after_open(true, false, (held.len() + HEADER_SIZE) as u64, total as u64) {
            Ok(_) => {},
            Err(e) => {
                return Err(e);
            },
        }
        proof {
            vstd::arithmetic::power2::lemma2_to64();
        }
        let ring = ShmRing {
            magic: MAGIC,
            version: VERSION,
            capacity: capacity_bytes as u64,
            alloc_off: 0,
            buf: held,
        };
        assert(0int % capacity_bytes as int == 0) by {
            vstd::arithmetic::div_mod::lemma_small_mod(0, capacity_bytes as nat);
        }
        Ok((ShmWriter { cap: capacity_bytes }, ring))
    }
}

impl ShmReader {
    /// A reader on a mapped segment, at the tip of its ring.
    pub fn open(ring: &ShmRing) -> (opened: Result<ShmReader, ShmError>)
        requires
            ring.buf@.len() + HEADER_SIZE <= isize::MAX,
        ensures
            ({
                let accepted = ring.magic == MAGIC && ring.version == VERSION && 0 < ring.capacity
                    <= ring.buf@.len();
                &&& !accepted ==> opened == Err::<ShmReader, ShmError>(ShmError::InvalidHeader)
                &&& accepted ==> opened == Ok::<ShmReader, ShmError>(
                    ShmReader {
                        cap: ring.capacity as usize,
                        r_off: (ring.alloc_off as int % ring.capacity as int) as u64,
                        read_gen: (ring.alloc_off as int / ring.capacity as int) as u64,
                    },
                )
            }),
            opened is Ok <==> usable_segment(
                ring.magic,
                ring.version,
                ring.capacity,
                ring.buf@.len() + HEADER_SIZE,
            ),
            opened matches Ok(reader) ==> at_tip(*ring, reader),
    {
        let len: usize = ring.buf.len() + HEADER_SIZE;
        match checked_capacity(ring.magic, ring.version, ring.capacity, len) {
            Ok(cap) => {
                let cursor = tip_cursor(ring.alloc_off, cap);
                Ok(ShmReader { cap, r_off: cursor.0, read_gen: cursor.1 })
            },
            Err(e) => Err(e),
        }
    }
}

/// Microseconds of a clock reading of seconds and nanoseconds.
pub fn clock_micros(tv_sec: u64, tv_nsec: u64) -> (micros: u64)
    requires
        tv_sec * 1_000_000 + tv_nsec / 1_000 <= u64::MAX,
    ensures
        micros == tv_sec * 1_000_000 + tv_nsec / 1_000,
{
    tv_sec * 1_000_000 + tv_nsec / 1_000
}

/// A reader that opens a segment stands at the tip: it sees none of the records pushed before.
pub proof fn law_new_reader_stands_at_tip(ring: ShmRing, reader: ShmReader)
    requires
        ring.valid(),
        reader == (ShmReader {
            cap: ring.capacity as usize,
            r_off: (ring.alloc_off as int % ring.capacity as int) as u64,
            read_gen: (ring.alloc_off as int / ring.capacity as int) as u64,
        }),
    ensures
        crate::shm_laws::stands_at(
            reader.r_off as int,
            reader.read_gen as int,
            ring.capacity as int,
            ring.alloc_off as int,
        ),
        crate::shm_laws::backlog(
            ring.buf@,
            ring.capacity as int,
            ring.alloc_off as int,
            seq![],
            ring.alloc_off as int,
        ),
{
    let cap = ring.capacity as int;
    let alloc = ring.alloc_off as int;
    vstd::arithmetic::div_mod::lemma_mod_bound(alloc, cap);
    vstd::arithmetic::div_mod::lemma_div_pos_is_pos(alloc, cap);
    assert(alloc / cap <= alloc) by (nonlinear_arith)
        requires
            0 <= alloc,
            0 < cap,
    ;
    assert(alloc % cap <= alloc) by {
        vstd::arithmetic::div_mod::lemma_mod_decreases(alloc as nat, cap as nat);
    }
    vstd::arithmetic::div_mod::lemma_small_mod((alloc % cap) as nat, cap as nat);
}

} // verus!
