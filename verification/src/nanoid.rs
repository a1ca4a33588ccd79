//! Short random identifiers drawn from an alphabet by a linear congruential
//! generator that is seeded from the wall clock.

use std::time::{Duration, SystemTime, SystemTimeError, UNIX_EPOCH};
use vstd::prelude::*;
use vstd::string::*;

verus! {

/// Digits and lowercase letters: the alphabet of access IDs.
pub const ALPHABET: &'static str = "0123456789abcdefghijklmnopqrstuvwxyz";

/// Length of an access ID.
pub const DEFAULT_SIZE: usize = 5;

/// Multiplier of the generator.
pub const LCG_MULTIPLIER: u64 = 1664525;

/// Increment of the generator.
pub const LCG_INCREMENT: u64 = 1013904223;

/// One step of the generator: `seed * 1664525 + 1013904223` modulo 2^64.
pub open spec fn lcg_next(seed: u64) -> u64 {
    seed.wrapping_mul(LCG_MULTIPLIER).wrapping_add(LCG_INCREMENT)
}

/// The character that a generator state selects. The state, reduced to the
/// machine word, is taken modulo `modulus` (the alphabet's length in bytes);
/// an index past the last character selects `'0'`.
pub open spec fn pick_char(state: u64, alphabet: Seq<char>, modulus: int) -> char {
    let index = (state as usize) as int % modulus;
    if 0 <= index < alphabet.len() {
        alphabet[index]
    } else {
        '0'
    }
}

/// The `length` characters that the generator yields when started from `seed`.
pub open spec fn lcg_chars(seed: u64, length: nat, alphabet: Seq<char>, modulus: int) -> Seq<char>
    decreases length,
{
    if length == 0 {
        Seq::empty()
    } else {
        let state = lcg_next(seed);
        seq![pick_char(state, alphabet, modulus)] + lcg_chars(
            state,
            (length - 1) as nat,
            alphabet,
            modulus,
        )
    }
}

/// Whether `c` is a digit or a lowercase letter.
pub open spec fn is_id_char(c: char) -> bool {
    ('0' <= c && c <= '9') || ('a' <= c && c <= 'z')
}

/// Whether every character of `id` is a digit or a lowercase letter.
pub open spec fn is_id_text(id: Seq<char>) -> bool {
    forall|i: int| 0 <= i < id.len() ==> is_id_char(#[trigger] id[i])
}

/// The generator yields exactly as many characters as were asked for.
pub proof fn lemma_lcg_chars_len(seed: u64, length: nat, alphabet: Seq<char>, modulus: int)
    ensures
        lcg_chars(seed, length, alphabet, modulus).len() == length,
    decreases length,
{
    if length > 0 {
        lemma_lcg_chars_len(lcg_next(seed), (length - 1) as nat, alphabet, modulus);
    }
}

/// Every character that the generator yields is one of the alphabet, or `'0'`
/// where the selected index lies past the alphabet's last character.
pub proof fn lemma_lcg_chars_from_alphabet(
    seed: u64,
    length: nat,
    alphabet: Seq<char>,
    modulus: int,
)
    ensures
        forall|i: int|
            0 <= i < length ==> {
                let c = #[trigger] lcg_chars(seed, length, alphabet, modulus)[i];
                alphabet.contains(c) || c == '0'
            },
    decreases length,
{
    if length > 0 {
        let state = lcg_next(seed);
        lemma_lcg_chars_from_alphabet(state, (length - 1) as nat, alphabet, modulus);
        lemma_lcg_chars_len(state, (length - 1) as nat, alphabet, modulus);
        let rest = lcg_chars(state, (length - 1) as nat, alphabet, modulus);
        let all = lcg_chars(seed, length, alphabet, modulus);
        assert forall|i: int| 0 <= i < length implies ({
            let c = #[trigger] all[i];
            alphabet.contains(c) || c == '0'
        }) by {
            if i > 0 {
                assert(all[i] == rest[i - 1]);
            }
        }
    }
}

/// One generator step appended to what came before is the same run made
/// one character longer.
proof fn lemma_lcg_chars_step(seed: u64, length: nat, alphabet: Seq<char>, modulus: int)
    requires
        length > 0,
    ensures
        lcg_chars(seed, length, alphabet, modulus) == seq![
            pick_char(lcg_next(seed), alphabet, modulus),
        ] + lcg_chars(lcg_next(seed), (length - 1) as nat, alphabet, modulus),
{
}

/// A string that holds a character takes up at least one byte.
proof fn lemma_nonempty_has_bytes(chars: Seq<char>)
    requires
        chars.len() > 0,
    ensures
        vstd::utf8::encode_utf8(chars).len() > 0,
{
}

/// A moment of the wall clock, as `std` has it.
#[verifier::external_type_specification]
#[verifier::external_body]
pub struct ExSystemTime(SystemTime);

/// Why one moment of the wall clock is not later than another, as `std` has it.
#[verifier::external_type_specification]
#[verifier::external_body]
pub struct ExSystemTimeError(SystemTimeError);

/// `SystemTime::now` reads the wall clock. Nothing is promised of the moment.
pub assume_specification[ SystemTime::now ]() -> (now: SystemTime)
;

/// `SystemTime::duration_since` gives the time from `earlier` to the moment,
/// or an error where `earlier` is the later of the two. Nothing is promised
/// of either.
pub assume_specification[ SystemTime::duration_since ](
    moment: &SystemTime,
    earlier: SystemTime,
) -> (elapsed: Result<Duration, SystemTimeError>)
;

/// `Duration::as_nanos` gives a span of time in nanoseconds. Nothing is
/// promised of the number.
pub assume_specification[ Duration::as_nanos ](span: &Duration) -> (nanos: u128)
;

/// The moment from which the wall clock counts: `std::time::UNIX_EPOCH`.
#[verifier::external_body]
fn unix_epoch() -> (epoch: SystemTime) {
    UNIX_EPOCH
}

/// Reads the wall clock and gives the seed that the reading stands for, as
/// `seed_from_nanos` says. Of the reading itself nothing can be promised.
fn clock_seed() -> (seed: u64) {
    let reading = match SystemTime::now().duration_since(unix_epoch()) {
        Ok(elapsed) => Some(elapsed.as_nanos()),
        Err(_) => None,
    };
    seed_from_nanos(reading)
}

/// The seed that a reading of the wall clock stands for. The reading is the
/// number of nanoseconds since the Unix epoch, or `None` where the clock
/// stands before the epoch. The seed is the reading's low 64 bits, and zero
/// where there is no reading.
pub open spec fn seed_of(reading: Option<u128>) -> u64 {
    match reading {
        Some(nanos) => (nanos % 0x1_0000_0000_0000_0000) as u64,
        None => 0,
    }
}

/// Computes `seed_of`.
pub fn seed_from_nanos(reading: Option<u128>) -> (seed: u64)
    ensures
        seed == seed_of(reading),
{
    match reading {
        Some(nanos) => (nanos % 0x1_0000_0000_0000_0000u128) as u64,
        None => 0,
    }
}

/// The identifier of `length` characters that the generator yields from
/// `seed`: each step advances the state and selects one character of
/// `alphabet` by the state modulo the alphabet's length in bytes.
pub fn generate_from_seed(seed: u64, length: usize, alphabet: &str) -> (id: String)
    requires
        length > 0 ==> alphabet@.len() > 0,
    ensures
        id@ == lcg_chars(seed, length as nat, alphabet@, alphabet.spec_bytes().len() as int),
        id@.len() == length,
{
    let mut output = String::new();
    let modulus = alphabet.as_bytes().len();
    let count = alphabet.unicode_len();
    let mut state = seed;
    let mut produced: usize = 0;
    proof {
        if length > 0 {
            lemma_nonempty_has_bytes(alphabet@);
        }
    }
    while produced < length
        invariant
            produced <= length,
            modulus == alphabet.spec_bytes().len(),
            count == alphabet@.len(),
            length > 0 ==> modulus > 0,
            output@ + lcg_chars(state, (length - produced) as nat, alphabet@, modulus as int)
                == lcg_chars(seed, length as nat, alphabet@, modulus as int),
        decreases length - produced,
    {
        proof {
            lemma_lcg_chars_step(state, (length - produced) as nat, alphabet@, modulus as int);
        }
        let ghost before = output@;
        state = state.wrapping_mul(LCG_MULTIPLIER).wrapping_add(LCG_INCREMENT);
        let index = (#[verifier::truncate] (state as usize)) % modulus;
        let c = if index < count {
            alphabet.get_char(index)
        } else {
            '0'
        };
        output.push(c);
        produced += 1;
        proof {
            let rest = lcg_chars(state, (length - produced) as nat, alphabet@, modulus as int);
            assert(output@ + rest == before + (seq![c] + rest));
        }
    }
    proof {
        lemma_lcg_chars_len(seed, length as nat, alphabet@, modulus as int);
        assert(output@ + Seq::<char>::empty() == output@);
    }
    output
}

/// With a modulus that is the alphabet's own length, every character that the
/// generator yields is one of the alphabet.
pub proof fn lemma_lcg_chars_within(seed: u64, length: nat, alphabet: Seq<char>)
    requires
        alphabet.len() > 0,
    ensures
        forall|i: int|
            0 <= i < length ==> alphabet.contains(
                #[trigger] lcg_chars(seed, length, alphabet, alphabet.len() as int)[i],
            ),
    decreases length,
{
    if length > 0 {
        let modulus = alphabet.len() as int;
        let state = lcg_next(seed);
        lemma_lcg_chars_within(state, (length - 1) as nat, alphabet);
        lemma_lcg_chars_len(state, (length - 1) as nat, alphabet, modulus);
        let rest = lcg_chars(state, (length - 1) as nat, alphabet, modulus);
        let all = lcg_chars(seed, length, alphabet, modulus);
        assert forall|i: int| 0 <= i < length implies alphabet.contains(#[trigger] all[i]) by {
            if i > 0 {
                assert(all[i] == rest[i - 1]);
            } else {
                let index = (state as usize) as int % modulus;
                assert(0 <= index < modulus);
                assert(all[0] == alphabet[index]);
            }
        }
    }
}

/// An identifier of `length` characters over `alphabet`, from a generator
/// seeded with the wall clock's nanoseconds (with zero where the clock stands
/// before the Unix epoch).
pub fn generate_custom(length: usize, alphabet: &str) -> (id: String)
    requires
        length > 0 ==> alphabet@.len() > 0,
    ensures
        id@.len() == length,
        exists|seed: u64|
            id@ == lcg_chars(seed, length as nat, alphabet@, alphabet.spec_bytes().len() as int),
        forall|i: int|
            0 <= i < id@.len() ==> alphabet@.contains(#[trigger] id@[i]) || id@[i] == '0',
        alphabet.is_ascii() ==> forall|i: int|
            0 <= i < id@.len() ==> alphabet@.contains(#[trigger] id@[i]),
{
    let seed = clock_seed();
    let id = generate_from_seed(seed, length, alphabet);
    proof {
        let modulus = alphabet.spec_bytes().len() as int;
        lemma_lcg_chars_from_alphabet(seed, length as nat, alphabet@, modulus);
        if alphabet.is_ascii() && length > 0 {
            vstd::string::is_ascii_spec_bytes(alphabet);
            assert(modulus == alphabet@.len());
            lemma_lcg_chars_within(seed, length as nat, alphabet@);
        }
    }
    id
}

/// An identifier of `length` characters, each a digit or a lowercase letter.
pub fn generate_with_length(length: usize) -> (id: String)
    ensures
        id@.len() == length,
        is_id_text(id@),
        exists|seed: u64| id@ == lcg_chars(seed, length as nat, ALPHABET@, 36),
{
    proof {
        lemma_alphabet();
    }
    let id = generate_custom(length, ALPHABET);
    proof {
        vstd::string::is_ascii_spec_bytes(ALPHABET);
        assert forall|i: int| 0 <= i < id@.len() implies is_id_char(#[trigger] id@[i]) by {
            assert(ALPHABET@.contains(id@[i]));
        }
    }
    id
}

/// An access ID: five characters, each a digit or a lowercase letter.
pub fn generate() -> (id: String)
    ensures
        id@.len() == DEFAULT_SIZE,
        is_id_text(id@),
        exists|seed: u64| id@ == lcg_chars(seed, DEFAULT_SIZE as nat, ALPHABET@, 36),
{
    generate_with_length(DEFAULT_SIZE)
}

/// The default alphabet holds the 36 digits and lowercase letters, all ASCII.
pub proof fn lemma_alphabet()
    ensures
        ALPHABET@.len() == 36,
        ALPHABET.is_ascii(),
        forall|i: int| 0 <= i < 36 ==> is_id_char(#[trigger] ALPHABET@[i]),
{
    reveal_strlit("0123456789abcdefghijklmnopqrstuvwxyz");
}

} // verus!
