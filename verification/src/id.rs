//! ID generation: timestamp-based, random and UUID-like identifiers.
//!
//! An identifier is a function of the entropy it is made from. The caller
//! gathers the entropy (a clock, a counter, a seed); what the identifier
//! reads like is decided here.

use crate::text::{decimal, padded_decimal, push_char, push_padded_decimal};
use crate::time::unix_timestamp_millis;
use vstd::prelude::*;
use vstd::std_specs::convert::IntoSpec;
use vstd::string::StringExecFns;

verus! {

/// ID format options.
#[derive(Debug, Clone, Copy, PartialEq, Eq, Structural)]
pub enum IdFormat {
    /// Timestamp-based ID (sortable, 20 chars).
    Timestamp,
    /// Random hex ID (32 chars).
    RandomHex,
    /// Short random ID (12 chars, base62).
    Short,
    /// Prefixed ID with custom prefix.
    Prefixed,
}

/// What one identifier is made from.
#[derive(Debug, Clone, Copy, PartialEq, Eq, Structural)]
pub struct Entropy {
    /// Milliseconds since the Unix epoch.
    pub timestamp: u64,
    /// A count that no two identifiers share.
    pub counter: u64,
    /// The seed of the pseudo-random bytes.
    pub seed: u64,
}

/// One round of xorshift.
pub open spec fn xorshift(seed: u64) -> u64 {
    let a = seed ^ (seed << 13);
    let b = a ^ (a >> 7);
    b ^ (b << 17)
}

/// `len` pseudo-random bytes: each is the low byte of the next xorshift
/// round, and `counter` is mixed into the state after each byte.
pub open spec fn random_bytes(seed: u64, counter: u64, len: nat) -> Seq<u8>
    decreases len,
{
    if len == 0 {
        Seq::empty()
    } else {
        let mixed = xorshift(seed);
        seq![(mixed & 0xff) as u8] + random_bytes(
            ((mixed + counter) % 0x1_0000_0000_0000_0000) as u64,
            counter,
            (len - 1) as nat,
        )
    }
}

/// The lower-case hexadecimal digit for `d`, which is below 16.
pub open spec fn hex_digit(d: nat) -> char {
    if d < 10 {
        (d + 48) as char
    } else {
        (d + 87) as char
    }
}

/// The bytes in lower-case hexadecimal, two digits each.
pub open spec fn hex_text(bytes: Seq<u8>) -> Seq<char>
    decreases bytes.len(),
{
    if bytes.len() == 0 {
        Seq::empty()
    } else {
        hex_text(bytes.drop_last()) + seq![
            hex_digit(bytes.last() as nat / 16),
            hex_digit(bytes.last() as nat % 16),
        ]
    }
}

/// The character for `d`, which is below 62: digits, then upper-case
/// letters, then lower-case letters.
pub open spec fn base62_digit(d: nat) -> char {
    if d < 10 {
        (d + 48) as char
    } else if d < 36 {
        (d + 55) as char
    } else {
        (d + 61) as char
    }
}

/// One base-62 character for each byte, taken modulo 62.
pub open spec fn base62_text(bytes: Seq<u8>) -> Seq<char> {
    Seq::new(bytes.len(), |i: int| base62_digit(bytes[i] as nat % 62))
}

/// The text of a timestamp ID: 13 digits of timestamp, then 7 digits of
/// the counter modulo ten million, both padded with zeros.
pub open spec fn timestamp_id_text(timestamp: u64, counter: u64) -> Seq<char> {
    padded_decimal(timestamp as nat, 13) + padded_decimal(counter as nat % 10_000_000, 7)
}

/// Sixteen bytes marked as a version-4 UUID: the high half of byte 6 is 4,
/// the top two bits of byte 8 are 1 and 0.
pub open spec fn uuid_bytes(bytes: Seq<u8>) -> Seq<u8> {
    bytes.update(6, (bytes[6] & 0x0f) | 0x40).update(8, (bytes[8] & 0x3f) | 0x80)
}

/// Sixteen bytes in hexadecimal, in groups of 4, 2, 2, 2 and 6 bytes
/// between hyphens.
pub open spec fn uuid_text(bytes: Seq<u8>) -> Seq<char> {
    hex_text(bytes.subrange(0, 4)) + seq!['-'] + hex_text(bytes.subrange(4, 6)) + seq!['-']
        + hex_text(bytes.subrange(6, 8)) + seq!['-'] + hex_text(bytes.subrange(8, 10)) + seq!['-']
        + hex_text(bytes.subrange(10, 16))
}

/// The text of an identifier of the given format. `Prefixed` reads like
/// `Timestamp`; the prefix is added by `generate_prefixed_id`.
pub open spec fn id_text(format: IdFormat, entropy: Entropy) -> Seq<char> {
    match format {
        IdFormat::Timestamp => timestamp_id_text(entropy.timestamp, entropy.counter),
        IdFormat::RandomHex => hex_text(random_bytes(entropy.seed, entropy.counter, 16)),
        IdFormat::Short => base62_text(random_bytes(entropy.seed, entropy.counter, 12)),
        IdFormat::Prefixed => timestamp_id_text(entropy.timestamp, entropy.counter),
    }
}

/// There are as many pseudo-random bytes as were asked for.
pub proof fn lemma_random_bytes_len(seed: u64, counter: u64, len: nat)
    ensures
        random_bytes(seed, counter, len).len() == len,
    decreases len,
{
    if len > 0 {
        lemma_random_bytes_len(
            ((xorshift(seed) + counter) % 0x1_0000_0000_0000_0000) as u64,
            counter,
            (len - 1) as nat,
        );
    }
}

/// Hexadecimal text has two characters for each byte.
pub proof fn lemma_hex_text_len(bytes: Seq<u8>)
    ensures
        hex_text(bytes).len() == 2 * bytes.len(),
    decreases bytes.len(),
{
    if bytes.len() > 0 {
        lemma_hex_text_len(bytes.drop_last());
    }
}

/// A timestamp ID of a timestamp of at most 13 digits has 20 characters.
pub proof fn lemma_timestamp_id_len(timestamp: u64, counter: u64)
    requires
        timestamp < 10_000_000_000_000,
    ensures
        timestamp_id_text(timestamp, counter).len() == 20,
{
    reveal_with_fuel(decimal, 14);
    assert(decimal(timestamp as nat).len() <= 13);
    assert(decimal(counter as nat % 10_000_000).len() <= 7);
}

/// A UUID-like text has 36 characters.
pub proof fn lemma_uuid_text_len(bytes: Seq<u8>)
    requires
        bytes.len() == 16,
    ensures
        uuid_text(bytes).len() == 36,
{
    lemma_hex_text_len(bytes.subrange(0, 4));
    lemma_hex_text_len(bytes.subrange(4, 6));
    lemma_hex_text_len(bytes.subrange(6, 8));
    lemma_hex_text_len(bytes.subrange(8, 10));
    lemma_hex_text_len(bytes.subrange(10, 16));
}

/// Fill a vector with `len` pseudo-random bytes.
pub fn fill_random_bytes(seed: u64, counter: u64, len: usize) -> (bytes: Vec<u8>)
    ensures
        bytes@ == random_bytes(seed, counter, len as nat),
        bytes@.len() == len,
{
    let mut bytes: Vec<u8> = Vec::new();
    let mut state = seed;
    let mut i: usize = 0;
    while i < len
        invariant
            i <= len,
            bytes@.len() == i,
            random_bytes(seed, counter, len as nat) == bytes@ + random_bytes(
                state,
                counter,
                (len - i) as nat,
            ),
        decreases len - i,
    {
        state ^= state << 13;
        state ^= state >> 7;
        state ^= state << 17;
        let ghost before = bytes@;
        bytes.push((state & 0xff) as u8);
        state = state.wrapping_add(counter);
        i += 1;
        assert(before + (seq![bytes@.last()] + random_bytes(state, counter, (len - i) as nat))
            =~= bytes@ + random_bytes(state, counter, (len - i) as nat));
    }
    assert(bytes@ + Seq::<u8>::empty() =~= bytes@);
    bytes
}

/// Appends one hexadecimal digit.
fn push_hex_digit(out: &mut String, d: u8)
    requires
        d < 16,
    ensures
        final(out)@ == old(out)@.push(hex_digit(d as nat)),
{
    if d < 10 {
        push_char(out, (d + 48) as char);
    } else {
        push_char(out, (d + 87) as char);
    }
}

/// Appends `bytes[from..to]` in hexadecimal.
fn push_hex(out: &mut String, bytes: &Vec<u8>, from: usize, to: usize)
    requires
        from <= to <= bytes@.len(),
    ensures
        final(out)@ == old(out)@ + hex_text(bytes@.subrange(from as int, to as int)),
{
    let mut i: usize = from;
    assert(bytes@.subrange(from as int, from as int) =~= Seq::<u8>::empty());
    assert(old(out)@ + Seq::<char>::empty() =~= old(out)@);
    while i < to
        invariant
            from <= i <= to <= bytes@.len(),
            out@ == old(out)@ + hex_text(bytes@.subrange(from as int, i as int)),
        decreases to - i,
    {
        let byte = bytes[i];
        push_hex_digit(out, byte / 16);
        push_hex_digit(out, byte % 16);
        i += 1;
        assert(bytes@.subrange(from as int, i as int).drop_last() =~= bytes@.subrange(
            from as int,
            i - 1,
        ));
        assert(out@ =~= old(out)@ + hex_text(bytes@.subrange(from as int, i as int)));
    }
}

/// Generate a timestamp-based sortable ID from a timestamp in milliseconds
/// and a counter.
///
/// Format: 13 digits of timestamp, 7 digits of counter, so 20 characters
/// while the timestamp has no more than 13 digits. IDs of the same
/// millisecond differ by their counters and sort by them.
pub fn generate_timestamp_id(timestamp: u64, counter: u64) -> (id: String)
    ensures
        id@ == timestamp_id_text(timestamp, counter),
        timestamp < 10_000_000_000_000 ==> id@.len() == 20,
{
    proof {
        if timestamp < 10_000_000_000_000 {
            lemma_timestamp_id_len(timestamp, counter);
        }
    }
    let mut id = String::new();
    push_padded_decimal(&mut id, timestamp, 13);
    push_padded_decimal(&mut id, counter % 10_000_000, 7);
    assert(id@ =~= timestamp_id_text(timestamp, counter));
    id
}

/// Generate a random hexadecimal ID (32 characters) from a seed.
pub fn generate_random_hex(seed: u64, counter: u64) -> (id: String)
    ensures
        id@ == hex_text(random_bytes(seed, counter, 16)),
        id@.len() == 32,
{
    proof {
        lemma_random_bytes_len(seed, counter, 16);
        lemma_hex_text_len(random_bytes(seed, counter, 16));
    }
    let bytes = fill_random_bytes(seed, counter, 16);
    let mut id = String::new();
    push_hex(&mut id, &bytes, 0, 16);
    assert(bytes@.subrange(0, 16) =~= bytes@);
    assert(Seq::<char>::empty() + hex_text(bytes@) =~= hex_text(bytes@));
    id
}

/// Generate a short random ID (12 characters, base62) from a seed.
pub fn generate_short_id(seed: u64, counter: u64) -> (id: String)
    ensures
        id@ == base62_text(random_bytes(seed, counter, 12)),
        id@.len() == 12,
{
    let bytes = fill_random_bytes(seed, counter, 12);
    let mut id = String::new();
    let mut i: usize = 0;
    while i < 12
        invariant
            i <= 12,
            bytes@.len() == 12,
            id@ == base62_text(bytes@).take(i as int),
        decreases 12 - i,
    {
        let d: u8 = bytes[i] % 62;
        let c = if d < 10 {
            (d + 48) as char
        } else if d < 36 {
            (d + 55) as char
        } else {
            (d + 61) as char
        };
        push_char(&mut id, c);
        i += 1;
        assert(id@ =~= base62_text(bytes@).take(i as int));
    }
    assert(base62_text(bytes@).take(12) =~= base62_text(bytes@));
    id
}

/// Generate a UUID v4-like string from a seed.
///
/// Note: This is not a cryptographically secure UUID.
pub fn generate_uuid_like(seed: u64, counter: u64) -> (id: String)
    ensures
        id@ == uuid_text(uuid_bytes(random_bytes(seed, counter, 16))),
        id@.len() == 36,
{
    proof {
        lemma_random_bytes_len(seed, counter, 16);
        lemma_uuid_text_len(uuid_bytes(random_bytes(seed, counter, 16)));
    }
    let mut bytes = fill_random_bytes(seed, counter, 16);
    let six = (bytes[6] & 0x0f) | 0x40;
    bytes.set(6, six);
    let eight = (bytes[8] & 0x3f) | 0x80;
    bytes.set(8, eight);
    assert(bytes@ =~= uuid_bytes(random_bytes(seed, counter, 16)));
    let mut id = String::new();
    push_hex(&mut id, &bytes, 0, 4);
    push_char(&mut id, '-');
    push_hex(&mut id, &bytes, 4, 6);
    push_char(&mut id, '-');
    push_hex(&mut id, &bytes, 6, 8);
    push_char(&mut id, '-');
    push_hex(&mut id, &bytes, 8, 10);
    push_char(&mut id, '-');
    push_hex(&mut id, &bytes, 10, 16);
    assert(id@ =~= uuid_text(bytes@));
    id
}

/// Generate a unique ID of the given format.
pub fn generate_id(format: IdFormat, entropy: Entropy) -> (id: String)
    ensures
        id@ == id_text(format, entropy),
{
    match format {
        IdFormat::Timestamp => generate_timestamp_id(entropy.timestamp, entropy.counter),
        IdFormat::RandomHex => generate_random_hex(entropy.seed, entropy.counter),
        IdFormat::Short => generate_short_id(entropy.seed, entropy.counter),
        IdFormat::Prefixed => generate_timestamp_id(entropy.timestamp, entropy.counter),
    }
}

/// Generate a prefixed ID: the prefix, an underscore and a short ID, like
/// "usr_abc123".
pub fn generate_prefixed_id(prefix: &str, seed: u64, counter: u64) -> (id: String)
    ensures
        id@ == prefix@ + "_"@ + base62_text(random_bytes(seed, counter, 12)),
        id@.len() == prefix@.len() + 13,
{
    proof {
        reveal_strlit("_");
    }
    let short = generate_short_id(seed, counter);
    prefix.to_owned().concat("_").concat(short.as_str())
}

/// Get current timestamp in milliseconds.
pub fn current_timestamp_millis() -> u64 {
    unix_timestamp_millis()
}

/// ID generator with configuration.
#[derive(Debug, Clone)]
pub struct IdGenerator {
    prefix: Option<String>,
    format: IdFormat,
}

impl IdGenerator {
    /// The prefix of the generated IDs, if one is set.
    pub closed spec fn prefix(&self) -> Option<String> {
        self.prefix
    }

    /// The format of the generated IDs.
    pub closed spec fn format(&self) -> IdFormat {
        self.format
    }

    /// Create a new ID generator: short IDs without a prefix.
    pub fn new() -> (generator: Self)
        ensures
            generator.prefix() is None,
            generator.format() == IdFormat::Short,
    {
        IdGenerator { prefix: None, format: IdFormat::Short }
    }

    /// Set a prefix for generated IDs.
    pub fn with_prefix<P: Into<String>>(self, prefix: P) -> (generator: Self)
        ensures
            exists|text: String|
                call_ensures(P::into, (prefix,), text) && generator.prefix() == Some(text),
            P::obeys_into_spec() ==> generator.prefix() == Some(prefix.into_spec()),
            generator.format() == self.format(),
    {
        let mut generator = self;
        generator.prefix = Some(prefix.into());
        generator
    }

    /// Set the ID format.
    pub fn with_format(self, format: IdFormat) -> (generator: Self)
        ensures
            generator.prefix() == self.prefix(),
            generator.format() == format,
    {
        let mut generator = self;
        generator.format = format;
        generator
    }

    /// Generate an ID: the ID of the format, behind the prefix and an
    /// underscore where a prefix is set.
    pub fn generate(&self, entropy: Entropy) -> (id: String)
        ensures
            id@ == match self.prefix() {
                Some(p) => p@ + "_"@ + id_text(self.format(), entropy),
                None => id_text(self.format(), entropy),
            },
    {
        let id = generate_id(self.format, entropy);
        match &self.prefix {
            Some(p) => p.clone().concat("_").concat(id.as_str()),
            None => id,
        }
    }
}

impl Default for IdGenerator {
    fn default() -> (generator: Self)
        ensures
            generator.prefix() is None,
            generator.format() == IdFormat::Short,
    {
        IdGenerator::new()
    }
}

} // verus!
