use commons::id::{
    current_timestamp_millis, fill_random_bytes, generate_id, generate_prefixed_id,
    generate_random_hex, generate_short_id, generate_timestamp_id, generate_uuid_like, Entropy,
    IdFormat, IdGenerator,
};
use std::collections::hash_map::DefaultHasher;
use std::collections::HashSet;
use std::hash::{Hash, Hasher};

/// Gathers entropy as a caller does: the clock, a count, and a seed hashed
/// from both.
fn entropy(counter: u64) -> Entropy {
    let timestamp = current_timestamp_millis();
    let mut hasher = DefaultHasher::new();
    timestamp.hash(&mut hasher);
    counter.hash(&mut hasher);
    Entropy { timestamp, counter, seed: hasher.finish() }
}

#[test]
fn test_timestamp_id_format() {
    let source = entropy(0);
    let id = generate_timestamp_id(source.timestamp, source.counter);
    assert_eq!(id.len(), 20);
    assert!(id.chars().all(|c| c.is_ascii_digit()));
}

#[test]
fn test_timestamp_ids_unique_in_same_ms() {
    let timestamp = current_timestamp_millis();
    let ids: Vec<String> = (0..100).map(|n| generate_timestamp_id(timestamp, n)).collect();
    let unique: HashSet<_> = ids.iter().collect();
    assert_eq!(ids.len(), unique.len());
}

#[test]
fn test_random_hex_format() {
    let source = entropy(1);
    let id = generate_random_hex(source.seed, source.counter);
    assert_eq!(id.len(), 32);
    assert!(id.chars().all(|c| c.is_ascii_hexdigit()));
}

#[test]
fn test_short_id_format() {
    let source = entropy(2);
    let id = generate_short_id(source.seed, source.counter);
    assert_eq!(id.len(), 12);
    assert!(id.chars().all(|c| c.is_ascii_alphanumeric()));
}

#[test]
fn test_uuid_like_format() {
    let source = entropy(3);
    let id = generate_uuid_like(source.seed, source.counter);
    assert_eq!(id.len(), 36);
    assert_eq!(id.chars().filter(|&c| c == '-').count(), 4);
}

#[test]
fn test_prefixed_id() {
    let source = entropy(4);
    let id = generate_prefixed_id("usr", source.seed, source.counter);
    assert!(id.starts_with("usr_"));
    assert_eq!(id.len(), 4 + 12); // "usr_" + 12 char short id
}

#[test]
fn test_id_generator() {
    let gen = IdGenerator::new()
        .with_prefix("order")
        .with_format(IdFormat::Short);

    let id = gen.generate(entropy(5));
    assert!(id.starts_with("order_"));
}

#[test]
fn test_uniqueness() {
    let ids: HashSet<String> = (0..1000)
        .map(|n| {
            let source = entropy(n);
            generate_short_id(source.seed, source.counter)
        })
        .collect();
    assert_eq!(ids.len(), 1000);
}

#[test]
fn timestamp_id_exact() {
    assert_eq!(generate_timestamp_id(1_700_000_000_123, 42), "17000000001230000042");
    assert_eq!(generate_timestamp_id(0, 0), "00000000000000000000");
    assert_eq!(generate_timestamp_id(5, 10_000_007), "00000000000050000007");
    assert_eq!(generate_timestamp_id(12_345_678_901_234, 1), "123456789012340000001");
}

#[test]
fn timestamp_ids_sort_by_time_then_counter() {
    assert!(generate_timestamp_id(1_700_000_000_123, 9) < generate_timestamp_id(1_700_000_000_124, 0));
    assert!(generate_timestamp_id(1_700_000_000_123, 9) < generate_timestamp_id(1_700_000_000_123, 10));
}

/// The xorshift rounds, written out once more to hold the library to them.
fn expected_bytes(seed: u64, counter: u64, len: usize) -> Vec<u8> {
    let mut state = seed;
    let mut bytes = Vec::new();
    for _ in 0..len {
        state ^= state << 13;
        state ^= state >> 7;
        state ^= state << 17;
        bytes.push((state & 0xff) as u8);
        state = state.wrapping_add(counter);
    }
    bytes
}

#[test]
fn random_bytes_exact() {
    assert_eq!(fill_random_bytes(1, 0, 1), vec![0x41]);
    assert_eq!(fill_random_bytes(0, 0, 3), vec![0, 0, 0]);
    assert_eq!(fill_random_bytes(0, 1, 0), Vec::<u8>::new());
    for (seed, counter) in [(1u64, 1u64), (u64::MAX, u64::MAX), (0xdead_beef, 7)] {
        assert_eq!(fill_random_bytes(seed, counter, 16), expected_bytes(seed, counter, 16));
    }
}

#[test]
fn hex_and_short_ids_exact() {
    let bytes = expected_bytes(0xdead_beef, 7, 16);
    let hex: String = bytes.iter().map(|b| format!("{:02x}", b)).collect();
    assert_eq!(generate_random_hex(0xdead_beef, 7), hex);
    assert_eq!(generate_random_hex(0, 0), "00000000000000000000000000000000");

    const CHARS: &[u8] = b"0123456789ABCDEFGHIJKLMNOPQRSTUVWXYZabcdefghijklmnopqrstuvwxyz";
    let short: String = expected_bytes(0xdead_beef, 7, 12)
        .iter()
        .map(|b| CHARS[(*b as usize) % CHARS.len()] as char)
        .collect();
    assert_eq!(generate_short_id(0xdead_beef, 7), short);
    assert_eq!(generate_short_id(0, 0), "000000000000");
    assert_eq!(generate_prefixed_id("usr", 0, 0), "usr_000000000000");
    assert_eq!(generate_prefixed_id("", 0, 0), "_000000000000");
}

#[test]
fn uuid_like_exact() {
    assert_eq!(generate_uuid_like(0, 0), "00000000-0000-4000-8000-000000000000");
    let mut bytes = expected_bytes(0xdead_beef, 7, 16);
    bytes[6] = (bytes[6] & 0x0f) | 0x40;
    bytes[8] = (bytes[8] & 0x3f) | 0x80;
    let hex: Vec<String> = bytes.iter().map(|b| format!("{:02x}", b)).collect();
    let expected = format!(
        "{}-{}-{}-{}-{}",
        hex[0..4].concat(),
        hex[4..6].concat(),
        hex[6..8].concat(),
        hex[8..10].concat(),
        hex[10..16].concat()
    );
    let id = generate_uuid_like(0xdead_beef, 7);
    assert_eq!(id, expected);
    assert_eq!(id.as_bytes()[14], b'4');
    assert!(matches!(id.as_bytes()[19], b'8' | b'9' | b'a' | b'b'));
}

#[test]
fn generate_id_follows_the_format() {
    let source = Entropy { timestamp: 1_700_000_000_123, counter: 42, seed: 0xdead_beef };
    assert_eq!(generate_id(IdFormat::Timestamp, source), "17000000001230000042");
    assert_eq!(generate_id(IdFormat::Prefixed, source), "17000000001230000042");
    assert_eq!(generate_id(IdFormat::RandomHex, source), generate_random_hex(0xdead_beef, 42));
    assert_eq!(generate_id(IdFormat::Short, source), generate_short_id(0xdead_beef, 42));
}

#[test]
fn generator_defaults_and_prefix() {
    let source = Entropy { timestamp: 7, counter: 1, seed: 0 };
    assert_eq!(IdGenerator::new().generate(source), generate_short_id(0, 1));
    assert_eq!(IdGenerator::default().generate(source), generate_short_id(0, 1));
    let stamped = IdGenerator::new().with_format(IdFormat::Timestamp).with_prefix("evt");
    assert_eq!(stamped.generate(source), "evt_00000000000070000001");
}

#[test]
fn test_timestamp_ids_are_sortable() {
    let first = entropy(0);
    let id1 = generate_timestamp_id(first.timestamp, first.counter);
    let id2 = generate_timestamp_id(first.timestamp + 1, first.counter + 1);
    assert!(id1 < id2);
}
