use hsperf::entry::{PerfDataEntry, PerfDataUnit, PerfDataValue, PerfDataVariability};
use hsperf::error::{DecodeError, MetricError};
use hsperf::perfdata::PerfData;
use hsperf::stream::ByteStream;

fn put_i32(out: &mut Vec<u8>, big: bool, v: i32) {
    if big {
        out.extend_from_slice(&v.to_be_bytes());
    } else {
        out.extend_from_slice(&v.to_le_bytes());
    }
}

fn put_i64(out: &mut Vec<u8>, big: bool, v: i64) {
    if big {
        out.extend_from_slice(&v.to_be_bytes());
    } else {
        out.extend_from_slice(&v.to_le_bytes());
    }
}

fn preamble(big: bool, num_entries: i32) -> Vec<u8> {
    let mut out = vec![0xca, 0xfe, 0xc0, 0xc0];
    out.push(if big { 0 } else { 1 });
    out.extend_from_slice(&[2, 0, 1]);
    put_i32(&mut out, big, 4096);
    put_i32(&mut out, big, 0);
    put_i64(&mut out, big, 1234567890123);
    put_i32(&mut out, big, 32);
    put_i32(&mut out, big, num_entries);
    out
}

fn raw_entry(big: bool, tag: u8, unit: u8, variability: u8, name: &[u8], value: &[u8]) -> Vec<u8> {
    let mut out = Vec::new();
    let data_offset = 20 + name.len() as i32;
    put_i32(&mut out, big, data_offset + value.len() as i32);
    put_i32(&mut out, big, 20);
    put_i32(&mut out, big, 0);
    out.push(tag);
    out.push(0);
    out.push(unit);
    out.push(variability);
    put_i32(&mut out, big, data_offset);
    out.extend_from_slice(name);
    out.extend_from_slice(value);
    out
}

fn padded(name: &str) -> Vec<u8> {
    let mut bytes = name.as_bytes().to_vec();
    bytes.push(0);
    while bytes.len() % 4 != 0 {
        bytes.push(0);
    }
    bytes
}

fn long_entry(big: bool, name: &str, v: i64) -> Vec<u8> {
    let mut value = Vec::new();
    put_i64(&mut value, big, v);
    raw_entry(big, b'J', 4, 3, &padded(name), &value)
}

fn text_entry(big: bool, name: &str, text: &str) -> Vec<u8> {
    raw_entry(big, b'B', 5, 1, &padded(name), &padded(text))
}

fn snapshot(big: bool, entries: &[Vec<u8>]) -> Vec<u8> {
    let mut out = preamble(big, entries.len() as i32);
    for e in entries {
        out.extend_from_slice(e);
    }
    out
}

fn decode(bytes: &[u8]) -> Result<PerfData, DecodeError> {
    let mut stream = ByteStream::new(bytes);
    PerfData::new(&mut stream)
}

fn long(v: i64, unit: PerfDataUnit, variability: PerfDataVariability) -> PerfDataEntry {
    PerfDataEntry { value: PerfDataValue::Long(v), unit, variability }
}

#[test]
fn uptime_of_a_minimal_snapshot_is_five() {
    let bytes = snapshot(
        true,
        &[
            long_entry(true, "sun.os.hrt.frequency", 1000),
            long_entry(true, "sun.rt.applicationTime", 5000),
        ],
    );
    assert_eq!(bytes[..5], [0xca, 0xfe, 0xc0, 0xc0, 0]);
    let data = decode(&bytes).unwrap();
    assert_eq!(data.get_uptime(), Ok(5));
    assert_eq!(data.get_val("sun.os.hrt.frequency"), 1000);
    assert_eq!(data.get_val("sun.rt.applicationTime"), 5000);
    assert_eq!(data.entries().as_slice().len(), 2);
}

#[test]
fn decoding_twice_gives_the_same_store() {
    let bytes = snapshot(
        false,
        &[
            long_entry(false, "b.count", -7),
            text_entry(false, "a.name", "first"),
            long_entry(false, "c.count", 9),
        ],
    );
    let first = decode(&bytes).unwrap();
    let second = decode(&bytes).unwrap();
    assert_eq!(first.entries().as_slice(), second.entries().as_slice());
    let broken = &bytes[..bytes.len() - 1];
    assert_eq!(decode(broken).unwrap_err(), decode(broken).unwrap_err());
}

#[test]
fn entries_are_listed_in_ascending_order_of_their_names() {
    let bytes = snapshot(
        true,
        &[
            long_entry(true, "zeta", 1),
            long_entry(true, "alpha", 2),
            long_entry(true, "mid", 3),
            long_entry(true, "alphabet", 4),
            long_entry(true, "Zeta", 5),
        ],
    );
    let data = decode(&bytes).unwrap();
    let names: Vec<&str> = data.entries().as_slice().iter().map(|(n, _)| n.as_str()).collect();
    assert_eq!(names, vec!["Zeta", "alpha", "alphabet", "mid", "zeta"]);
    let values: Vec<i64> = names.iter().map(|n| data.get_val(n)).collect();
    assert_eq!(values, vec![5, 2, 4, 3, 1]);
}

#[test]
fn name_padding_is_discarded() {
    let entry = raw_entry(true, b'J', 2, 2, b"heap.size\0\0\0\0\0\0\0", &42i64.to_be_bytes());
    let data = decode(&snapshot(true, &[entry])).unwrap();
    let listed = data.entries().as_slice();
    assert_eq!(listed.len(), 1);
    assert_eq!(listed[0].0, "heap.size");
    assert_eq!(listed[0].0.len(), 9);
    assert_eq!(listed[0].1, long(42, PerfDataUnit::Bytes, PerfDataVariability::Monotonic));
    assert_eq!(data.get_val("heap.size"), 42);
    assert_eq!(data.get_val("heap.size\0"), 0);
}

#[test]
fn name_ends_at_the_first_null_even_before_more_text() {
    let entry = raw_entry(true, b'J', 1, 1, b"ab\0cd\0", &1i64.to_be_bytes());
    let data = decode(&snapshot(true, &[entry])).unwrap();
    assert_eq!(data.entries().as_slice()[0].0, "ab");
}

#[test]
fn name_without_padding_is_kept_whole() {
    let entry = raw_entry(true, b'J', 1, 1, b"abc", &1i64.to_be_bytes());
    let data = decode(&snapshot(true, &[entry])).unwrap();
    assert_eq!(data.entries().as_slice()[0].0, "abc");
}

#[test]
fn text_value_ends_at_the_first_null() {
    let entry = raw_entry(false, b'B', 5, 1, b"vm.name\0", b"OpenJDK\0\0\0\0\0");
    let data = decode(&snapshot(false, &[entry])).unwrap();
    let listed = data.entries().as_slice();
    assert_eq!(
        listed[0].1,
        PerfDataEntry {
            value: PerfDataValue::String(String::from("OpenJDK")),
            unit: PerfDataUnit::String,
            variability: PerfDataVariability::Constant,
        }
    );
    assert_eq!(data.get_val("vm.name"), 0);
}

#[test]
fn multibyte_text_is_decoded() {
    let entry = raw_entry(true, b'B', 5, 1, "n\u{e9}\0".as_bytes(), "\u{4e16}\u{754c}\0\0".as_bytes());
    let data = decode(&snapshot(true, &[entry])).unwrap();
    let listed = data.entries().as_slice();
    assert_eq!(listed[0].0, "n\u{e9}");
    assert_eq!(listed[0].1.value, PerfDataValue::String(String::from("\u{4e16}\u{754c}")));
}

#[test]
fn both_byte_orders_decode_to_the_same_values() {
    let build = |big: bool| {
        snapshot(
            big,
            &[
                long_entry(big, "sun.os.hrt.frequency", 1_000_000_007),
                long_entry(big, "sun.rt.applicationTime", -81_985_529_216_486_896),
                text_entry(big, "sun.gc.collector.0.name", "PSScavenge"),
            ],
        )
    };
    let big = build(true);
    let little = build(false);
    assert_ne!(big, little);
    let from_big = decode(&big).unwrap();
    let from_little = decode(&little).unwrap();
    assert_eq!(from_big.entries().as_slice(), from_little.entries().as_slice());
    assert_eq!(from_big.get_val("sun.rt.applicationTime"), -81_985_529_216_486_896);
    assert_eq!(from_little.get_val("sun.os.hrt.frequency"), 1_000_000_007);
}

#[test]
fn any_nonzero_flag_selects_little_endian() {
    for flag in [1u8, 2, 0x7f, 0x80, 0xff] {
        let mut bytes = snapshot(false, &[long_entry(false, "x", 0x0102030405060708)]);
        bytes[4] = flag;
        assert_eq!(decode(&bytes).unwrap().get_val("x"), 0x0102030405060708);
    }
    let mut bytes = snapshot(false, &[long_entry(false, "x", 0x0102030405060708)]);
    bytes[4] = 0;
    assert!(decode(&bytes).is_err());
}

#[test]
fn later_entry_replaces_earlier_entry_of_the_same_name() {
    let bytes = snapshot(
        true,
        &[
            long_entry(true, "counter", 1),
            long_entry(true, "other", 10),
            raw_entry(true, b'J', 2, 2, b"counter\0", &2i64.to_be_bytes()),
        ],
    );
    let data = decode(&bytes).unwrap();
    assert_eq!(data.get_val("counter"), 2);
    assert_eq!(data.get_val("other"), 10);
    let listed = data.entries().as_slice();
    assert_eq!(listed.len(), 2);
    assert_eq!(listed[0].0, "counter");
    assert_eq!(listed[0].1, long(2, PerfDataUnit::Bytes, PerfDataVariability::Monotonic));
}

#[test]
fn later_text_replaces_earlier_integer() {
    let bytes =
        snapshot(true, &[long_entry(true, "k", 5), text_entry(true, "k", "five")]);
    let data = decode(&bytes).unwrap();
    assert_eq!(data.get_val("k"), 0);
    assert_eq!(
        data.entries().get("k").unwrap().value,
        PerfDataValue::String(String::from("five"))
    );
}

#[test]
fn wrong_magic_is_rejected() {
    let mut bytes = snapshot(true, &[]);
    bytes[3] = 0xc1;
    assert_eq!(decode(&bytes).unwrap_err(), DecodeError::BadMagic);
    assert_eq!(decode(&[0xc0, 0xc0, 0xfe, 0xca, 1]).unwrap_err(), DecodeError::BadMagic);
    assert_eq!(decode(&[0, 0, 0, 0]).unwrap_err(), DecodeError::BadMagic);
}

#[test]
fn short_streams_are_truncated() {
    assert_eq!(decode(&[]).unwrap_err(), DecodeError::Truncated);
    assert_eq!(decode(&[0xca, 0xfe, 0xc0]).unwrap_err(), DecodeError::Truncated);
    assert_eq!(decode(&[0xca, 0xfe, 0xc0, 0xc0]).unwrap_err(), DecodeError::Truncated);
    let whole = snapshot(true, &[long_entry(true, "abc", 1)]);
    for cut in 4..whole.len() {
        assert_eq!(decode(&whole[..cut]).unwrap_err(), DecodeError::Truncated, "cut at {}", cut);
    }
    assert!(decode(&whole).is_ok());
}

#[test]
fn wrong_magic_consumes_the_four_bytes_of_the_constant() {
    let mut bytes = snapshot(true, &[long_entry(true, "abc", 1)]);
    bytes[0] = 0xcb;
    let mut stream = ByteStream::new(&bytes);
    assert_eq!(PerfData::new(&mut stream).unwrap_err(), DecodeError::BadMagic);
    assert_eq!(stream.remaining(), bytes.len() - 4);
    assert_eq!(stream.read_u8(), Ok(0));
    let only = [1, 2, 3, 4];
    let mut short = ByteStream::new(&only);
    assert_eq!(PerfData::new(&mut short).unwrap_err(), DecodeError::BadMagic);
    assert_eq!(short.remaining(), 0);
}

#[test]
fn failed_decoding_leaves_the_stream_where_it_failed() {
    let whole = snapshot(true, &[long_entry(true, "abc", 1)]);
    assert_eq!(whole.len(), 64);
    let left_after = |cut: usize| {
        let mut stream = ByteStream::new(&whole[..cut]);
        assert_eq!(PerfData::new(&mut stream).unwrap_err(), DecodeError::Truncated);
        stream.remaining()
    };
    // Within the magic constant nothing is read; within the flag, the constant.
    assert_eq!(left_after(3), 3);
    assert_eq!(left_after(4), 0);
    // Within the prologue: up to the field that is cut short.
    assert_eq!(left_after(5), 0);
    assert_eq!(left_after(7), 0);
    assert_eq!(left_after(10), 2);
    assert_eq!(left_after(31), 3);
    // Within the entry header: up to the field that is cut short.
    assert_eq!(left_after(32), 0);
    assert_eq!(left_after(35), 3);
    assert_eq!(left_after(43), 3);
    assert_eq!(left_after(45), 0);
    assert_eq!(left_after(51), 3);
    // Within the name or the value field: in front of that field.
    assert_eq!(left_after(52), 0);
    assert_eq!(left_after(55), 3);
    assert_eq!(left_after(56), 0);
    assert_eq!(left_after(63), 7);
}

#[test]
fn an_entry_at_fault_is_read_before_it_is_rejected() {
    let left_after = |entry: Vec<u8>, tail: usize, expected: DecodeError| {
        let mut bytes = snapshot(true, &[entry]);
        bytes.extend_from_slice(&vec![0x55; tail]);
        let mut stream = ByteStream::new(&bytes);
        assert_eq!(PerfData::new(&mut stream).unwrap_err(), expected);
        stream.remaining()
    };
    // A text that cannot be decoded fails after its field.
    let bad_name = raw_entry(true, b'J', 1, 1, &[0xff, 0, 0, 0], &1i64.to_be_bytes());
    assert_eq!(left_after(bad_name, 2, DecodeError::InvalidText), 8 + 2);
    let bad_value = raw_entry(true, b'B', 5, 1, b"name", &[0xff, 0]);
    assert_eq!(left_after(bad_value, 2, DecodeError::InvalidText), 2);
    // So does a value of an unsupported type or of too few bytes.
    let unsupported = raw_entry(true, b'I', 1, 1, b"name", &[0; 4]);
    assert_eq!(left_after(unsupported, 3, DecodeError::UnsupportedType), 3);
    let short_long = raw_entry(true, b'J', 1, 1, b"name", &[0; 7]);
    assert_eq!(left_after(short_long, 3, DecodeError::MalformedEntry), 3);
    // A negative length fails after the header.
    let mut negative = Vec::new();
    put_i32(&mut negative, true, 28);
    put_i32(&mut negative, true, 21);
    put_i32(&mut negative, true, 0);
    negative.extend_from_slice(&[b'J', 0, 1, 1]);
    put_i32(&mut negative, true, 20);
    assert_eq!(left_after(negative, 9, DecodeError::MalformedEntry), 9);
}

#[test]
fn a_failing_entry_leaves_the_entries_before_it_read() {
    let bytes = snapshot(
        true,
        &[
            long_entry(true, "good", 1),
            raw_entry(true, b'Z', 1, 1, b"bad\0", &[1]),
            long_entry(true, "never", 2),
        ],
    );
    let never = long_entry(true, "never", 2).len();
    let mut stream = ByteStream::new(&bytes);
    assert_eq!(PerfData::new(&mut stream).unwrap_err(), DecodeError::UnsupportedType);
    assert_eq!(stream.remaining(), never);
}

#[test]
fn decoding_stops_after_the_announced_entries() {
    let mut bytes = snapshot(true, &[long_entry(true, "abc", 1)]);
    bytes.extend_from_slice(&[9, 9, 9]);
    let mut stream = ByteStream::new(&bytes);
    let data = PerfData::new(&mut stream).unwrap();
    assert_eq!(data.entries().as_slice().len(), 1);
    assert_eq!(stream.remaining(), 3);
}

#[test]
fn negative_name_length_is_malformed() {
    let mut entry = Vec::new();
    put_i32(&mut entry, true, 28);
    put_i32(&mut entry, true, 21);
    put_i32(&mut entry, true, 0);
    entry.extend_from_slice(&[b'J', 0, 1, 1]);
    put_i32(&mut entry, true, 20);
    entry.extend_from_slice(&[0; 16]);
    let bytes = [preamble(true, 1), entry].concat();
    assert_eq!(decode(&bytes).unwrap_err(), DecodeError::MalformedEntry);
}

#[test]
fn negative_value_length_is_malformed() {
    let mut entry = Vec::new();
    put_i32(&mut entry, false, 23);
    put_i32(&mut entry, false, 20);
    put_i32(&mut entry, false, 0);
    entry.extend_from_slice(&[b'J', 0, 1, 1]);
    put_i32(&mut entry, false, 24);
    entry.extend_from_slice(&[0; 16]);
    let bytes = [preamble(false, 1), entry].concat();
    assert_eq!(decode(&bytes).unwrap_err(), DecodeError::MalformedEntry);
}

#[test]
fn extreme_offsets_are_malformed_not_a_fault() {
    let mut entry = Vec::new();
    put_i32(&mut entry, true, i32::MIN);
    put_i32(&mut entry, true, i32::MAX);
    put_i32(&mut entry, true, 0);
    entry.extend_from_slice(&[b'J', 0, 1, 1]);
    put_i32(&mut entry, true, i32::MIN);
    let bytes = [preamble(true, 1), entry].concat();
    assert_eq!(decode(&bytes).unwrap_err(), DecodeError::MalformedEntry);
}

#[test]
fn huge_lengths_are_truncated_not_a_fault() {
    let mut entry = Vec::new();
    put_i32(&mut entry, true, i32::MAX);
    put_i32(&mut entry, true, i32::MIN);
    put_i32(&mut entry, true, 0);
    entry.extend_from_slice(&[b'J', 0, 1, 1]);
    put_i32(&mut entry, true, i32::MAX);
    entry.extend_from_slice(&[0; 64]);
    let bytes = [preamble(true, 1), entry].concat();
    assert_eq!(decode(&bytes).unwrap_err(), DecodeError::Truncated);
}

#[test]
fn invalid_utf8_in_a_name_is_rejected() {
    let entry = raw_entry(true, b'J', 1, 1, &[b'a', 0xff, 0, 0], &1i64.to_be_bytes());
    assert_eq!(decode(&snapshot(true, &[entry])).unwrap_err(), DecodeError::InvalidText);
}

#[test]
fn invalid_utf8_in_the_padding_is_rejected() {
    let entry = raw_entry(true, b'J', 1, 1, &[b'a', 0, 0xc3, 0x28], &1i64.to_be_bytes());
    assert_eq!(decode(&snapshot(true, &[entry])).unwrap_err(), DecodeError::InvalidText);
}

#[test]
fn invalid_utf8_in_a_text_value_is_rejected() {
    let entry = raw_entry(true, b'B', 5, 1, b"name\0", &[0xe2, 0x82, 0]);
    assert_eq!(decode(&snapshot(true, &[entry])).unwrap_err(), DecodeError::InvalidText);
}

#[test]
fn other_type_tags_are_unsupported() {
    for tag in [b'Z', b'I', b'S', b'C', b'D', b'F', b'V', b'L', b'[', b'b', b'j', 0] {
        let entry = raw_entry(true, tag, 1, 1, b"name\0", &[0; 8]);
        assert_eq!(
            decode(&snapshot(true, &[entry])).unwrap_err(),
            DecodeError::UnsupportedType
        );
    }
}

#[test]
fn integer_value_of_fewer_than_eight_bytes_is_malformed() {
    let entry = raw_entry(true, b'J', 1, 1, b"name\0", &[0; 7]);
    assert_eq!(decode(&snapshot(true, &[entry])).unwrap_err(), DecodeError::MalformedEntry);
}

#[test]
fn integer_value_is_followed_by_the_rest_of_its_field() {
    let mut value = 77i64.to_le_bytes().to_vec();
    value.extend_from_slice(&[0xaa; 8]);
    let bytes = snapshot(
        false,
        &[raw_entry(false, b'J', 1, 1, b"first\0", &value), long_entry(false, "second", 88)],
    );
    let data = decode(&bytes).unwrap();
    assert_eq!(data.get_val("first"), 77);
    assert_eq!(data.get_val("second"), 88);
}

#[test]
fn a_failing_entry_fails_the_whole_decode() {
    let bytes = snapshot(
        true,
        &[
            long_entry(true, "good", 1),
            raw_entry(true, b'Z', 1, 1, b"bad\0", &[1]),
            long_entry(true, "never", 2),
        ],
    );
    assert_eq!(decode(&bytes).unwrap_err(), DecodeError::UnsupportedType);
}

#[test]
fn negative_entry_count_announces_no_entries() {
    let mut bytes = preamble(true, -3);
    bytes.extend_from_slice(&long_entry(true, "ignored", 1));
    let mut stream = ByteStream::new(&bytes);
    let data = PerfData::new(&mut stream).unwrap();
    assert!(data.entries().as_slice().is_empty());
    assert_eq!(stream.remaining(), bytes.len() - 32);
}

#[test]
fn empty_snapshot_has_no_entries() {
    let data = decode(&snapshot(false, &[])).unwrap();
    assert!(data.entries().as_slice().is_empty());
    assert!(data.entries().get("anything").is_none());
}

#[test]
fn absent_names_read_as_zero() {
    let data = decode(&snapshot(true, &[long_entry(true, "present", 3)])).unwrap();
    assert_eq!(data.get_val("absent"), 0);
    assert_eq!(data.get_val(""), 0);
    assert_eq!(data.get_val("presen"), 0);
    assert_eq!(data.get_val("present."), 0);
    assert_eq!(data.get_val("present"), 3);
    assert_eq!(data.get_gc_full_count(), 0);
    assert_eq!(data.get_gc_count(), Ok(0));
    assert_eq!(data.get_used_mem(), Ok(0));
    assert_eq!(data.get_max_mem(), Ok(0));
}

#[test]
fn zero_or_absent_frequency_is_a_missing_prerequisite() {
    let absent = decode(&snapshot(true, &[long_entry(true, "sun.rt.applicationTime", 5000)]))
        .unwrap();
    assert_eq!(absent.get_uptime(), Err(MetricError::MissingPrerequisite));
    assert_eq!(absent.get_full_gc(), Err(MetricError::MissingPrerequisite));
    assert_eq!(absent.get_total_gc(), Err(MetricError::MissingPrerequisite));
    let zero = decode(&snapshot(
        true,
        &[
            long_entry(true, "sun.rt.applicationTime", 5000),
            long_entry(true, "sun.os.hrt.frequency", 0),
        ],
    ))
    .unwrap();
    assert_eq!(zero.get_uptime(), Err(MetricError::MissingPrerequisite));
    let text = decode(&snapshot(
        true,
        &[
            long_entry(true, "sun.rt.applicationTime", 5000),
            text_entry(true, "sun.os.hrt.frequency", "1000"),
        ],
    ))
    .unwrap();
    assert_eq!(text.get_uptime(), Err(MetricError::MissingPrerequisite));
}

#[test]
fn division_rounds_toward_zero() {
    let with = |time: i64, freq: i64| {
        decode(&snapshot(
            false,
            &[
                long_entry(false, "sun.rt.applicationTime", time),
                long_entry(false, "sun.os.hrt.frequency", freq),
            ],
        ))
        .unwrap()
        .get_uptime()
    };
    assert_eq!(with(5999, 1000), Ok(5));
    assert_eq!(with(-5999, 1000), Ok(-5));
    assert_eq!(with(5999, -1000), Ok(-5));
    assert_eq!(with(-5999, -1000), Ok(5));
    assert_eq!(with(0, -3), Ok(0));
    assert_eq!(with(999, 1000), Ok(0));
    assert_eq!(with(i64::MAX, 1), Ok(i64::MAX));
    assert_eq!(with(i64::MIN, 1), Ok(i64::MIN));
    assert_eq!(with(i64::MAX, -1), Ok(-i64::MAX));
    assert_eq!(with(i64::MIN, -1), Err(MetricError::Overflow));
    assert_eq!(with(i64::MIN, 2), Ok(i64::MIN / 2));
}

#[test]
fn collection_times_are_divided_by_the_frequency() {
    let data = decode(&snapshot(
        true,
        &[
            long_entry(true, "sun.os.hrt.frequency", 1000),
            long_entry(true, "sun.gc.collector.0.time", 2500),
            long_entry(true, "sun.gc.collector.1.time", 7600),
            long_entry(true, "sun.gc.collector.0.invocations", 12),
            long_entry(true, "sun.gc.collector.1.invocations", 3),
        ],
    ))
    .unwrap();
    assert_eq!(data.get_full_gc(), Ok(7));
    assert_eq!(data.get_total_gc(), Ok(10));
    assert_eq!(data.get_gc_full_count(), 3);
    assert_eq!(data.get_gc_count(), Ok(15));
}

#[test]
fn total_collection_time_is_exact_where_the_sum_exceeds_64_bits() {
    let data = decode(&snapshot(
        true,
        &[
            long_entry(true, "sun.os.hrt.frequency", 2),
            long_entry(true, "sun.gc.collector.0.time", i64::MAX),
            long_entry(true, "sun.gc.collector.1.time", i64::MAX),
        ],
    ))
    .unwrap();
    assert_eq!(data.get_total_gc(), Ok(i64::MAX));
    let one = decode(&snapshot(
        true,
        &[
            long_entry(true, "sun.os.hrt.frequency", 1),
            long_entry(true, "sun.gc.collector.0.time", i64::MAX),
            long_entry(true, "sun.gc.collector.1.time", 1),
        ],
    ))
    .unwrap();
    assert_eq!(one.get_total_gc(), Err(MetricError::Overflow));
}

#[test]
fn used_memory_is_the_sum_of_five_counters() {
    let data = decode(&snapshot(
        false,
        &[
            long_entry(false, "sun.gc.generation.0.space.0.used", 1),
            long_entry(false, "sun.gc.generation.0.space.1.used", 20),
            long_entry(false, "sun.gc.generation.0.space.2.used", 300),
            long_entry(false, "sun.gc.generation.1.space.0.used", 4000),
            long_entry(false, "sun.gc.metaspace.used", 50000),
            long_entry(false, "sun.gc.generation.1.space.1.used", 600000),
            long_entry(false, "sun.gc.generation.2.space.0.used", 7000000),
        ],
    ))
    .unwrap();
    assert_eq!(data.get_used_mem(), Ok(54321));
}

#[test]
fn sums_that_do_not_fit_overflow() {
    let data = decode(&snapshot(
        true,
        &[
            long_entry(true, "sun.gc.generation.0.space.0.used", i64::MAX),
            long_entry(true, "sun.gc.generation.0.space.1.used", 1),
            long_entry(true, "sun.gc.generation.0.maxCapacity", i64::MIN),
            long_entry(true, "sun.gc.generation.1.maxCapacity", -1),
            long_entry(true, "sun.gc.collector.0.invocations", i64::MAX),
            long_entry(true, "sun.gc.collector.1.invocations", i64::MAX),
        ],
    ))
    .unwrap();
    assert_eq!(data.get_used_mem(), Err(MetricError::Overflow));
    assert_eq!(data.get_max_mem(), Err(MetricError::Overflow));
    assert_eq!(data.get_gc_count(), Err(MetricError::Overflow));
    assert_eq!(data.get_gc_full_count(), i64::MAX);
}

#[test]
fn sums_cancel_before_they_are_narrowed() {
    let data = decode(&snapshot(
        true,
        &[
            long_entry(true, "sun.gc.generation.0.space.0.used", i64::MAX),
            long_entry(true, "sun.gc.generation.0.space.1.used", i64::MAX),
            long_entry(true, "sun.gc.generation.0.space.2.used", i64::MIN),
            long_entry(true, "sun.gc.generation.1.space.0.used", i64::MIN),
            long_entry(true, "sun.gc.metaspace.used", 9),
        ],
    ))
    .unwrap();
    assert_eq!(data.get_used_mem(), Ok(7));
}

#[test]
fn maximum_memory_adds_both_generations() {
    let data = decode(&snapshot(
        true,
        &[
            long_entry(true, "sun.gc.generation.0.maxCapacity", 1000),
            long_entry(true, "sun.gc.generation.1.maxCapacity", 2345),
            text_entry(true, "sun.gc.collector.0.name", "PSScavenge"),
        ],
    ))
    .unwrap();
    assert_eq!(data.get_max_mem(), Ok(3345));
}

#[test]
fn maximum_memory_of_the_whole_heap_collector_is_the_young_capacity() {
    let data = decode(&snapshot(
        true,
        &[
            long_entry(true, "sun.gc.generation.0.maxCapacity", 1000),
            long_entry(true, "sun.gc.generation.1.maxCapacity", 1000),
            text_entry(true, "sun.gc.collector.0.name", "G1 incremental collections"),
        ],
    ))
    .unwrap();
    assert_eq!(data.get_max_mem(), Ok(1000));
}

#[test]
fn maximum_memory_ignores_a_collector_name_that_is_not_text_or_differs() {
    for name_entry in [
        long_entry(true, "sun.gc.collector.0.name", 1),
        text_entry(true, "sun.gc.collector.0.name", "G1 incremental collection"),
        text_entry(true, "sun.gc.collector.0.name", "G1 incremental collections "),
        text_entry(true, "sun.gc.collector.0.name", "g1 incremental collections"),
        text_entry(true, "sun.gc.collector.1.name", "G1 incremental collections"),
    ] {
        let data = decode(&snapshot(
            true,
            &[
                long_entry(true, "sun.gc.generation.0.maxCapacity", 1000),
                long_entry(true, "sun.gc.generation.1.maxCapacity", 1000),
                name_entry,
            ],
        ))
        .unwrap();
        assert_eq!(data.get_max_mem(), Ok(2000));
    }
}

#[test]
fn units_and_variabilities_are_kept_with_each_entry() {
    let bytes = snapshot(
        true,
        &[
            raw_entry(true, b'J', 6, 1, b"hz\0", &1i64.to_be_bytes()),
            raw_entry(true, b'J', 3, 2, b"ticks\0", &2i64.to_be_bytes()),
            raw_entry(true, b'J', 200, 9, b"odd\0", &3i64.to_be_bytes()),
        ],
    );
    let data = decode(&bytes).unwrap();
    let entries = data.entries();
    assert_eq!(
        entries.get("hz"),
        Some(&long(1, PerfDataUnit::Hertz, PerfDataVariability::Constant))
    );
    assert_eq!(
        entries.get("ticks"),
        Some(&long(2, PerfDataUnit::Ticks, PerfDataVariability::Monotonic))
    );
    assert_eq!(
        entries.get("odd"),
        Some(&long(3, PerfDataUnit::Other(200), PerfDataVariability::Constant))
    );
    assert_eq!(entries.get("none"), None);
}
