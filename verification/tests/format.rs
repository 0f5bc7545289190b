use bincode::bridge::{decode_option_variant, decode_variant_index, reject_self_describing};
use bincode::codec::Codec;
use bincode::cont::{borrow_decode_bytes, decode_byte_vec, encode_byte_slice};
use bincode::config::Config;
use bincode::de::{DecoderImpl, SliceReader, WithContext};
use bincode::enc::{EncoderImpl, VecWriter};
use bincode::error::DecodeError;
use bincode::text::borrow_decode_str;
use bincode::{borrow_decode_from_slice, decode_from_slice, decode_from_slice_with_context, encode_to_vec};
use std::borrow::Cow;

fn configs() -> Vec<Config> {
    vec![
        Config::standard(),
        Config::standard().with_fixed_int_encoding(),
        Config::standard().with_big_endian(),
        Config::standard().with_big_endian().with_fixed_int_encoding(),
    ]
}

fn round_trip<T: Codec + PartialEq + std::fmt::Debug + Clone>(v: T) {
    for cfg in configs() {
        let bytes = encode_to_vec(v.clone(), cfg).unwrap();
        let (back, consumed): (T, usize) = decode_from_slice(&bytes, cfg).unwrap();
        assert_eq!(back, v);
        assert_eq!(consumed, bytes.len());
    }
}

#[test]
fn round_trip_unsigned() {
    round_trip(0u8);
    round_trip(255u8);
    round_trip(0u16);
    round_trip(250u16);
    round_trip(251u16);
    round_trip(u16::MAX);
    round_trip(0u32);
    round_trip(65536u32);
    round_trip(u32::MAX);
    round_trip(0u64);
    round_trip(u64::MAX);
    round_trip(0usize);
    round_trip(usize::MAX);
}

#[test]
fn round_trip_signed() {
    round_trip(0i8);
    round_trip(-1i8);
    round_trip(i8::MIN);
    round_trip(i8::MAX);
    round_trip(i16::MIN);
    round_trip(i16::MAX);
    round_trip(-5i32);
    round_trip(i32::MIN);
    round_trip(i64::MIN);
    round_trip(i64::MAX);
    round_trip(-1234567890123i64);
}

#[test]
fn round_trip_misc() {
    round_trip(true);
    round_trip(false);
    round_trip('a');
    round_trip('\u{1F600}');
    round_trip(String::from("hello"));
    round_trip(String::from(""));
    round_trip(String::from("héllo wörld \u{1F600}"));
    round_trip(vec![1u8, 2, 3]);
    round_trip(Vec::<u8>::new());
    round_trip(vec![1u32, 2, 70000]);
    round_trip(vec![vec![1u8], vec![], vec![2, 3]]);
    round_trip(Option::<u32>::None);
    round_trip(Some(77u32));
    round_trip((5u32, String::from("x")));
    round_trip(vec![(1u32, 2u64), (3, 4)]);
}

#[test]
fn variable_width_layout_is_canonical() {
    let cfg = Config::standard();
    // 7 fits a single byte: the tagged two-byte form is non-minimal.
    let bytes = vec![251u8, 7, 0];
    let r: Result<(u64, usize), DecodeError> = decode_from_slice(&bytes, cfg);
    assert_eq!(r, Err(DecodeError::InvalidValue));
    // 251 needs the two-byte form.
    let bytes = encode_to_vec(251u64, cfg).unwrap();
    assert_eq!(bytes, vec![251u8, 251, 0]);
    // The unused tags are rejected.
    for tag in [254u8, 255] {
        let r: Result<(u64, usize), DecodeError> = decode_from_slice(&[tag, 0, 0], cfg);
        assert_eq!(r, Err(DecodeError::InvalidValue));
    }
}

#[test]
fn fixed_width_layouts() {
    let le = Config::standard().with_fixed_int_encoding();
    let be = le.with_big_endian();
    assert_eq!(encode_to_vec(0x0102u16, le).unwrap(), vec![0x02, 0x01]);
    assert_eq!(encode_to_vec(0x0102u16, be).unwrap(), vec![0x01, 0x02]);
    assert_eq!(encode_to_vec(0x01020304u32, be).unwrap(), vec![1, 2, 3, 4]);
}

#[test]
fn truncated_input_is_unexpected_end() {
    let cfg = Config::standard();
    let bytes = encode_to_vec(0x12345678u32, cfg).unwrap();
    let r: Result<(u32, usize), DecodeError> = decode_from_slice(&bytes[..bytes.len() - 1], cfg);
    assert_eq!(r, Err(DecodeError::UnexpectedEnd));
    let r: Result<(u32, usize), DecodeError> = decode_from_slice(&[], cfg);
    assert_eq!(r, Err(DecodeError::UnexpectedEnd));
}

#[test]
fn invalid_values_are_rejected() {
    let cfg = Config::standard();
    // A bool byte beyond 1.
    let r: Result<(bool, usize), DecodeError> = decode_from_slice(&[2], cfg);
    assert_eq!(r, Err(DecodeError::InvalidValue));
    // A surrogate scalar is not a char.
    let bad_char = encode_to_vec(0xD800u32, cfg).unwrap();
    let r: Result<(char, usize), DecodeError> = decode_from_slice(&bad_char, cfg);
    assert_eq!(r, Err(DecodeError::InvalidValue));
    // Invalid UTF-8 in a string body.
    let r: Result<(String, usize), DecodeError> = decode_from_slice(&[2, 0xFF, 0xFE], cfg);
    assert_eq!(r, Err(DecodeError::InvalidValue));
    // A refused self-describing request.
    let r: Result<u32, DecodeError> = reject_self_describing();
    assert_eq!(r, Err(DecodeError::Unsupported));
}

// Concrete scenario: a short byte run with a one-byte count prefix; a tiny
// budget rejects it, a roomy one admits it.
#[test]
fn byte_run_under_budget() {
    let cfg = Config::standard();
    let encoded = encode_to_vec(vec![1u8, 2, 3], cfg).unwrap();
    assert_eq!(encoded, vec![3u8, 1, 2, 3]);

    let tight = cfg.with_limit(2);
    let r: Result<(Vec<u8>, usize), DecodeError> = decode_from_slice(&encoded, tight);
    assert_eq!(r, Err(DecodeError::LimitExceeded));

    let roomy = cfg.with_limit(100);
    let (v, consumed): (Vec<u8>, usize) = decode_from_slice(&encoded, roomy).unwrap();
    assert_eq!(v, vec![1, 2, 3]);
    assert_eq!(consumed, 4);
}

// Budget enforcement: a hostile declared length fails before any element is
// read, with the reader still right after the length prefix.
#[test]
fn hostile_length_fails_before_elements() {
    let cfg = Config::standard().with_limit(1000);
    // Claims to hold 2^40 32-bit integers but carries no bytes at all.
    let mut encoded = encode_to_vec((1u64 << 40) as usize, cfg).unwrap();
    let prefix_len = encoded.len();
    encoded.extend_from_slice(&[0; 8]);
    let reader = SliceReader::new(&encoded);
    let mut d = DecoderImpl::new(reader, cfg, ());
    let r: Result<Vec<u32>, DecodeError> = <Vec<u32> as Codec>::decode(&mut d);
    assert_eq!(r, Err(DecodeError::LimitExceeded));
    assert_eq!(d.reader.pos, prefix_len);
}

// Budget enforcement: nested pre-claims are refunded, so a value whose true
// size fits the budget decodes even though the sum of all coarse pre-claims
// would not.
#[test]
fn refunds_keep_nested_preclaims_from_double_counting() {
    let value = vec![vec![1u8], vec![2], vec![3]];
    let cfg = Config::standard();
    let encoded = encode_to_vec(value.clone(), cfg).unwrap();
    assert_eq!(encoded.len(), 7);
    // The outer pre-claim alone is 3 * 24 = 72 on top of the one-byte count;
    // without refunds the inner claims would push past 74.
    let budget = cfg.with_limit(74);
    let (back, _): (Vec<Vec<u8>>, usize) = decode_from_slice(&encoded, budget).unwrap();
    assert_eq!(back, value);
    // One byte less and the outer pre-claim itself no longer fits.
    let r: Result<(Vec<Vec<u8>>, usize), DecodeError> =
        decode_from_slice(&encoded, cfg.with_limit(72));
    assert_eq!(r, Err(DecodeError::LimitExceeded));
}

// Claim/refund net-zero: after a successful decode the claimed total equals
// the bytes actually consumed, not the coarse pre-claim.
#[test]
fn net_claim_equals_bytes_consumed() {
    let value = vec![1u64, 2, 3, 300];
    let cfg = Config::standard().with_limit(100);
    let encoded = encode_to_vec(value.clone(), cfg).unwrap();
    let reader = SliceReader::new(&encoded);
    let mut d = DecoderImpl::new(reader, cfg, ());
    let back: Vec<u64> = <Vec<u64> as Codec>::decode(&mut d).unwrap();
    assert_eq!(back, value);
    assert_eq!(d.bytes_claimed, encoded.len());
    assert_eq!(d.reader.pos, encoded.len());
}

// Byte-run fast path equivalence: the dedicated byte-run decode and the
// generic element loop read the same value from the same input.
#[test]
fn fast_path_matches_element_loop() {
    let cfg = Config::standard().with_limit(64);
    let encoded = encode_to_vec(vec![9u8, 8, 7, 6], cfg).unwrap();

    let reader = SliceReader::new(&encoded);
    let mut fast = DecoderImpl::new(reader, cfg, ());
    let via_fast = decode_byte_vec(&mut fast).unwrap();

    let reader = SliceReader::new(&encoded);
    let mut slow = DecoderImpl::new(reader, cfg, ());
    let via_loop: Vec<u8> = <Vec<u8> as Codec>::decode(&mut slow).unwrap();

    assert_eq!(via_fast, via_loop);
    assert_eq!(fast.reader.pos, slow.reader.pos);
    assert_eq!(fast.bytes_claimed, slow.bytes_claimed);
}

#[test]
fn encode_fast_path_matches_element_loop() {
    let cfg = Config::standard();
    let data = vec![9u8, 0, 255];
    let via_loop = encode_to_vec(data.clone(), cfg).unwrap();
    let writer = VecWriter::with_capacity(0);
    let mut enc = EncoderImpl::new(writer, cfg);
    encode_byte_slice(&data, &mut enc).unwrap();
    let via_fast = enc.into_writer().collect();
    assert_eq!(via_fast, via_loop);
}

// Concrete scenario: an optional value in both states.
#[test]
fn option_discriminant_bytes() {
    let cfg = Config::standard();
    let absent = encode_to_vec(Option::<u32>::None, cfg).unwrap();
    assert_eq!(absent, vec![0u8]);
    let present = encode_to_vec(Some(7u32), cfg).unwrap();
    assert_eq!(present, vec![1u8, 7]);

    let (v, consumed): (Option<u32>, usize) = decode_from_slice(&absent, cfg).unwrap();
    assert_eq!(v, None);
    assert_eq!(consumed, 1);
    let (v, consumed): (Option<u32>, usize) = decode_from_slice(&present, cfg).unwrap();
    assert_eq!(v, Some(7));
    assert_eq!(consumed, 2);
}

// Concrete scenario: the second of a three-variant enum holding one integer
// field, plus an out-of-range index.
#[test]
fn enum_variant_round_trip() {
    let cfg = Config::standard();
    let writer = VecWriter::with_capacity(0);
    let mut enc = EncoderImpl::new(writer, cfg);
    // Variant 1 of 3, holding 31337u32.
    1u32.encode(&mut enc).unwrap();
    31337u32.encode(&mut enc).unwrap();
    let encoded = enc.into_writer().collect();

    let reader = SliceReader::new(&encoded);
    let mut d = DecoderImpl::new(reader, cfg, ());
    let idx = decode_variant_index(&mut d, 3).unwrap();
    assert_eq!(idx, 1);
    let field: u32 = <u32 as Codec>::decode(&mut d).unwrap();
    assert_eq!(field, 31337);

    // An index past the variant count is an invalid encoding.
    let bad = encode_to_vec(7u32, cfg).unwrap();
    let reader = SliceReader::new(&bad);
    let mut d = DecoderImpl::new(reader, cfg, ());
    assert_eq!(decode_variant_index(&mut d, 3), Err(DecodeError::InvalidValue));

    // The option discriminant helper agrees with the Option codec.
    let reader = SliceReader::new(&[1u8, 7]);
    let mut d = DecoderImpl::new(reader, cfg, ());
    assert!(decode_option_variant(&mut d).unwrap());
    let reader = SliceReader::new(&[9u8]);
    let mut d = DecoderImpl::new(reader, cfg, ());
    assert_eq!(decode_option_variant(&mut d), Err(DecodeError::InvalidValue));
}

// Context threading: a context mutated within the session is seen by the
// caller afterwards, and a substitution wrapper presents an independent
// context to an inner scope without touching the outer one.
#[test]
fn context_flows_through_nested_decodes() {
    let cfg = Config::standard().with_limit(64);
    let encoded = encode_to_vec(42u32, cfg).unwrap();

    let reader = SliceReader::new(&encoded);
    let mut outer = DecoderImpl::new(reader, cfg, 5u64);
    *outer.context() += 1;

    let mut scoped = WithContext::new(outer, String::from("inner"));
    scoped.context().push('!');
    let v: u32 = <u32 as Codec>::decode(scoped.decoder()).unwrap();
    assert_eq!(v, 42);
    assert_eq!(scoped.context().as_str(), "inner!");

    let outer = scoped.finish();
    // The outer context still holds the earlier mutation, untouched by the
    // inner scope; the stream position and budget kept flowing.
    assert_eq!(outer.context, 6);
    assert_eq!(outer.reader.pos, encoded.len());
    assert_eq!(outer.bytes_claimed, encoded.len());
}

#[test]
fn integer_too_wide_for_target_is_invalid() {
    let cfg = Config::standard();
    // A two-byte tagged value beyond u16 decodes as u32, not as u16.
    let bytes = encode_to_vec(0x1_0000u32, cfg).unwrap();
    let r: Result<(u16, usize), DecodeError> = decode_from_slice(&bytes, cfg);
    assert_eq!(r, Err(DecodeError::InvalidValue));
    let (v, _): (u32, usize) = decode_from_slice(&bytes, cfg).unwrap();
    assert_eq!(v, 0x1_0000);
}

#[test]
fn context_entry_point_returns_context() {
    let cfg = Config::standard();
    let bytes = encode_to_vec(9u8, cfg).unwrap();
    let (v, consumed, ctx): (u8, usize, u64) =
        decode_from_slice_with_context(&bytes, cfg, 17u64).unwrap();
    assert_eq!(v, 9);
    assert_eq!(consumed, 1);
    assert_eq!(ctx, 17);
}

#[test]
fn borrowed_byte_run_matches_owned() {
    let cfg = Config::standard().with_limit(16);
    let encoded = encode_to_vec(vec![4u8, 5, 6], cfg).unwrap();
    let reader = SliceReader::new(&encoded);
    let mut d = DecoderImpl::new(reader, cfg, ());
    let s: &[u8] = borrow_decode_bytes(&mut d).unwrap();
    assert_eq!(s, [4, 5, 6]);
    let (owned, _): (Vec<u8>, usize) = decode_from_slice(&encoded, cfg).unwrap();
    assert_eq!(owned, s);
}

#[test]
fn borrowing_decode_is_zero_copy_equal() {
    let cfg = Config::standard();
    let encoded = encode_to_vec(String::from("shared text"), cfg).unwrap();
    let reader = SliceReader::new(&encoded);
    let mut d = DecoderImpl::new(reader, cfg, ());
    let s: &str = borrow_decode_str(&mut d).unwrap();
    assert_eq!(s, "shared text");
    let (owned, _): (String, usize) = decode_from_slice(&encoded, cfg).unwrap();
    assert_eq!(owned, s);
}

#[test]
fn test_cow_round_trip() {
    let start = Cow::Borrowed("Foo");
    let encoded = encode_to_vec(start.clone(), Config::standard()).unwrap();
    let (end, _) = borrow_decode_from_slice(&encoded, Config::standard()).unwrap();
    assert_eq!(start, end);
    let (end, _): (Cow<str>, usize) = decode_from_slice(&encoded, Config::standard()).unwrap();
    assert_eq!(start, end);
}

#[test]
fn length_prefixes_follow_the_width_policy() {
    let fixed = Config::standard().with_fixed_int_encoding();
    let encoded = encode_to_vec(vec![5u8], fixed).unwrap();
    assert_eq!(encoded, vec![1, 0, 0, 0, 0, 0, 0, 0, 5]);
    let (back, _): (Vec<u8>, usize) = decode_from_slice(&encoded, fixed).unwrap();
    assert_eq!(back, vec![5]);
}
