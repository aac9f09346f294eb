use musli::context::{Context, Message, Same, TypeHint};
use musli::de::{LimitedStorageDecoder, SizeHint, StorageDecoder, StrVisitor};
use musli::options::{ByteOrder, Integer, Options, Width};
use musli::reader::SliceReader;
use musli::value_visitor::ValueVisitor;

fn variable() -> Options {
    Options::new()
}

fn fixed_le() -> Options {
    Options::new()
        .with_integer(Integer::Fixed)
        .with_length(Integer::Fixed)
        .with_length_width(Width::U32)
}

fn fixed_be() -> Options {
    fixed_le().with_byte_order(ByteOrder::BigEndian)
}

struct Len;

impl<'de> ValueVisitor<'de, Same, [u8]> for Len {
    type Ok = Vec<u8>;

    fn expecting(&self) -> String {
        String::from("bytes")
    }

    fn visit_borrowed(self, _cx: &Same, value: &'de [u8]) -> Result<Vec<u8>, Message> {
        Ok(value.to_vec())
    }
}

struct Text;

impl<'de> ValueVisitor<'de, Same, str> for Text {
    type Ok = String;

    fn expecting(&self) -> String {
        String::from("a string")
    }

    fn visit_borrowed(self, _cx: &Same, value: &'de str) -> Result<String, Message> {
        Ok(value.to_string())
    }

    fn visit_ref(self, _cx: &Same, value: &str) -> Result<String, Message> {
        Ok(format!("ref:{value}"))
    }
}

struct Refuses;

impl<'de> ValueVisitor<'de, Same, [u8]> for Refuses {
    type Ok = ();

    fn expecting(&self) -> String {
        String::from("nothing")
    }
}

#[test]
fn variable_u16_decodes_continuation_bytes() {
    let data = [0xac, 0x02, 0x07];
    let mut reader = SliceReader::new(&data);
    let v = StorageDecoder::new(&Same, &mut reader, variable()).decode_u16();
    assert!(matches!(v, Ok(300)));
    assert_eq!(reader.remaining(), 1);
}

#[test]
fn variable_single_byte() {
    let data = [0x7f];
    let mut reader = SliceReader::new(&data);
    assert!(matches!(StorageDecoder::new(&Same, &mut reader, variable()).decode_u64(), Ok(127)));
    assert_eq!(reader.remaining(), 0);
}

#[test]
fn variable_u8_wide_value_wraps_into_the_type() {
    // 0x80 0x03 is 384, which is 128 modulo 256.
    let data = [0x80, 0x03];
    let mut reader = SliceReader::new(&data);
    let d = StorageDecoder::new(&Same, &mut reader, variable());
    let v = musli::integers::decode_unsigned(d.cx, d.reader, d.options, 8);
    assert!(matches!(v, Ok(128)));
}

#[test]
fn variable_too_many_continuation_bytes() {
    // A u16 takes at most three bytes.
    let data = [0x80, 0x80, 0x80, 0x01];
    let mut reader = SliceReader::new(&data);
    let v = StorageDecoder::new(&Same, &mut reader, variable()).decode_u16();
    assert!(matches!(v, Err(Message::BitsOverflow)));
    assert_eq!(reader.remaining(), 1);
}

#[test]
fn variable_runs_out_of_input() {
    let data = [0x80, 0x80];
    let mut reader = SliceReader::new(&data);
    let v = StorageDecoder::new(&Same, &mut reader, variable()).decode_u32();
    assert!(matches!(v, Err(Message::SliceUnderflow { n: 1, remaining: 0 })));
    assert_eq!(reader.remaining(), 0);
}

#[test]
fn variable_u128_maximum() {
    let mut data = vec![0xff; 18];
    data.push(0x03);
    let mut reader = SliceReader::new(&data);
    let v = StorageDecoder::new(&Same, &mut reader, variable()).decode_u128();
    assert!(matches!(v, Ok(u128::MAX)));
}

#[test]
fn variable_signed_is_zigzag() {
    for (byte, expected) in [(0u8, 0i32), (1, -1), (2, 1), (3, -2), (4, 2)] {
        let data = [byte];
        let mut reader = SliceReader::new(&data);
        let v = StorageDecoder::new(&Same, &mut reader, variable()).decode_i32();
        assert!(matches!(v, Ok(x) if x == expected));
    }
}

#[test]
fn variable_i64_extremes() {
    let mut data = vec![0xff; 9];
    data.push(0x01);
    let mut reader = SliceReader::new(&data);
    assert!(matches!(StorageDecoder::new(&Same, &mut reader, variable()).decode_i64(), Ok(i64::MIN)));
    let mut data = vec![0xfe];
    data.extend([0xff; 8]);
    data.push(0x01);
    let mut reader = SliceReader::new(&data);
    assert!(matches!(StorageDecoder::new(&Same, &mut reader, variable()).decode_i64(), Ok(i64::MAX)));
}

#[test]
fn fixed_little_and_big_endian() {
    let data = [0x01, 0x02, 0x03, 0x04];
    let mut reader = SliceReader::new(&data);
    assert!(matches!(StorageDecoder::new(&Same, &mut reader, fixed_le()).decode_u32(), Ok(0x0403_0201)));
    let mut reader = SliceReader::new(&data);
    assert!(matches!(StorageDecoder::new(&Same, &mut reader, fixed_be()).decode_u32(), Ok(0x0102_0304)));
    let mut reader = SliceReader::new(&data);
    assert!(matches!(StorageDecoder::new(&Same, &mut reader, fixed_be()).decode_u16(), Ok(0x0102)));
    assert_eq!(reader.remaining(), 2);
}

#[test]
fn fixed_u128_and_i128() {
    let data = [0xff; 16];
    let mut reader = SliceReader::new(&data);
    assert!(matches!(StorageDecoder::new(&Same, &mut reader, fixed_le()).decode_u128(), Ok(u128::MAX)));
    let mut reader = SliceReader::new(&data);
    assert!(matches!(StorageDecoder::new(&Same, &mut reader, fixed_le()).decode_i128(), Ok(-1)));
}

#[test]
fn fixed_signed_is_twos_complement() {
    let data = [0x00, 0x80];
    let mut reader = SliceReader::new(&data);
    assert!(matches!(StorageDecoder::new(&Same, &mut reader, fixed_le()).decode_i16(), Ok(i16::MIN)));
    let data = [0xfe, 0xff, 0xff, 0xff];
    let mut reader = SliceReader::new(&data);
    assert!(matches!(StorageDecoder::new(&Same, &mut reader, fixed_le()).decode_i32(), Ok(-2)));
}

#[test]
fn fixed_underflow_consumes_nothing() {
    let data = [0x01, 0x02, 0x03];
    let mut reader = SliceReader::new(&data);
    let v = StorageDecoder::new(&Same, &mut reader, fixed_le()).decode_u64();
    assert!(matches!(v, Err(Message::SliceUnderflow { n: 8, remaining: 3 })));
    assert_eq!(reader.remaining(), 3);
}

#[test]
fn fixed_length_widths() {
    let data = [0x05, 0x00, 0x00, 0x00];
    let mut reader = SliceReader::new(&data);
    assert!(matches!(StorageDecoder::new(&Same, &mut reader, fixed_le()).decode_usize(), Ok(5)));
    let data = [0x00, 0x05];
    let options = fixed_be().with_length_width(Width::U16);
    let mut reader = SliceReader::new(&data);
    assert!(matches!(StorageDecoder::new(&Same, &mut reader, options).decode_usize(), Ok(5)));
    let data = [0x09];
    let options = fixed_le().with_length_width(Width::U8);
    let mut reader = SliceReader::new(&data);
    assert!(matches!(StorageDecoder::new(&Same, &mut reader, options).decode_usize(), Ok(9)));
}

#[test]
fn isize_is_twos_complement_of_usize() {
    let data = [0xff; 8];
    let options = fixed_le().with_length_width(Width::U64);
    let mut reader = SliceReader::new(&data);
    assert!(matches!(StorageDecoder::new(&Same, &mut reader, options).decode_isize(), Ok(-1)));
}

#[test]
fn i8_is_a_raw_byte() {
    let data = [0xff, 0x7f];
    let mut reader = SliceReader::new(&data);
    assert!(matches!(StorageDecoder::new(&Same, &mut reader, variable()).decode_i8(), Ok(-1)));
    assert!(matches!(StorageDecoder::new(&Same, &mut reader, variable()).decode_i8(), Ok(127)));
    assert!(matches!(
        StorageDecoder::new(&Same, &mut reader, variable()).decode_u8(),
        Err(Message::SliceUnderflow { n: 1, remaining: 0 })
    ));
}

#[test]
fn bool_accepts_zero_and_one_only() {
    let data = [0, 1, 2];
    let mut reader = SliceReader::new(&data);
    assert!(matches!(StorageDecoder::new(&Same, &mut reader, variable()).decode_bool(), Ok(false)));
    assert!(matches!(StorageDecoder::new(&Same, &mut reader, variable()).decode_bool(), Ok(true)));
    assert!(matches!(
        StorageDecoder::new(&Same, &mut reader, variable()).decode_bool(),
        Err(Message::BadBoolean { actual: 2 })
    ));
}

#[test]
fn char_must_be_a_scalar_value() {
    let data = [0x41, 0x00, 0x00, 0x00];
    let mut reader = SliceReader::new(&data);
    assert!(matches!(StorageDecoder::new(&Same, &mut reader, fixed_le()).decode_char(), Ok('A')));
    let data = [0x00, 0xd8, 0x00, 0x00];
    let mut reader = SliceReader::new(&data);
    assert!(matches!(
        StorageDecoder::new(&Same, &mut reader, fixed_le()).decode_char(),
        Err(Message::BadCharacter { actual: 0xd800 })
    ));
}

#[test]
fn unit_is_an_empty_sequence() {
    let data = [0x00, 0x02];
    let mut reader = SliceReader::new(&data);
    assert!(StorageDecoder::new(&Same, &mut reader, variable()).decode_unit().is_ok());
    assert!(matches!(
        StorageDecoder::new(&Same, &mut reader, variable()).decode_unit(),
        Err(Message::ExpectedEmptySequence { actual: 2 })
    ));
}

#[test]
fn usize_overflow_of_fixed_length() {
    if usize::BITS == 32 {
        let data = [0x00, 0x00, 0x00, 0x00, 0x01, 0x00, 0x00, 0x00];
        let options = fixed_le().with_length_width(Width::U64);
        let mut reader = SliceReader::new(&data);
        assert!(matches!(
            StorageDecoder::new(&Same, &mut reader, options).decode_usize(),
            Err(Message::UsizeOverflow)
        ));
    }
}

#[test]
fn option_is_present_on_one() {
    let data = [0x01, 0x05, 0x00];
    let mut reader = SliceReader::new(&data);
    match StorageDecoder::new(&Same, &mut reader, variable()).decode_option() {
        Ok(Some(d)) => assert!(matches!(d.decode_u8(), Ok(5))),
        _ => panic!("expected a present value"),
    }
    assert!(matches!(StorageDecoder::new(&Same, &mut reader, variable()).decode_option(), Ok(None)));
    assert_eq!(reader.remaining(), 0);
}

#[test]
fn bytes_and_strings_are_length_prefixed() {
    let data = [0x03, b'a', b'b', b'c', 0x02, 0xff, 0xfe, 0x09];
    let mut reader = SliceReader::new(&data);
    let s = StorageDecoder::new(&Same, &mut reader, variable()).decode_string(Text);
    assert!(matches!(s, Ok(ref t) if t == "abc"));
    let r = StorageDecoder::new(&Same, &mut reader, variable()).decode_string(Text);
    assert!(matches!(r, Err(Message::Custom)));
    let b = StorageDecoder::new(&Same, &mut reader, variable()).decode_bytes(Len);
    assert!(matches!(b, Err(Message::SliceUnderflow { n: 9, remaining: 0 })));
}

#[test]
fn bytes_are_handed_to_the_visitor() {
    let data = [0x02, 0x10, 0x20, 0x30];
    let mut reader = SliceReader::new(&data);
    let b = StorageDecoder::new(&Same, &mut reader, variable()).decode_bytes(Len);
    assert!(matches!(b, Ok(ref v) if v == &vec![0x10, 0x20]));
    assert_eq!(reader.remaining(), 1);
}

#[test]
fn default_visitor_refuses_references() {
    let data = [0x01, 0x10];
    let mut reader = SliceReader::new(&data);
    let r = StorageDecoder::new(&Same, &mut reader, variable()).decode_bytes(Refuses);
    assert!(matches!(r, Err(Message::BadVisitorType { ref expecting }) if expecting == "nothing"));
    let r = Refuses.visit_owned(&Same, vec![1, 2]);
    assert!(matches!(r, Err(Message::BadVisitorType { .. })));
    let r = Refuses.visit_any(&Same, (), TypeHint::Bool);
    assert!(matches!(r, Err(Message::UnsupportedType { hint: TypeHint::Bool, .. })));
}

#[test]
fn array_reads_exactly_n_bytes() {
    let data = [1, 2, 3];
    let mut reader = SliceReader::new(&data);
    let a = StorageDecoder::new(&Same, &mut reader, variable()).decode_array::<2>();
    assert!(matches!(a, Ok([1, 2])));
    let a = StorageDecoder::new(&Same, &mut reader, variable()).decode_array::<2>();
    assert!(matches!(a, Err(Message::SliceUnderflow { n: 2, remaining: 1 })));
}

#[test]
fn sequence_hands_out_exactly_the_announced_items() {
    let data = [0x02, 0x0a, 0x0b, 0x0c];
    let mut reader = SliceReader::new(&data);
    let mut seq: LimitedStorageDecoder<'_, '_, '_, Same> =
        StorageDecoder::new(&Same, &mut reader, variable()).decode_sequence().ok().unwrap();
    assert_eq!(seq.size_hint(), SizeHint::Exact(2));
    let mut items = Vec::new();
    while let Ok(Some(item)) = seq.decode_next() {
        items.push(item.decode_u8().ok().unwrap());
    }
    assert_eq!(items, vec![0x0a, 0x0b]);
    assert_eq!(seq.remaining, 0);
    assert!(seq.end().is_ok());
    assert_eq!(reader.remaining(), 1);
}

#[test]
fn struct_fields_run_out() {
    let data = [0x01, 0x00, 0x07];
    let mut reader = SliceReader::new(&data);
    let mut st = StorageDecoder::new(&Same, &mut reader, variable()).decode_struct(None).ok().unwrap();
    {
        let name = st.decode_struct_field_name().ok().unwrap();
        assert!(matches!(name.decode_u8(), Ok(0)));
    }
    {
        let value = st.decode_struct_field_value().ok().unwrap();
        assert!(matches!(value.decode_u8(), Ok(7)));
    }
    assert!(matches!(st.decode_struct_field_name(), Err(Message::RanOutOfStructFields)));
}

#[test]
fn map_entries_then_none() {
    let data = [0x01, 0x03, 0x04];
    let mut reader = SliceReader::new(&data);
    let map = StorageDecoder::new(&Same, &mut reader, variable()).decode_map().ok().unwrap();
    let mut entries = map.into_map_entries().ok().unwrap();
    let key = entries.decode_map_entry_key().ok().unwrap().unwrap();
    assert!(matches!(key.decode_u8(), Ok(3)));
    let value = entries.decode_map_entry_value().ok().unwrap();
    assert!(matches!(value.decode_u8(), Ok(4)));
    assert!(matches!(entries.skip_map_entry_value(), Ok(false)));
    assert!(matches!(entries.decode_map_entry_key(), Ok(None)));
}

#[test]
fn pack_and_variant_read_in_sequence() {
    let data = [0x01, 0x02, 0x03];
    let mut reader = SliceReader::new(&data);
    let mut pack = StorageDecoder::new(&Same, &mut reader, variable()).decode_pack().ok().unwrap();
    assert!(matches!(pack.decode_next().ok().unwrap().decode_u8(), Ok(1)));
    let mut variant = pack.decode_variant().ok().unwrap();
    assert!(matches!(variant.decode_tag().ok().unwrap().decode_u8(), Ok(2)));
    assert!(matches!(variant.decode_value().ok().unwrap().decode_u8(), Ok(3)));
    assert!(matches!(variant.skip_value(), Ok(false)));
    assert!(variant.end().is_ok());
    assert_eq!(reader.remaining(), 0);
}

#[test]
fn context_reports_messages_as_is() {
    let e = Same.message_at(&(), Message::BitsOverflow);
    assert!(matches!(e, Message::BitsOverflow));
    assert!(matches!(Same.custom_at(&(), 5u8), Message::Custom));
}

#[test]
fn appended_bytes_do_not_change_a_decoded_integer() {
    // Law: decoding is self-delimiting.
    let short = [0xac, 0x02];
    let long = [0xac, 0x02, 0xff, 0xff];
    let mut r1 = SliceReader::new(&short);
    let mut r2 = SliceReader::new(&long);
    let a = StorageDecoder::new(&Same, &mut r1, variable()).decode_u32();
    let b = StorageDecoder::new(&Same, &mut r2, variable()).decode_u32();
    assert!(matches!((a, b), (Ok(300), Ok(300))));
    assert_eq!(short.len() - r1.remaining(), long.len() - r2.remaining());
}

#[test]
fn owned_bytes_are_checked_before_they_become_a_string() {
    let ok = StrVisitor(Text).visit_owned(&Same, vec![b'h', b'i']);
    assert!(matches!(ok, Ok(ref t) if t == "ref:hi"));
    let bad = StrVisitor(Text).visit_owned(&Same, vec![0xc3]);
    assert!(matches!(bad, Err(Message::Custom)));
    let by_ref = StrVisitor(Text).visit_ref(&Same, &[0xe2, 0x82, 0xac]);
    assert!(matches!(by_ref, Ok(ref t) if t == "ref:\u{20ac}"));
}

struct RefOnly;

impl<'de> ValueVisitor<'de, Same, [u8]> for RefOnly {
    type Ok = usize;

    fn expecting(&self) -> String {
        String::from("a reference")
    }

    fn visit_ref(self, _cx: &Same, value: &[u8]) -> Result<usize, Message> {
        Ok(value.len() + 100)
    }
}

#[test]
fn invalid_utf8_is_refused_before_the_visitor() {
    let data = [0x02, 0xc3, 0x28];
    let mut reader = SliceReader::new(&data);
    let r = StorageDecoder::new(&Same, &mut reader, variable()).decode_string(Text);
    assert!(matches!(r, Err(Message::Custom)));
    assert_eq!(reader.remaining(), 0);
}

#[test]
fn strings_are_handed_over_borrowed() {
    let data = [0x02, 0x68, 0x69, 0x07];
    let mut reader = SliceReader::new(&data);
    let r = StorageDecoder::new(&Same, &mut reader, variable()).decode_string(Text);
    assert!(matches!(r, Ok(ref t) if t == "hi"));
    assert_eq!(reader.remaining(), 1);
}

#[test]
fn default_borrowed_and_owned_visits_go_to_visit_ref() {
    let data = [0x03, 1, 2, 3];
    let mut reader = SliceReader::new(&data);
    let r = StorageDecoder::new(&Same, &mut reader, variable()).decode_bytes(RefOnly);
    assert!(matches!(r, Ok(103)));
    assert!(matches!(RefOnly.visit_owned(&Same, vec![9, 9]), Ok(102)));
}

#[test]
fn size_hint_counts_down_to_none() {
    // Law: a limited decoder hands out exactly the announced items, its hint counting down.
    let data = [0x03, 0x01, 0x02, 0x03, 0x04];
    let mut reader = SliceReader::new(&data);
    let mut map = StorageDecoder::new(&Same, &mut reader, variable()).decode_map().ok().unwrap();
    for k in 0..5usize {
        let left = 3usize.saturating_sub(k);
        assert_eq!(map.size_hint(), SizeHint::Exact(left));
        let item = map.decode_entry().ok().unwrap();
        assert_eq!(item.is_some(), k < 3);
        if let Some(d) = item {
            assert!(matches!(d.decode_u8(), Ok(v) if v as usize == k + 1));
        }
    }
    assert_eq!(map.size_hint(), SizeHint::Exact(0));
    assert_eq!(reader.remaining(), 1);
}

#[test]
fn pack_items_decode_back_to_back() {
    // Law: pack items follow one another with no framing between them.
    let data = [0x05, 0x01, 0x02, 0x03, 0x04, 0xee];
    let mut reader = SliceReader::new(&data);
    let mut pack = StorageDecoder::new(&Same, &mut reader, fixed_le()).decode_pack().ok().unwrap();
    assert!(matches!(pack.decode_next().ok().unwrap().decode_u8(), Ok(5)));
    assert!(matches!(pack.decode_next().ok().unwrap().decode_u32(), Ok(0x0403_0201)));
    assert!(pack.end().is_ok());
    assert_eq!(reader.remaining(), 1);
}

#[test]
fn messages_read_as_text() {
    assert_eq!(
        Message::ExpectedEmptySequence { actual: 120 }.to_string(),
        "Expected empty sequence, but was 120"
    );
    assert_eq!(Message::BadBoolean { actual: 0x0a }.to_string(), "Bad boolean byte 0x0a");
    assert_eq!(Message::BadBoolean { actual: 0xff }.to_string(), "Bad boolean byte 0xff");
    assert_eq!(Message::BadCharacter { actual: 0xd800 }.to_string(), "Bad character number 55296");
    assert_eq!(
        Message::SliceUnderflow { n: 9, remaining: 0 }.to_string(),
        "Tried to read 9 bytes from slice, with 0 byte remaining"
    );
    assert_eq!(
        Message::UnsupportedType { hint: TypeHint::Mapping, expecting: String::from("a number") }
            .to_string(),
        "Got unsupported type `map`, but expected a number"
    );
    assert_eq!(
        Message::BadVisitorType { expecting: String::from("bytes") }.to_string(),
        "Bad reference type any value, expected bytes"
    );
    assert_eq!(Message::Custom.to_string(), "Custom error");
}
