use radiation::{
    Absorb, AbsorbExt, Codec, Collection, CsBuffer, DynSized, Emit, Limit, ParseErrorKind,
    RadiationBuffer, MALFORMED_TEXT, ZERO_PROGRESS,
};

fn round_trip<'pa, T>(v: &T, buffer: &'pa mut Vec<u8>) -> (usize, T)
where
    T: Absorb<'pa> + Emit,
{
    v.emit(buffer);
    let (rest, back) = T::absorb(buffer, &Limit::Unlimited).unwrap();
    (rest.len(), back)
}

#[test]
fn integers_are_big_endian() {
    assert_eq!(0x1234u16.chain(vec![]), vec![0x12, 0x34]);
    assert_eq!(0x12345678u32.chain(vec![]), vec![0x12, 0x34, 0x56, 0x78]);
    assert_eq!(
        0x0102030405060708u64.chain(vec![]),
        vec![1, 2, 3, 4, 5, 6, 7, 8]
    );
    assert_eq!((-2i16).chain(vec![]), vec![0xff, 0xfe]);
    assert_eq!((-1i8).chain(vec![]), vec![0xff]);
    assert_eq!(i64::absorb_ext(&[0xff; 8]).unwrap(), -1);
    assert_eq!(i32::absorb_ext(&[0x80, 0, 0, 0]).unwrap(), i32::MIN);
}

#[test]
fn values_round_trip() {
    let mut buffer = vec![];
    assert_eq!(round_trip(&-12345i32, &mut buffer), (0, -12345));
    let mut buffer = vec![];
    assert_eq!(round_trip(&(7u8, 0xabcdu16), &mut buffer), (0, (7, 0xabcd)));
    let mut buffer = vec![];
    assert_eq!(round_trip(&Some(5u64), &mut buffer), (0, Some(5)));
    let mut buffer = vec![];
    assert_eq!(round_trip(&None::<u64>, &mut buffer), (0, None));
    let mut buffer = vec![];
    let ok: Result<u8, u16> = Ok(3);
    assert_eq!(round_trip(&ok, &mut buffer), (0, Ok(3)));
    let mut buffer = vec![];
    let err: Result<u8, u16> = Err(0x0102);
    assert_eq!(round_trip(&err, &mut buffer), (0, Err(0x0102)));
    let mut buffer = vec![];
    assert_eq!(round_trip(&vec![1u32, 2, 3], &mut buffer), (0, vec![1, 2, 3]));
    let mut buffer = vec![];
    let text = String::from("héllo");
    assert_eq!(round_trip(&text, &mut buffer), (0, String::from("héllo")));
    let mut buffer = vec![];
    assert_eq!(round_trip(&Box::new(true), &mut buffer), (0, Box::new(true)));
    let mut buffer = vec![];
    assert_eq!(round_trip(&[9u8, 8, 7], &mut buffer), (0, [9, 8, 7]));
    let mut buffer = vec![];
    assert_eq!(
        round_trip(&DynSized(vec![String::from("a"), String::from("bc")]), &mut buffer),
        (0, DynSized(vec![String::from("a"), String::from("bc")]))
    );
}

#[test]
fn sentinels_of_options_and_results() {
    assert_eq!(Some(1u8).chain(vec![]), vec![0xff, 1]);
    assert_eq!(None::<u8>.chain(vec![]), vec![0x00]);
    assert_eq!(Ok::<u8, u8>(1).chain(vec![]), vec![0xff, 1]);
    assert_eq!(Err::<u8, u8>(1).chain(vec![]), vec![0xfe, 1]);
    let err = Option::<u8>::absorb_ext(&[0x01, 0x02]).unwrap_err();
    assert_eq!(err.kind, ParseErrorKind::Tag);
}

#[test]
fn bool_admits_only_two_bytes() {
    assert_eq!(true.chain(vec![]), vec![0xff]);
    assert_eq!(false.chain(vec![]), vec![0x00]);
    assert!(bool::absorb_ext(&[0xff]).unwrap());
    assert!(!bool::absorb_ext(&[0x00]).unwrap());
    let err = bool::absorb_ext(&[0x01]).unwrap_err();
    assert_eq!(err.kind, ParseErrorKind::Tag);
    assert_eq!(err.input, 1);
}

#[test]
fn decode_leaves_what_follows() {
    let (rest, v) = u16::absorb(&[1, 2, 3, 4, 5], &Limit::Unlimited).unwrap();
    assert_eq!(v, 0x0102);
    assert_eq!(rest, &[3, 4, 5]);
}

#[test]
fn short_array_input_is_incomplete() {
    let err = <[u8; 8]>::absorb_ext(&[1, 2, 3, 4, 5]).unwrap_err();
    assert_eq!(err.kind, ParseErrorKind::Eof);
    assert!(err.kind.is_eof());
    assert_eq!(err.input, 5);
    let codec = Codec::<[u8; 8]>::new();
    assert!(codec.decode(&[1, 2, 3, 4, 5]).unwrap().is_none());
}

#[test]
fn frame_length_is_the_payload_length() {
    let bytes = DynSized((1u8, 0x0203u16)).chain(vec![]);
    assert_eq!(bytes, vec![0, 0, 0, 3, 1, 2, 3]);
    let empty = DynSized(()).chain(vec![0xaa]);
    assert_eq!(empty, vec![0xaa, 0, 0, 0, 0]);
}

#[test]
fn frame_with_trailing_bytes_fails() {
    // a frame of three bytes whose payload is a single u16
    let err = DynSized::<u16>::absorb_ext(&[0, 0, 0, 3, 1, 2, 3, 9]).unwrap_err();
    assert_eq!(err.kind, ParseErrorKind::Trailing);
    assert_eq!(err.input, 1);
}

#[test]
fn frame_longer_than_input_is_incomplete() {
    let err = DynSized::<u16>::absorb_ext(&[0, 0, 0, 9, 1, 2]).unwrap_err();
    assert_eq!(err.kind, ParseErrorKind::Eof);
}

#[test]
fn zero_sized_elements_stop_the_fold() {
    let err = Collection::<()>::absorb_ext(&[1, 2, 3]).unwrap_err();
    assert_eq!(err.kind, ParseErrorKind::Custom(ZERO_PROGRESS));
    assert_eq!(err.input, 3);
    let empty = Collection::<()>::absorb_ext(&[]).unwrap();
    assert_eq!(empty, Collection(vec![]));
}

#[test]
fn failing_element_is_wrapped() {
    // three bytes cannot hold two u16 elements
    let err = Collection::<u16>::absorb_ext(&[0, 1, 2]).unwrap_err();
    assert_eq!(err.kind, ParseErrorKind::Many);
    assert_eq!(err.input, 1);
    let cause = err.subsequent.unwrap();
    assert_eq!(cause.kind, ParseErrorKind::Eof);
    assert_eq!(cause.input, 1);
}

#[test]
fn collection_has_no_length_and_vec_has_one() {
    assert_eq!(Collection(vec![1u16, 2]).chain(vec![]), vec![0, 1, 0, 2]);
    assert_eq!(vec![1u16, 2].chain(vec![]), vec![0, 0, 0, 4, 0, 1, 0, 2]);
    assert_eq!(Vec::<u16>::new().chain(vec![]), vec![0, 0, 0, 0]);
    let back = Collection::<u16>::absorb_ext(&[0, 1, 0, 2]).unwrap();
    assert_eq!(back, Collection(vec![1, 2]));
}

#[test]
fn collection_checks_its_input_length() {
    let limit = Limit::new(0, 3, "three", Limit::Unlimited, Limit::Unlimited);
    let err = Collection::<u8>::absorb(&[1, 2, 3, 4], &limit).unwrap_err();
    assert!(matches!(err.kind, ParseErrorKind::Limit(_, "three")));
    assert_eq!(err.input, 4);
    let (rest, c) = Collection::<u8>::absorb(&[1, 2, 3], &limit).unwrap();
    assert!(rest.is_empty());
    assert_eq!(c, Collection(vec![1, 2, 3]));
}

#[test]
fn strings_are_checked_as_utf8() {
    let (rest, s) = <&str>::absorb(b"\x00\x00\x00\x0512345tail", &Limit::Unlimited).unwrap();
    assert_eq!(s, "12345");
    assert_eq!(rest, b"tail");
    let err = String::absorb_ext(b"\x00\x00\x00\x02\xff\xfe").unwrap_err();
    assert_eq!(err.kind, ParseErrorKind::Custom(MALFORMED_TEXT));
    assert_eq!("ab".chain(vec![]), b"\x00\x00\x00\x02ab");
}

#[test]
fn codec_decodes_a_stream() {
    let codec = Codec::<(u8, u16)>::default();
    assert!(codec.decode(&[1, 2]).unwrap().is_none());
    let (n, v) = codec.decode(&[1, 2, 3, 4]).unwrap().unwrap();
    assert_eq!((n, v), (3, (1, 0x0203)));
    let bad = Codec::<bool>::new();
    assert_eq!(bad.decode(&[7]).unwrap_err().kind, ParseErrorKind::Tag);
    let mut out = vec![];
    codec.encode((9, 10), &mut out);
    assert_eq!(out, vec![9, 0, 10]);
}

#[test]
fn fixed_buffer_holds_what_was_written() {
    let mut buffer = CsBuffer::<16>::new();
    DynSized(vec![1u8, 2]).emit(&mut buffer);
    assert_eq!(buffer.pos(), 10);
    assert_eq!(buffer.to_vec(), vec![0, 0, 0, 6, 0, 0, 0, 2, 1, 2]);
    buffer.write_at(0, &[9]);
    assert_eq!(buffer.to_vec()[0], 9);
}

#[test]
fn vec_buffer_overwrites_in_place() {
    let mut buffer = vec![1u8, 2, 3, 4];
    buffer.write_at(1, &[8, 9]);
    assert_eq!(buffer, vec![1, 8, 9, 4]);
    assert_eq!(RadiationBuffer::pos(&buffer), 4);
}

#[test]
fn size_field_is_four_bytes() {
    assert_eq!(5usize.chain(vec![]), vec![0, 0, 0, 5]);
    assert_eq!(usize::absorb_ext(&[0, 0, 1, 0]).unwrap(), 256);
    assert_eq!(usize::absorb_ext(&[0, 0, 1]).unwrap_err().kind, ParseErrorKind::Eof);
}

#[test]
fn bytes_buffer_takes_frames() {
    let mut buffer = bytes::BytesMut::new();
    buffer.extend_from_slice(&[0xaa]);
    DynSized((1u8, String::from("xy"))).emit(&mut buffer);
    assert_eq!(RadiationBuffer::pos(&buffer), 12);
    assert_eq!(&buffer[..], &[0xaa, 0, 0, 0, 7, 1, 0, 0, 0, 2, b'x', b'y']);
    let codec = Codec::<u16>::new();
    codec.encode(0x0102, &mut buffer);
    assert_eq!(&buffer[10..], &[b'x', b'y', 1, 2]);
}

#[test]
fn largest_size_field_is_read_whole() {
    assert_eq!(u32::absorb_ext(&[0xff; 4]).unwrap(), u32::MAX);
    assert_eq!(usize::absorb_ext(&[0xff; 4]).unwrap(), u32::MAX as usize);
    // a frame that announces more bytes than there are asks for more
    let err = Vec::<u8>::absorb_ext(&[0xff, 0xff, 0xff, 0xff, 1]).unwrap_err();
    assert!(err.kind.is_eof());
}

#[test]
fn payload_past_a_complete_frame_is_an_error() {
    // a complete frame of two bytes cannot hold a u32
    let err = DynSized::<u32>::absorb_ext(&[0, 0, 0, 2, 0xaa, 0xbb]).unwrap_err();
    assert_eq!(err.kind, ParseErrorKind::Truncated);
    assert!(!err.kind.is_eof());
    assert_eq!(err.input, 2);
    assert_eq!(err.subsequent.unwrap().kind, ParseErrorKind::Eof);
    let codec = Codec::<DynSized<u32>>::new();
    let err = codec.decode(&[0, 0, 0, 2, 0xaa, 0xbb]).unwrap_err();
    assert_eq!(err.kind, ParseErrorKind::Truncated);
    // a frame that is not all there yet still asks for more
    assert!(codec.decode(&[0, 0, 0, 4, 0xaa, 0xbb]).unwrap().is_none());
}

#[test]
fn vec_frame_length_counts_bytes() {
    let bytes = vec![1u32, 2, 3].chain(vec![0xee]);
    assert_eq!(&bytes[..5], &[0xee, 0, 0, 0, 12]);
    assert_eq!(bytes.len(), 1 + 4 + 12);
}
