use radiation::{
    field_limits, find_variant, variant_tags, Absorb, AbsorbExt, Emit, Limit, ParseError, ParseErrorKind,
    RadiationBuffer,
};

#[derive(Debug, PartialEq, Eq)]
enum SomeEnum {
    A { one: u8, two: u8, three: u16 },
    B(u16),
    C(u32),
}

// custom parser, parse u8 and square the result
fn absorb<'pa>(input: &'pa [u8], limit: &Limit) -> Result<(&'pa [u8], u16), ParseError> {
    let (rest, a) = u8::absorb(input, limit)?;
    Ok((rest, a as u16 * a as u16))
}

fn emit<W: RadiationBuffer>(value: &u16, buffer: &mut W) {
    let a = (*value as f32).sqrt() as u8;
    a.emit(buffer);
}

fn some_enum_tags() -> Vec<u64> {
    variant_tags(&[Some(1), None, None]).unwrap()
}

impl<'pa> Absorb<'pa> for SomeEnum {
    type Model = SomeEnum;

    fn absorb(input: &'pa [u8], limit: &Limit) -> Result<(&'pa [u8], Self), ParseError> {
        let whole_input = input;
        let (input, tag) = u8::absorb(input, &Limit::Unlimited)?;
        let tags = some_enum_tags();
        match find_variant(tag as u64, &tags, "SomeEnum", whole_input.len())? {
            0 => {
                let limits = field_limits(limit, &[None, None, None]);
                let (input, one) = u8::absorb(input, limits[0])?;
                let (input, two) = u8::absorb(input, limits[1])?;
                let (input, three) = absorb(input, limits[2])?;
                Ok((input, SomeEnum::A { one, two, three }))
            }
            1 => {
                // the value is written as text
                let (rest, text) = <&str>::absorb(input, limit)?;
                match text.parse::<u16>() {
                    Ok(v) => Ok((rest, SomeEnum::B(v))),
                    Err(_) => Err(ParseErrorKind::Custom("not a number").error(input.len())),
                }
            }
            _ => {
                let (input, v) = u32::absorb(input, limit)?;
                Ok((input, SomeEnum::C(v)))
            }
        }
    }
}

impl Emit for SomeEnum {
    fn emit<W: RadiationBuffer>(&self, buffer: &mut W) {
        let tags = some_enum_tags();
        match self {
            SomeEnum::A { one, two, three } => {
                (tags[0] as u8).emit(buffer);
                one.emit(buffer);
                two.emit(buffer);
                emit(three, buffer);
            }
            SomeEnum::B(v) => {
                (tags[1] as u8).emit(buffer);
                v.to_string().emit(buffer);
            }
            SomeEnum::C(v) => {
                (tags[2] as u8).emit(buffer);
                v.emit(buffer);
            }
        }
    }
}

#[test]
fn trivial_enum() {
    let a = SomeEnum::absorb_ext(b"\x01\xcc\xdd\x12").unwrap();
    assert_eq!(a.chain(vec![]), b"\x01\xcc\xdd\x12");
    assert_eq!(
        a,
        SomeEnum::A {
            one: 0xcc,
            two: 0xdd,
            three: 0x12 * 0x12,
        }
    );

    let b = SomeEnum::absorb_ext(b"\x02\x00\x00\x00\x0512345").unwrap();
    assert_eq!(b.chain(vec![]), b"\x02\x00\x00\x00\x0512345");
    assert_eq!(b, SomeEnum::B(12345));

    let c = SomeEnum::absorb_ext(b"\x03\x12\x34\xab\xcd").unwrap();
    assert_eq!(c.chain(vec![]), b"\x03\x12\x34\xab\xcd");
    assert_eq!(c, SomeEnum::C(0x1234abcd));

    let err = SomeEnum::absorb_ext(b"\x04").unwrap_err();
    if let ParseErrorKind::UnknownTag { hint, .. } = &err.kind {
        if *hint == "SomeEnum" {
            return;
        }
    }
    panic!("unexpected error {:?}", err);
}

#[test]
fn unknown_tag_carries_the_tag_and_the_input_length() {
    let err = SomeEnum::absorb_ext(b"\x07\x01\x02").unwrap_err();
    assert_eq!(
        err.kind,
        ParseErrorKind::UnknownTag {
            tag: 7,
            hint: "SomeEnum"
        }
    );
    assert_eq!(err.input, 3);
}

#[test]
fn variant_tags_count_up_from_zero_and_from_explicit_tags() {
    assert_eq!(variant_tags(&[None, None, None]), Some(vec![0, 1, 2]));
    assert_eq!(variant_tags(&[None, Some(10), None, Some(3), None]), Some(vec![0, 10, 11, 3, 4]));
    assert_eq!(variant_tags(&[]), Some(vec![]));
}

#[test]
fn variant_tags_overflow_is_refused() {
    assert_eq!(variant_tags(&[Some(u64::MAX), None]), None);
    assert_eq!(variant_tags(&[Some(u64::MAX)]), Some(vec![u64::MAX]));
}

#[test]
fn find_variant_takes_the_first_match() {
    assert_eq!(find_variant(5, &[1, 5, 5], "U", 9).unwrap(), 1);
    let err = find_variant(4, &[1, 5], "U", 9).unwrap_err();
    assert_eq!(err.kind, ParseErrorKind::UnknownTag { tag: 4, hint: "U" });
    assert_eq!(err.input, 9);
}
