use radiation::{
    field_limits, Absorb, AbsorbExt, DynSized, Emit, Limit, ParseError, ParseErrorKind,
    RadiationBuffer,
};

fn limit_big() -> Limit {
    Limit::new(0, 36, "LimitBig", limit_one(), Limit::Unlimited)
}

fn limit_one() -> Limit {
    Limit::new(16, 24, "LimitOne", Limit::Unlimited, limit_two())
}

fn limit_two() -> Limit {
    Limit::new(0, 8, "LimitTwo", Limit::Unlimited, Limit::Unlimited)
}

#[derive(Debug)]
struct Limited {
    small: u16,
    // `DynSized` specifies that the bytes will be prefixed with length
    // makes the size of the whole type known
    big: DynSized<LimitedInner>,
}

#[derive(Debug)]
struct LimitedInner {
    // `Vec` is prefixed with length
    one: Vec<u32>,
    // Box<[T]> is not prefixed with length, don't need it,
    // because the size of the whole type is known
    two: Box<[u16]>,
}

impl<'pa> Absorb<'pa> for Limited {
    type Model = ();

    fn absorb(input: &'pa [u8], limit: &Limit) -> Result<(&'pa [u8], Self), ParseError> {
        let big_limit = limit_big();
        let limits = field_limits(limit, &[None, Some(&big_limit)]);
        let (input, small) = u16::absorb(input, limits[0])?;
        let (input, big) = DynSized::<LimitedInner>::absorb(input, limits[1])?;
        Ok((input, Limited { small, big }))
    }
}

impl<'pa> Absorb<'pa> for LimitedInner {
    type Model = ();

    fn absorb(input: &'pa [u8], limit: &Limit) -> Result<(&'pa [u8], Self), ParseError> {
        let limits = field_limits(limit, &[None, None]);
        let (input, one) = Vec::<u32>::absorb(input, limits[0])?;
        let (input, two) = Box::<[u16]>::absorb(input, limits[1])?;
        Ok((input, LimitedInner { one, two }))
    }
}

impl Emit for Limited {
    fn emit<W: RadiationBuffer>(&self, buffer: &mut W) {
        self.small.emit(buffer);
        self.big.emit(buffer);
    }
}

impl Emit for LimitedInner {
    fn emit<W: RadiationBuffer>(&self, buffer: &mut W) {
        self.one.emit(buffer);
        self.two.emit(buffer);
    }
}

fn limit_hint(err: &ParseError) -> Option<&'static str> {
    match err.kind {
        ParseErrorKind::Limit(_, hint) => Some(hint),
        _ => None,
    }
}

#[test]
fn test_limits_fail_0() {
    let limited = Limited {
        small: 321,
        // this is 4 + 6 * 4 + 5 * 2 == 38 bytes long, which is over limit 36
        big: DynSized(LimitedInner {
            one: vec![0x12345; 6],
            two: Box::new([0; 5]),
        }),
    };
    let bytes = limited.chain(vec![]);
    let err = <Limited as AbsorbExt>::absorb_ext(&bytes).unwrap_err();
    if limit_hint(&err) == Some("LimitBig") {
        return;
    }
    panic!("wrong error {err:?}");
}

#[test]
fn test_limits_fail_1() {
    let limited = Limited {
        small: 321,
        big: DynSized(LimitedInner {
            // this is 7 * 4 == 28 bytes long, which is over limit 24
            one: vec![0x12345; 7],
            two: Box::new([0; 1]),
        }),
    };
    let bytes = limited.chain(vec![]);
    let err = <Limited as AbsorbExt>::absorb_ext(&bytes).unwrap_err();
    if limit_hint(&err) == Some("LimitOne") {
        return;
    }
    panic!("wrong error {err:?}");
}

#[test]
fn test_limits_fail_2() {
    let limited = Limited {
        small: 321,
        big: DynSized(LimitedInner {
            // this is 2 * 4 == 8 bytes long, which is under limit 16
            one: vec![0x12345; 2],
            two: Box::new([0; 1]),
        }),
    };
    let bytes = limited.chain(vec![]);
    let err = <Limited as AbsorbExt>::absorb_ext(&bytes).unwrap_err();
    if limit_hint(&err) == Some("LimitOne") {
        return;
    }
    panic!("wrong error {err:?}");
}

#[test]
fn test_limits_fail_3() {
    let limited = Limited {
        small: 321,
        big: DynSized(LimitedInner {
            one: vec![0x12345; 4],
            // this is 5 * 2 == 10 bytes long, which is over limit 8
            two: Box::new([0; 5]),
        }),
    };
    let bytes = limited.chain(vec![]);
    let err = <Limited as AbsorbExt>::absorb_ext(&bytes).unwrap_err();
    if limit_hint(&err) == Some("LimitTwo") {
        return;
    }
    panic!("wrong error {err:?}");
}

#[test]
fn limits_pass_within_every_bound() {
    let limited = Limited {
        small: 321,
        big: DynSized(LimitedInner {
            one: vec![0x12345; 5],
            two: Box::new([7; 3]),
        }),
    };
    let bytes = limited.chain(vec![]);
    let back = <Limited as AbsorbExt>::absorb_ext(&bytes).unwrap();
    assert_eq!(back.small, 321);
    assert_eq!(back.big.0.one, vec![0x12345; 5]);
    assert_eq!(&back.big.0.two[..], &[7, 7, 7]);
}

#[test]
fn inner_bound_is_checked_inside_the_frame() {
    // the frame's length passes the outer bound [0, 36], the field inside
    // breaks its own bound [16, 24]
    let limited = Limited {
        small: 1,
        big: DynSized(LimitedInner {
            one: vec![1; 8],
            two: Box::new([]),
        }),
    };
    let bytes = limited.chain(vec![]);
    let err = <Limited as AbsorbExt>::absorb_ext(&bytes).unwrap_err();
    assert_eq!(limit_hint(&err), Some("LimitOne"));
}

#[test]
fn limit_check_reports_the_range() {
    let limit = Limit::new(2, 5, "range", Limit::Unlimited, Limit::Unlimited);
    assert_eq!(limit.check(2), Ok(2));
    assert_eq!(limit.check(5), Ok(5));
    let err = limit.check(6).unwrap_err();
    assert_eq!((err.minimum, err.maximum, err.actual), (2, 5, 6));
    assert!(limit.check(1).is_err());
    assert_eq!(Limit::Unlimited.check(usize::MAX), Ok(usize::MAX));
    assert_eq!(Limit::Unlimited.description(), "unlimited");
}

#[test]
fn size_field_breaking_its_bound_names_the_bound() {
    let limit = Limit::new(0, 3, "small", Limit::Unlimited, Limit::Unlimited);
    let err = usize::absorb(b"\x00\x00\x00\x04rest", &limit).unwrap_err();
    match err.kind {
        ParseErrorKind::Limit(e, hint) => {
            assert_eq!(hint, "small");
            assert_eq!((e.minimum, e.maximum, e.actual), (0, 3, 4));
        }
        other => panic!("wrong error {other:?}"),
    }
    assert_eq!(err.input, 4);
}
