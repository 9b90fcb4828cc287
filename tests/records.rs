use radiation::{field_limits, Absorb, AbsorbExt, Emit, Limit, ParseError, RadiationBuffer};

#[derive(Debug, PartialEq, Eq)]
struct SomeStruct {
    pub a: u8,
    pub b: u16,
    pub c: u32,
}

impl<'pa> Absorb<'pa> for SomeStruct {
    type Model = SomeStruct;

    fn absorb(input: &'pa [u8], limit: &Limit) -> Result<(&'pa [u8], Self), ParseError> {
        let limits = field_limits(limit, &[None, None, None]);
        let (input, a) = u8::absorb(input, limits[0])?;
        let (input, b) = u16::absorb(input, limits[1])?;
        let (input, c) = u32::absorb(input, limits[2])?;
        Ok((input, SomeStruct { a, b, c }))
    }
}

impl Emit for SomeStruct {
    fn emit<W: RadiationBuffer>(&self, buffer: &mut W) {
        self.a.emit(buffer);
        self.b.emit(buffer);
        self.c.emit(buffer);
    }
}

#[test]
fn trivial_struct() {
    let foo = SomeStruct::absorb_ext(b"\x12\x23\x34\x45\x56\x67\x78").unwrap();
    assert_eq!(foo.chain(vec![]), b"\x12\x23\x34\x45\x56\x67\x78");
    assert_eq!(
        foo,
        SomeStruct {
            a: 0x12,
            b: 0x2334,
            c: 0x45566778,
        }
    );
}

#[test]
fn fields_inherit_the_next_bound() {
    let third = Limit::new(0, 3, "third", Limit::Unlimited, Limit::Unlimited);
    let second = Limit::new(0, 2, "second", Limit::Unlimited, third);
    let first = Limit::new(0, 1, "first", Limit::Unlimited, second);
    let own = Limit::new(5, 9, "own", Limit::Unlimited, Limit::Unlimited);
    let limits = field_limits(&first, &[None, None, None, None]);
    let names: Vec<&str> = limits.iter().map(|l| l.description()).collect();
    assert_eq!(names, vec!["first", "second", "third", "unlimited"]);
    let limits = field_limits(&first, &[None, Some(&own), None]);
    let names: Vec<&str> = limits.iter().map(|l| l.description()).collect();
    assert_eq!(names, vec!["first", "own", "unlimited"]);
    assert!(field_limits(&first, &[]).is_empty());
}
