use fixedint::FixedInt;

fn samples_u64() -> Vec<u64> {
    let mut out: Vec<u64> = vec![0, 1, 2, 0x7F, 0x80, 0xFF, 0x100, 0x1234, 0x7FFF, 0x8000, 0xFFFF];
    let mut x: u64 = 0x9E37_79B9_7F4A_7C15;
    let mut i: u32 = 0;
    while i < 200 {
        x ^= x << 13;
        x ^= x >> 7;
        x ^= x << 17;
        out.push(x);
        out.push(x >> (i % 64));
        i += 1;
    }
    out.push(u64::MAX);
    out.push(u64::MAX - 1);
    out.push(0x8000_0000_0000_0000);
    out.push(0x7FFF_FFFF_FFFF_FFFF);
    out.push(0xFFFF_FFFF);
    out.push(0x8000_0000);
    out.push(0x7FFF_FFFF);
    out
}

#[test]
fn round_trip_u8_and_i8_exhaustive() {
    let mut x: u8 = 0;
    loop {
        assert_eq!(u8::decode_fixed_vec(&x.encode_fixed_vec()), x);
        let y: i8 = x as i8;
        assert_eq!(i8::decode_fixed_vec(&y.encode_fixed_vec()), y);
        assert_eq!(y.encode_fixed_vec(), vec![x]);
        if x == u8::MAX {
            break;
        }
        x += 1;
    }
}

#[test]
fn round_trip_u16_and_i16_exhaustive() {
    let mut x: u16 = 0;
    loop {
        let bytes: Vec<u8> = x.encode_fixed_vec();
        assert_eq!(bytes, x.to_le_bytes().to_vec());
        assert_eq!(u16::decode_fixed_vec(&bytes), x);
        let y: i16 = x as i16;
        let bytes: Vec<u8> = y.encode_fixed_vec();
        assert_eq!(bytes, y.to_le_bytes().to_vec());
        assert_eq!(i16::decode_fixed_vec(&bytes), y);
        if x == u16::MAX {
            break;
        }
        x += 1;
    }
}

#[test]
fn round_trip_wider_types() {
    for s in samples_u64() {
        let a: u32 = s as u32;
        assert_eq!(u32::decode_fixed_vec(&a.encode_fixed_vec()), a);
        let b: i32 = s as i32;
        assert_eq!(i32::decode_fixed_vec(&b.encode_fixed_vec()), b);
        assert_eq!(u64::decode_fixed_vec(&s.encode_fixed_vec()), s);
        let c: i64 = s as i64;
        assert_eq!(i64::decode_fixed_vec(&c.encode_fixed_vec()), c);
        let d: usize = s as usize;
        assert_eq!(usize::decode_fixed_vec(&d.encode_fixed_vec()), d);
        let e: isize = s as isize;
        assert_eq!(isize::decode_fixed_vec(&e.encode_fixed_vec()), e);
    }
}

#[test]
fn encoding_agrees_with_the_standard_little_endian_bytes() {
    for s in samples_u64() {
        assert_eq!((s as u32).encode_fixed_vec(), (s as u32).to_le_bytes().to_vec());
        assert_eq!((s as i32).encode_fixed_vec(), (s as i32).to_le_bytes().to_vec());
        assert_eq!(s.encode_fixed_vec(), s.to_le_bytes().to_vec());
        assert_eq!((s as i64).encode_fixed_vec(), (s as i64).to_le_bytes().to_vec());
        assert_eq!((s as usize).encode_fixed_vec(), (s as usize).to_le_bytes().to_vec());
        assert_eq!((s as isize).encode_fixed_vec(), (s as isize).to_le_bytes().to_vec());
    }
}

#[test]
fn decoding_agrees_with_the_standard_little_endian_reading() {
    for s in samples_u64() {
        let bytes: [u8; 8] = s.to_ne_bytes();
        assert_eq!(u64::decode_fixed(&bytes), u64::from_le_bytes(bytes));
        assert_eq!(i64::decode_fixed(&bytes), i64::from_le_bytes(bytes));
        let four: [u8; 4] = [bytes[0], bytes[1], bytes[2], bytes[3]];
        assert_eq!(u32::decode_fixed(&four), u32::from_le_bytes(four));
        assert_eq!(i32::decode_fixed(&four), i32::from_le_bytes(four));
        let two: [u8; 2] = [bytes[4], bytes[5]];
        assert_eq!(u16::decode_fixed(&two), u16::from_le_bytes(two));
        assert_eq!(i16::decode_fixed(&two), i16::from_le_bytes(two));
        let one: [u8; 1] = [bytes[7]];
        assert_eq!(u8::decode_fixed(&one), u8::from_le_bytes(one));
        assert_eq!(i8::decode_fixed(&one), i8::from_le_bytes(one));
    }
}

#[test]
fn encoding_then_decoding_bytes_gives_the_bytes() {
    for s in samples_u64() {
        let bytes: Vec<u8> = s.to_le_bytes().to_vec();
        assert_eq!(i64::decode_fixed_vec(&bytes).encode_fixed_vec(), bytes);
        assert_eq!(u64::decode_fixed_vec(&bytes).encode_fixed_vec(), bytes);
        let four: Vec<u8> = bytes[2..6].to_vec();
        assert_eq!(i32::decode_fixed_vec(&four).encode_fixed_vec(), four);
        assert_eq!(u32::decode_fixed_vec(&four).encode_fixed_vec(), four);
    }
}

#[test]
fn encoded_length_is_required_space() {
    assert_eq!(7u8.encode_fixed_vec().len(), u8::required_space());
    assert_eq!(7i8.encode_fixed_vec().len(), i8::required_space());
    assert_eq!(7u16.encode_fixed_vec().len(), u16::required_space());
    assert_eq!(7i16.encode_fixed_vec().len(), i16::required_space());
    assert_eq!(7u32.encode_fixed_vec().len(), u32::required_space());
    assert_eq!(7i32.encode_fixed_vec().len(), i32::required_space());
    assert_eq!(7u64.encode_fixed_vec().len(), u64::required_space());
    assert_eq!(7i64.encode_fixed_vec().len(), i64::required_space());
    assert_eq!(7usize.encode_fixed_vec().len(), usize::required_space());
    assert_eq!(7isize.encode_fixed_vec().len(), isize::required_space());
}

#[test]
fn switching_endianness_twice_is_identity() {
    let mut x: u16 = 0;
    loop {
        assert_eq!(x.switch_endianness().switch_endianness(), x);
        assert_eq!((x as i16).switch_endianness().switch_endianness(), x as i16);
        if x == u16::MAX {
            break;
        }
        x += 1;
    }
    for s in samples_u64() {
        assert_eq!((s as u32).switch_endianness().switch_endianness(), s as u32);
        assert_eq!((s as i32).switch_endianness().switch_endianness(), s as i32);
        assert_eq!(s.switch_endianness().switch_endianness(), s);
        assert_eq!((s as i64).switch_endianness().switch_endianness(), s as i64);
        assert_eq!((s as usize).switch_endianness().switch_endianness(), s as usize);
        assert_eq!((s as isize).switch_endianness().switch_endianness(), s as isize);
    }
}

#[test]
fn switching_endianness_agrees_with_swap_bytes() {
    for s in samples_u64() {
        assert_eq!((s as u16).switch_endianness(), (s as u16).swap_bytes());
        assert_eq!((s as i16).switch_endianness(), (s as i16).swap_bytes());
        assert_eq!((s as u32).switch_endianness(), (s as u32).swap_bytes());
        assert_eq!((s as i32).switch_endianness(), (s as i32).swap_bytes());
        assert_eq!(s.switch_endianness(), s.swap_bytes());
        assert_eq!((s as i64).switch_endianness(), (s as i64).swap_bytes());
    }
}

#[test]
fn light_encoding_is_the_memory_order() {
    for s in samples_u64() {
        assert_eq!((s as u8).encode_fixed_light(), (s as u8).to_ne_bytes().to_vec());
        assert_eq!((s as i8).encode_fixed_light(), (s as i8).to_ne_bytes().to_vec());
        assert_eq!((s as u16).encode_fixed_light(), (s as u16).to_ne_bytes().to_vec());
        assert_eq!((s as i16).encode_fixed_light(), (s as i16).to_ne_bytes().to_vec());
        assert_eq!((s as u32).encode_fixed_light(), (s as u32).to_ne_bytes().to_vec());
        assert_eq!((s as i32).encode_fixed_light(), (s as i32).to_ne_bytes().to_vec());
        assert_eq!(s.encode_fixed_light(), s.to_ne_bytes().to_vec());
        assert_eq!((s as i64).encode_fixed_light(), (s as i64).to_ne_bytes().to_vec());
        assert_eq!((s as usize).encode_fixed_light(), (s as usize).to_ne_bytes().to_vec());
        assert_eq!((s as isize).encode_fixed_light(), (s as isize).to_ne_bytes().to_vec());
    }
}

#[test]
fn light_encoding_is_the_wire_form_or_its_reverse() {
    let wire: Vec<u8> = 0x0102_0304u32.encode_fixed_vec();
    let mut reversed: Vec<u8> = wire.clone();
    reversed.reverse();
    let light: Vec<u8> = 0x0102_0304u32.encode_fixed_light();
    assert!(light == wire || light == reversed);
    let little: bool = 1u32.to_ne_bytes() == 1u32.to_le_bytes();
    if little {
        assert_eq!(light, wire);
    } else {
        assert_eq!(light, reversed);
    }
}
