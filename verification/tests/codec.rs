//! Tests of the byte codec: exact encodings, round trips over boundary
//! values, and the exact-width failures.

use zep_kvs::convert::{InBytes, OutBytes};
use zep_kvs::error::KvsError;

#[test]
fn test_bool_conversion() {
    let true_val = true;
    let false_val = false;

    let true_bytes = true_val.out_bytes().unwrap();
    let false_bytes = false_val.out_bytes().unwrap();

    assert_eq!(true_bytes.as_slice(), &[1]);
    assert_eq!(false_bytes.as_slice(), &[0]);

    assert_eq!(bool::in_bytes(&[1]).unwrap(), true);
    assert_eq!(bool::in_bytes(&[0]).unwrap(), false);
}

#[test]
fn test_integer_conversions() {
    let i32_val = 42i32;
    let u64_val = 1234567890u64;

    let i32_bytes = i32_val.out_bytes().unwrap();
    let u64_bytes = u64_val.out_bytes().unwrap();

    assert_eq!(i32::in_bytes(&i32_bytes).unwrap(), 42i32);
    assert_eq!(u64::in_bytes(&u64_bytes).unwrap(), 1234567890u64);
}

#[test]
fn test_char_conversion() {
    let char_val = '🚀';
    let char_bytes = char_val.out_bytes().unwrap();

    assert_eq!(char::in_bytes(&char_bytes).unwrap(), '🚀');
}

#[test]
fn exact_big_endian_bytes() {
    assert_eq!(42u32.out_bytes().unwrap(), vec![0, 0, 0, 42]);
    assert_eq!(0x0102u16.out_bytes().unwrap(), vec![1, 2]);
    assert_eq!(255u8.out_bytes().unwrap(), vec![255]);
    assert_eq!(
        1234567890u64.out_bytes().unwrap(),
        vec![0, 0, 0, 0, 0x49, 0x96, 0x02, 0xD2]
    );
    assert_eq!((-1i16).out_bytes().unwrap(), vec![0xFF, 0xFF]);
    assert_eq!((-128i8).out_bytes().unwrap(), vec![0x80]);
    assert_eq!(
        (-2i32).out_bytes().unwrap(),
        vec![0xFF, 0xFF, 0xFF, 0xFE]
    );
    assert_eq!(12345usize.out_bytes().unwrap().len(), 8);
    assert_eq!((-9999isize).out_bytes().unwrap().len(), 8);
}

#[test]
fn exact_utf8_bytes() {
    assert_eq!('A'.out_bytes().unwrap(), vec![65]);
    assert_eq!('Ñ'.out_bytes().unwrap(), vec![0xC3, 0x91]);
    assert_eq!('世'.out_bytes().unwrap(), vec![0xE4, 0xB8, 0x96]);
    assert_eq!('🚀'.out_bytes().unwrap(), vec![0xF0, 0x9F, 0x9A, 0x80]);
    assert_eq!("Ñoño".out_bytes().unwrap(), "Ñoño".as_bytes().to_vec());
    assert_eq!(String::in_bytes(&[0xC3, 0x91]).unwrap(), "Ñ".to_string());
}

#[test]
fn round_trip_boundary_values() {
    assert_eq!(u8::in_bytes(&0u8.out_bytes().unwrap()).unwrap(), 0);
    assert_eq!(u8::in_bytes(&u8::MAX.out_bytes().unwrap()).unwrap(), u8::MAX);
    assert_eq!(u16::in_bytes(&u16::MAX.out_bytes().unwrap()).unwrap(), u16::MAX);
    assert_eq!(u32::in_bytes(&u32::MAX.out_bytes().unwrap()).unwrap(), u32::MAX);
    assert_eq!(u64::in_bytes(&u64::MAX.out_bytes().unwrap()).unwrap(), u64::MAX);
    assert_eq!(u128::in_bytes(&u128::MAX.out_bytes().unwrap()).unwrap(), u128::MAX);
    assert_eq!(usize::in_bytes(&usize::MAX.out_bytes().unwrap()).unwrap(), usize::MAX);
    assert_eq!(i8::in_bytes(&i8::MIN.out_bytes().unwrap()).unwrap(), i8::MIN);
    assert_eq!(i8::in_bytes(&i8::MAX.out_bytes().unwrap()).unwrap(), i8::MAX);
    assert_eq!(i16::in_bytes(&i16::MIN.out_bytes().unwrap()).unwrap(), i16::MIN);
    assert_eq!(i32::in_bytes(&i32::MIN.out_bytes().unwrap()).unwrap(), i32::MIN);
    assert_eq!(i64::in_bytes(&i64::MIN.out_bytes().unwrap()).unwrap(), i64::MIN);
    assert_eq!(i128::in_bytes(&i128::MIN.out_bytes().unwrap()).unwrap(), i128::MIN);
    assert_eq!(i128::in_bytes(&i128::MAX.out_bytes().unwrap()).unwrap(), i128::MAX);
    assert_eq!(isize::in_bytes(&isize::MIN.out_bytes().unwrap()).unwrap(), isize::MIN);
    assert_eq!(isize::in_bytes(&isize::MAX.out_bytes().unwrap()).unwrap(), isize::MAX);
    assert_eq!(i64::in_bytes(&0i64.out_bytes().unwrap()).unwrap(), 0);
    assert_eq!(String::in_bytes(&"".out_bytes().unwrap()).unwrap(), String::new());
    assert_eq!(
        Vec::<u8>::in_bytes(&[].as_slice().out_bytes().unwrap()).unwrap(),
        Vec::<u8>::new()
    );
    assert_eq!(bool::in_bytes(&true.out_bytes().unwrap()).unwrap(), true);
    assert_eq!(bool::in_bytes(&false.out_bytes().unwrap()).unwrap(), false);
    assert_eq!(char::in_bytes(&'\u{0}'.out_bytes().unwrap()).unwrap(), '\u{0}');
    assert_eq!(
        char::in_bytes(&'\u{10FFFF}'.out_bytes().unwrap()).unwrap(),
        '\u{10FFFF}'
    );
}

#[test]
fn wrong_length_always_fails() {
    // A three-byte buffer decoded as u32 is a length-mismatch decode
    // error, not a panic and not a truncated value.
    let r = u32::in_bytes(&[0, 0, 42]);
    assert!(matches!(r, Err(KvsError::SerializationError(_))));

    for len in 0..20usize {
        let buf = vec![1u8; len];
        assert_eq!(bool::in_bytes(&buf).is_ok(), len == 1);
        assert_eq!(u8::in_bytes(&buf).is_ok(), len == 1);
        assert_eq!(i8::in_bytes(&buf).is_ok(), len == 1);
        assert_eq!(u16::in_bytes(&buf).is_ok(), len == 2);
        assert_eq!(i16::in_bytes(&buf).is_ok(), len == 2);
        assert_eq!(u32::in_bytes(&buf).is_ok(), len == 4);
        assert_eq!(i32::in_bytes(&buf).is_ok(), len == 4);
        assert_eq!(u64::in_bytes(&buf).is_ok(), len == 8);
        assert_eq!(i64::in_bytes(&buf).is_ok(), len == 8);
        assert_eq!(usize::in_bytes(&buf).is_ok(), len == 8);
        assert_eq!(isize::in_bytes(&buf).is_ok(), len == 8);
        assert_eq!(u128::in_bytes(&buf).is_ok(), len == 16);
        assert_eq!(i128::in_bytes(&buf).is_ok(), len == 16);
    }
}

#[test]
fn fixed_length_byte_arrays_pass_through() {
    let arr = [0u8, 255, 127, 42];
    assert_eq!(arr.out_bytes().unwrap(), vec![0, 255, 127, 42]);
    assert_eq!(
        <[u8; 4]>::in_bytes(&[0, 255, 127, 42]).unwrap(),
        [0u8, 255, 127, 42]
    );
    assert_eq!(<[u8; 0]>::in_bytes(&[]).unwrap(), [0u8; 0]);
    assert!(matches!(
        <[u8; 4]>::in_bytes(&[1, 2, 3]),
        Err(KvsError::SerializationError(_))
    ));
    assert!(matches!(
        <[u8; 2]>::in_bytes(&[1, 2, 3]),
        Err(KvsError::SerializationError(_))
    ));
}

#[test]
fn malformed_payloads_fail() {
    assert!(matches!(
        bool::in_bytes(&[2]),
        Err(KvsError::SerializationError(_))
    ));
    assert!(matches!(
        char::in_bytes(&[0xFF]),
        Err(KvsError::SerializationError(_))
    ));
    assert!(matches!(
        char::in_bytes(&[]),
        Err(KvsError::SerializationError(_))
    ));
    assert!(matches!(
        char::in_bytes(b"ab"),
        Err(KvsError::SerializationError(_))
    ));
    // Overlong encoding of '/': invalid UTF-8, rejected.
    assert!(matches!(
        char::in_bytes(&[0xC0, 0xAF]),
        Err(KvsError::SerializationError(_))
    ));
    assert!(matches!(
        String::in_bytes(&[0xFF, 0xFE]),
        Err(KvsError::StringDecodeError(_))
    ));
    // A UTF-16 surrogate is not a scalar value; its would-be UTF-8 shape
    // is rejected.
    assert!(matches!(
        String::in_bytes(&[0xED, 0xA0, 0x80]),
        Err(KvsError::StringDecodeError(_))
    ));
}

#[test]
fn error_descriptions_name_the_violation() {
    let ser = u32::in_bytes(&[0, 0, 42]).unwrap_err();
    assert_eq!(
        ser.describe(),
        "Serialization error: Invalid u32 byte length"
    );
    let utf8 = String::in_bytes(&[0xFF]).unwrap_err();
    assert_eq!(utf8.describe(), "Invalid UTF-8 InBytes");
    let io = KvsError::io_at("denied".to_string(), "/var/lib/app".to_string());
    assert_eq!(io.describe(), "denied: /var/lib/app");
    let user = KvsError::NoUserScope("no user directory found".to_string());
    assert_eq!(user.describe(), "No user scope. no user directory found");
    let machine = KvsError::NoMachineScope("read-only root".to_string());
    assert_eq!(machine.describe(), "No machine scope. read-only root");
}

#[test]
fn io_error_carries_its_path() {
    let e = KvsError::io_at("permission denied".to_string(), "/var/lib/app".to_string());
    match e {
        KvsError::IoError { path, message } => {
            assert_eq!(path, "/var/lib/app");
            assert_eq!(message, "permission denied");
        }
        _ => panic!("expected an IoError"),
    }
}
