use token_scanner::FromToken;

fn parse<T: FromToken>(token: &str) -> Option<T> {
    T::from_token(token.to_string())
}

#[test]
fn parses_plain_digits() {
    assert_eq!(parse::<u32>("0"), Some(0));
    assert_eq!(parse::<u32>("7"), Some(7));
    assert_eq!(parse::<u32>("12345"), Some(12345));
    assert_eq!(parse::<i64>("9001"), Some(9001));
}

#[test]
fn parses_a_leading_plus() {
    assert_eq!(parse::<u8>("+5"), Some(5));
    assert_eq!(parse::<i8>("+5"), Some(5));
    assert_eq!(parse::<usize>("+0"), Some(0));
}

#[test]
fn parses_a_leading_minus_where_signed() {
    assert_eq!(parse::<i32>("-42"), Some(-42));
    assert_eq!(parse::<i64>("-0"), Some(0));
    assert_eq!(parse::<isize>("-1"), Some(-1));
}

#[test]
fn rejects_a_leading_minus_where_unsigned() {
    assert_eq!(parse::<u32>("-42"), None);
    assert_eq!(parse::<u64>("-0"), None);
    assert_eq!(parse::<usize>("-1"), None);
}

#[test]
fn parses_leading_zeros() {
    assert_eq!(parse::<u8>("007"), Some(7));
    assert_eq!(parse::<u8>("0000000000000000000000000000000000000000000255"), Some(255));
    assert_eq!(parse::<i16>("-00012"), Some(-12));
}

#[test]
fn rejects_what_is_no_number() {
    assert_eq!(parse::<i32>(""), None);
    assert_eq!(parse::<i32>("+"), None);
    assert_eq!(parse::<i32>("-"), None);
    assert_eq!(parse::<i32>("abc"), None);
    assert_eq!(parse::<i32>("12a"), None);
    assert_eq!(parse::<i32>("a12"), None);
    assert_eq!(parse::<i32>("1 2"), None);
    assert_eq!(parse::<i32>(" 12"), None);
    assert_eq!(parse::<i32>("12 "), None);
    assert_eq!(parse::<i32>("1_000"), None);
    assert_eq!(parse::<i32>("1.5"), None);
    assert_eq!(parse::<i32>("1e3"), None);
    assert_eq!(parse::<i32>("0x10"), None);
    assert_eq!(parse::<i32>("+-5"), None);
    assert_eq!(parse::<i32>("--5"), None);
    assert_eq!(parse::<i32>("5-"), None);
    assert_eq!(parse::<i32>("５"), None);
    assert_eq!(parse::<i32>("٣"), None);
}

#[test]
fn u8_bounds() {
    assert_eq!(parse::<u8>("255"), Some(u8::MAX));
    assert_eq!(parse::<u8>("256"), None);
}

#[test]
fn u16_bounds() {
    assert_eq!(parse::<u16>("65535"), Some(u16::MAX));
    assert_eq!(parse::<u16>("65536"), None);
}

#[test]
fn u32_bounds() {
    assert_eq!(parse::<u32>("4294967295"), Some(u32::MAX));
    assert_eq!(parse::<u32>("4294967296"), None);
}

#[test]
fn u64_bounds() {
    assert_eq!(parse::<u64>("18446744073709551615"), Some(u64::MAX));
    assert_eq!(parse::<u64>("18446744073709551616"), None);
}

#[test]
fn u128_bounds() {
    assert_eq!(parse::<u128>("340282366920938463463374607431768211455"), Some(u128::MAX));
    assert_eq!(parse::<u128>("340282366920938463463374607431768211456"), None);
    assert_eq!(parse::<u128>("3402823669209384634633746074317682114550"), None);
    assert_eq!(parse::<u128>("999999999999999999999999999999999999999999999999"), None);
}

#[test]
fn usize_bounds() {
    assert_eq!(parse::<usize>(&usize::MAX.to_string()), Some(usize::MAX));
    assert_eq!(parse::<usize>(&format!("{}0", usize::MAX)), None);
    assert_eq!(parse::<usize>(&(usize::MAX as u128 + 1).to_string()), None);
}

#[test]
fn i8_bounds() {
    assert_eq!(parse::<i8>("127"), Some(i8::MAX));
    assert_eq!(parse::<i8>("128"), None);
    assert_eq!(parse::<i8>("-128"), Some(i8::MIN));
    assert_eq!(parse::<i8>("-129"), None);
}

#[test]
fn i16_bounds() {
    assert_eq!(parse::<i16>("32767"), Some(i16::MAX));
    assert_eq!(parse::<i16>("32768"), None);
    assert_eq!(parse::<i16>("-32768"), Some(i16::MIN));
    assert_eq!(parse::<i16>("-32769"), None);
}

#[test]
fn i32_bounds() {
    assert_eq!(parse::<i32>("2147483647"), Some(i32::MAX));
    assert_eq!(parse::<i32>("2147483648"), None);
    assert_eq!(parse::<i32>("-2147483648"), Some(i32::MIN));
    assert_eq!(parse::<i32>("-2147483649"), None);
}

#[test]
fn i64_bounds() {
    assert_eq!(parse::<i64>("9223372036854775807"), Some(i64::MAX));
    assert_eq!(parse::<i64>("9223372036854775808"), None);
    assert_eq!(parse::<i64>("-9223372036854775808"), Some(i64::MIN));
    assert_eq!(parse::<i64>("-9223372036854775809"), None);
}

#[test]
fn i128_bounds() {
    assert_eq!(parse::<i128>("170141183460469231731687303715884105727"), Some(i128::MAX));
    assert_eq!(parse::<i128>("170141183460469231731687303715884105728"), None);
    assert_eq!(parse::<i128>("-170141183460469231731687303715884105728"), Some(i128::MIN));
    assert_eq!(parse::<i128>("-170141183460469231731687303715884105729"), None);
    assert_eq!(parse::<i128>("-340282366920938463463374607431768211455"), None);
    assert_eq!(parse::<i128>("-340282366920938463463374607431768211456"), None);
}

#[test]
fn isize_bounds() {
    assert_eq!(parse::<isize>(&isize::MAX.to_string()), Some(isize::MAX));
    assert_eq!(parse::<isize>(&isize::MIN.to_string()), Some(isize::MIN));
    assert_eq!(parse::<isize>(&(isize::MAX as i128 + 1).to_string()), None);
    assert_eq!(parse::<isize>(&(isize::MIN as i128 - 1).to_string()), None);
}

#[test]
fn integers_agree_with_std() {
    let tokens = [
        "", "+", "-", "0", "-0", "+0", "00", "1", "-1", "+1", "127", "128", "-128", "-129", "255",
        "256", "32767", "32768", "-32768", "65535", "65536", "99999999999", "-99999999999", "1a",
        "a1", "++1", "+-1", "-+1", "1+", "1-", " 1", "1 ", "१", "1.0", "١",
    ];
    for t in tokens {
        assert_eq!(parse::<u8>(t), t.parse::<u8>().ok(), "u8 {:?}", t);
        assert_eq!(parse::<i8>(t), t.parse::<i8>().ok(), "i8 {:?}", t);
        assert_eq!(parse::<u16>(t), t.parse::<u16>().ok(), "u16 {:?}", t);
        assert_eq!(parse::<i16>(t), t.parse::<i16>().ok(), "i16 {:?}", t);
        assert_eq!(parse::<u32>(t), t.parse::<u32>().ok(), "u32 {:?}", t);
        assert_eq!(parse::<i32>(t), t.parse::<i32>().ok(), "i32 {:?}", t);
        assert_eq!(parse::<u64>(t), t.parse::<u64>().ok(), "u64 {:?}", t);
        assert_eq!(parse::<i64>(t), t.parse::<i64>().ok(), "i64 {:?}", t);
        assert_eq!(parse::<u128>(t), t.parse::<u128>().ok(), "u128 {:?}", t);
        assert_eq!(parse::<i128>(t), t.parse::<i128>().ok(), "i128 {:?}", t);
        assert_eq!(parse::<usize>(t), t.parse::<usize>().ok(), "usize {:?}", t);
        assert_eq!(parse::<isize>(t), t.parse::<isize>().ok(), "isize {:?}", t);
    }
}

#[test]
fn every_i16_written_in_decimal_reads_back() {
    for v in i16::MIN..=i16::MAX {
        assert_eq!(parse::<i16>(&v.to_string()), Some(v));
        assert_eq!(parse::<i64>(&v.to_string()), Some(v as i64));
    }
}

#[test]
fn a_string_token_is_the_token() {
    assert_eq!(parse::<String>("hello"), Some("hello".to_string()));
    assert_eq!(parse::<String>("-12x"), Some("-12x".to_string()));
    assert_eq!(parse::<String>("é😀"), Some("é😀".to_string()));
}
