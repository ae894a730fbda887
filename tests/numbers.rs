use dish::bits::{bit_and, bit_or, bit_xor, bits, leading_ones, leading_zeros, reverse_bits, trailing_ones, trailing_zeros, Bits};
use dish::bit::Bit;
use dish::digits::{digits, Digits};
use dish::num::{gcd, ilog, ilog10, ilog2, is_negative, lcm, module, one, pow, widen, zero, Number, NumberOps, SInt};

fn all_digits<T: Number>(mut d: Digits<T>) -> Vec<u8> {
    let mut out = Vec::new();
    while let Some(x) = d.next() {
        out.push(x);
    }
    out
}

fn all_bits<T: Number>(mut b: Bits<T>) -> Vec<u8> {
    let mut out = Vec::new();
    while let Some(x) = b.next() {
        out.push(x.as_u8());
    }
    out
}

#[test]
fn digits_of_1234() {
    assert_eq!(all_digits(digits(1234u32)), vec![1, 2, 3, 4]);
}

#[test]
fn digits_render_like_decimal_text() {
    for n in [1u64, 7, 10, 99, 100, 4096, 1234567890, u64::MAX] {
        let text: String = all_digits(digits(n)).iter().map(|d| char::from(b'0' + *d)).collect();
        assert_eq!(text, n.to_string());
    }
    let text: String = all_digits(digits(u128::MAX)).iter().map(|d| char::from(b'0' + *d)).collect();
    assert_eq!(text, u128::MAX.to_string());
}

#[test]
fn digits_of_zero_is_single_zero() {
    assert_eq!(all_digits(digits(0u8)), vec![0]);
}

#[test]
fn digits_of_negative_use_magnitude() {
    assert_eq!(all_digits(digits(-305i16)), vec![3, 0, 5]);
    assert_eq!(all_digits(Digits::new(i8::MIN)), vec![1, 2, 8]);
}

#[test]
fn digits_keep_their_number() {
    assert_eq!(digits(42u16).number(), 42);
}

#[test]
fn bits_of_five_as_byte() {
    assert_eq!(all_bits(bits(5u8)), vec![0, 0, 0, 0, 0, 1, 0, 1]);
}

#[test]
fn bits_cover_the_full_width() {
    assert_eq!(all_bits(bits(0u8)).len(), 8);
    assert_eq!(all_bits(bits(u16::MAX)).len(), 16);
    assert_eq!(all_bits(bits(-1i32)).len(), 32);
    assert_eq!(all_bits(bits(1u64)).len(), 64);
    assert_eq!(all_bits(bits(12345u128)).len(), 128);
    assert_eq!(all_bits(Bits::new(i64::MIN)).len(), 64);
}

#[test]
fn bits_of_negative_are_twos_complement() {
    assert_eq!(all_bits(bits(-2i8)), vec![1, 1, 1, 1, 1, 1, 1, 0]);
    assert_eq!(all_bits(bits(0u8)), vec![0; 8]);
    assert_eq!(bits(9u8).number(), 9);
}

#[test]
fn gcd_examples() {
    assert_eq!(gcd(12u32, 18u32), 6);
    assert_eq!(gcd(7u8, 13u8), 1);
    assert_eq!(gcd(100i64, 75i64), 25);
    assert_eq!(gcd(-12i32, 18i32), 6);
}

#[test]
fn gcd_with_zero_is_one() {
    assert_eq!(gcd(0u32, 5u32), 1);
    assert_eq!(gcd(9u16, 0u16), 1);
    assert_eq!(gcd(0i8, 0i8), 1);
}

#[test]
fn gcd_divides_both_and_is_greatest() {
    for a in 1u16..40 {
        for b in 1u16..40 {
            let g = gcd(a, b);
            assert_eq!(a % g, 0);
            assert_eq!(b % g, 0);
            for d in (g + 1)..=a.min(b) {
                assert!(a % d != 0 || b % d != 0);
            }
        }
    }
}

#[test]
fn lcm_examples() {
    assert_eq!(lcm(4u32, 6u32), 12);
    assert_eq!(lcm(-4i32, 6i32), 12);
    assert_eq!(lcm(0u8, 9u8), 0);
}

#[test]
fn lcm_times_gcd_is_product() {
    for a in 1u32..30 {
        for b in 1u32..30 {
            assert_eq!(lcm(a, b) * gcd(a, b), a * b);
        }
    }
}

#[test]
fn reverse_bits_examples() {
    assert_eq!(reverse_bits(1u8), 128);
    assert_eq!(reverse_bits(0b0000_0110u8), 0b0110_0000);
    assert_eq!(reverse_bits(1i16), i16::MIN);
    assert_eq!(reverse_bits(1u128), 1u128 << 127);
}

#[test]
fn reverse_bits_twice_is_identity() {
    for x in [0u32, 1, 2, 0xdead_beef, u32::MAX, 12345] {
        assert_eq!(reverse_bits(reverse_bits(x)), x);
    }
    for x in [i64::MIN, -1, 0, 1, i64::MAX, -987654321] {
        assert_eq!(reverse_bits(reverse_bits(x)), x);
    }
}

#[test]
fn module_examples() {
    assert_eq!(module(-5i32), 5);
    assert_eq!(module(7i32), 7);
    assert_eq!(module(0i8), 0);
    assert_eq!(module(200u8), 200);
    assert_eq!(module(i128::MIN + 1), i128::MAX);
}

#[test]
fn module_is_never_negative() {
    for x in -100i16..100 {
        let m = module(x);
        assert!(m >= 0);
        if x >= 0 {
            assert_eq!(m, x);
        }
    }
}

#[test]
fn bit_counts() {
    assert_eq!(leading_zeros(1u32), 31);
    assert_eq!(leading_zeros(0u8), 8);
    assert_eq!(leading_ones(-1i16), 16);
    assert_eq!(leading_ones(0xf0u8), 4);
    assert_eq!(trailing_zeros(8u64), 3);
    assert_eq!(trailing_zeros(0u16), 16);
    assert_eq!(trailing_ones(0b0111u8), 3);
    assert_eq!(trailing_ones(-1i128), 128);
}

#[test]
fn logarithms() {
    assert_eq!(ilog10(1000u32), 3);
    assert_eq!(ilog10(999u32), 2);
    assert_eq!(ilog2(8u8), 3);
    assert_eq!(ilog2(1u64), 0);
    assert_eq!(ilog(81u16, 3u16), 4);
    assert_eq!(ilog10(u128::MAX), 38);
    assert_eq!(ilog2(-1i8), 127);
}

#[test]
fn powers() {
    assert_eq!(pow(2u32, 10), 1024);
    assert_eq!(pow(-2i8, 7), -128);
    assert_eq!(pow(-3i32, 2), 9);
    assert_eq!(pow(5u8, 0), 1);
    assert_eq!(pow(0u8, 3), 0);
}

#[test]
fn signs_and_constants() {
    assert!(is_negative(-1i64));
    assert!(!is_negative(0i64));
    assert!(!is_negative(u8::MAX));
    assert_eq!(zero::<i32>(), 0);
    assert_eq!(one::<u128>(), 1);
    assert_eq!(<i8 as Number>::minimum(), i8::MIN);
    assert_eq!(<u16 as Number>::maximum(), u16::MAX);
    assert_eq!(<u64 as Number>::bit_width(), 64);
    assert_eq!(widen(-1i8), u128::MAX);
    assert_eq!(widen(300u16), 300);
    assert_eq!(5i32.negate(), -5);
}

#[test]
fn raw_patterns() {
    assert_eq!((-1i8).to_raw(), 0xff);
    assert_eq!(<i8 as Number>::from_raw(0x80), i8::MIN);
    assert_eq!(<i16 as Number>::from_magnitude(true, 32768), i16::MIN);
    assert_eq!(i128::MIN.magnitude(), 1u128 << 127);
    assert_eq!(<u32 as Number>::from_raw(77), 77);
}

#[test]
fn bit_xor_truth_table() {
    assert_eq!(Bit::Zero ^ Bit::Zero, Bit::Zero);
    assert_eq!(Bit::Zero ^ Bit::One, Bit::One);
    assert_eq!(Bit::One ^ Bit::Zero, Bit::One);
    assert_eq!(Bit::One ^ Bit::One, Bit::Zero);
}

#[test]
fn bit_not_truth_table() {
    assert_eq!(!Bit::Zero, Bit::One);
    assert_eq!(!Bit::One, Bit::Zero);
}

#[test]
fn bit_and_or_truth_tables() {
    assert_eq!(Bit::Zero & Bit::One, Bit::Zero);
    assert_eq!(Bit::One & Bit::One, Bit::One);
    assert_eq!(Bit::Zero | Bit::Zero, Bit::Zero);
    assert_eq!(Bit::Zero | Bit::One, Bit::One);
    assert_eq!(Bit::One | Bit::Zero, Bit::One);
    assert_eq!(Bit::One.and(Bit::Zero), Bit::Zero);
    assert_eq!(Bit::Zero.or(Bit::One), Bit::One);
    assert_eq!(Bit::One.xor(Bit::One), Bit::Zero);
}

#[test]
fn bit_bool_round_trip() {
    assert!(Bit::from_bool(true).as_bool());
    assert!(!Bit::from_bool(false).as_bool());
}

#[test]
fn bit_conversions() {
    assert_eq!(Bit::from_u8(0), Bit::Zero);
    assert_eq!(Bit::from_u8(1), Bit::One);
    assert_eq!(Bit::from_u8(200), Bit::One);
    assert_eq!(Bit::One.as_u8(), 1);
    assert_eq!(Bit::Zero.as_u8(), 0);
    assert_eq!(*Bit::One, 1);
    assert_eq!(*Bit::Zero, 0);
    assert_eq!(Bit::One.to_text(), "1");
    assert_eq!(Bit::Zero.to_text(), "0");
}

#[test]
fn bitwise_operations() {
    assert_eq!(bit_and(0b1100u8, 0b1010u8), 0b1000);
    assert_eq!(bit_or(0b1100u8, 0b1010u8), 0b1110);
    assert_eq!(bit_xor(0b1100u8, 0b1010u8), 0b0110);
    assert_eq!(bit_and(-1i32, 12345i32), 12345);
    assert_eq!(bit_or(i64::MIN, 1i64), i64::MIN + 1);
    assert_eq!(bit_xor(-1i16, 0i16), -1);
    assert_eq!(bit_xor(u128::MAX, 1u128), u128::MAX - 1);
}

#[test]
fn pointer_sized_types() {
    assert_eq!(<usize as Number>::bit_width(), usize::BITS);
    assert_eq!(gcd(48usize, 36usize), 12);
    assert_eq!(module(-9isize), 9);
    assert_eq!(all_bits(bits(3usize)).len(), usize::BITS as usize);
    assert_eq!(reverse_bits(reverse_bits(-77isize)), -77);
    assert_eq!((-1isize).to_raw(), (usize::MAX) as u128);
    assert_eq!(<isize as Number>::from_raw(usize::MAX as u128), -1);
    assert_eq!(all_digits(digits(usize::MAX)).len(), usize::MAX.to_string().len());
}

#[test]
fn method_forms() {
    assert_eq!(12u32.gcd(18), 6);
    assert_eq!(4u32.lcm(6), 12);
    assert_eq!((-5i32).module(), 5);
    assert_eq!(all_digits(1234u32.digits()), vec![1, 2, 3, 4]);
    assert_eq!(all_bits(5u8.bits()), vec![0, 0, 0, 0, 0, 1, 0, 1]);
    assert_eq!(NumberOps::reverse_bits(1u8), 128);
    assert_eq!(NumberOps::ilog10(12345u64), 4);
    assert_eq!(NumberOps::pow(3i16, 3), 27);
    assert_eq!(NumberOps::leading_zeros(1u16), 15);
    assert!(NumberOps::is_negative(-3i8));
}

#[test]
fn lcm_with_product_at_the_least_value() {
    assert_eq!(lcm(-2i8, 64i8), 64);
    assert_eq!(lcm(-64i8, 2i8), 64);
}

#[test]
fn arithmetic_methods() {
    assert_eq!(NumberOps::add(200u8, 55u8), 255);
    assert_eq!(NumberOps::sub(-100i8, 28i8), -128);
    assert_eq!(NumberOps::mul(-16i16, 8i16), -128);
    assert_eq!(NumberOps::div(7i32, -2i32), 7 / -2);
    assert_eq!(NumberOps::div(-7i32, 2i32), -3);
    assert_eq!(NumberOps::div(u128::MAX, 3u128), u128::MAX / 3);
    assert_eq!(NumberOps::rem(-7i32, 2i32), -1);
    assert_eq!(NumberOps::rem(7i64, -3i64), 7 % -3);
    assert_eq!(NumberOps::div(i8::MIN, 1i8), i8::MIN);
    assert_eq!(NumberOps::rem(17usize, 5usize), 2);
}
