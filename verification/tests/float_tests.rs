use scriptc::ast::{BinOp, Float};
use scriptc::lexer::Lexer;
use scriptc::token::Token;

fn lex_float(text: &str) -> Option<u32> {
    let mut lexer = Lexer::new(text);
    match lexer.tokenize() {
        Ok(tokens) => match &tokens[0].0 {
            Token::Float(f) => {
                assert_eq!(tokens.len(), 2, "{} is more than one token", text);
                Some(f.bits)
            }
            other => panic!("{} gave {:?}", text, other),
        },
        Err(_) => None,
    }
}

fn expect_literal(text: &str) {
    let want: f32 = text.parse().unwrap();
    let got = lex_float(text);
    if want.is_finite() {
        assert_eq!(got, Some(want.to_bits()), "literal {}", text);
    } else {
        assert_eq!(got, None, "literal {}", text);
    }
}

#[test]
fn literals_round_like_the_hardware() {
    for text in [
        "0.0", "1.0", "3.0", "2.5", "0.1", "0.2", "0.3", "3.14159", "1e10", "1.5e-7", "1E5",
        "123456789.0", "16777216.0", "16777217.0", "16777218.0", "16777219.0", "0.5", ".5", "5.",
        "1.e2", "1e+2", "1e-2", "3.4028235e38", "3.4028236e38", "3.40282357e38", "1e38", "1e39",
        "1.17549435e-38", "1.1754942e-38", "1e-45", "1.4e-45", "0.7e-45", "0.70064923216e-45",
        "0.8e-45", "2.1e-45", "1e-46", "1e-60", "0e99", "0.0e-99", "1e-400", "1e400",
        "0.00000000000000000000000000000000000000000000000001e50",
        "100000000000000000000000000000000000000000000000000e-50",
        "4.2949673e9", "8388608.5", "8388609.5", "8388607.5", "0.333333333333333333333333333333",
        "9007199254740993.0", "1.00000017881393432617187500", "1.00000017881393432617187501",
        "1.00000005960464477539062500", "1.00000005960464477539062499",
        "340282356779733661637539395458142568448.0", "340282356779733661637539395458142568447.0",
    ] {
        expect_literal(text);
    }
}

#[test]
fn literal_with_large_exponent_of_zero_digits() {
    assert_eq!(lex_float("0e999999999999999999999999999999999999"), Some(0));
    assert_eq!(lex_float("1e-999999999999999999999999999999999999"), Some(0));
    assert_eq!(lex_float("1e999999999999999999999999999999999999"), None);
}

struct Rng(u64);

impl Rng {
    fn next_bits(&mut self) -> u32 {
        self.0 = self.0.wrapping_mul(6364136223846793005).wrapping_add(1442695040888963407);
        (self.0 >> 32) as u32
    }
}

fn interesting_values() -> Vec<u32> {
    let mut values = vec![
        0x0000_0000, 0x8000_0000, 0x0000_0001, 0x8000_0001, 0x0000_0002, 0x007F_FFFF, 0x0080_0000,
        0x0080_0001, 0x00FF_FFFF, 0x3F80_0000, 0xBF80_0000, 0x3F00_0000, 0x4000_0000, 0x4040_0000,
        0x3F80_0001, 0x3F7F_FFFF, 0x7F7F_FFFF, 0xFF7F_FFFF, 0x7F00_0000, 0x4B00_0000, 0x4B80_0000,
        0x4B7F_FFFF, 0x3DCC_CCCD, 0x3E4C_CCCD, 0x7F80_0000, 0xFF80_0000, 0x7FC0_0000, 0x7F80_0001,
        0x0040_0000, 0x3400_0000, 0x3380_0000, 0x33FF_FFFF, 0x5F00_0000, 0x1F80_0000, 0x2000_0000,
    ];
    let mut rng = Rng(42);
    for _ in 0..25 {
        values.push(rng.next_bits());
    }
    values
}

fn hardware(op: BinOp, a: f32, b: f32) -> f32 {
    match op {
        BinOp::Add => a + b,
        BinOp::Sub => a - b,
        BinOp::Mul => a * b,
        _ => a / b,
    }
}

fn check_against_hardware(op: BinOp) {
    let values = interesting_values();
    for &a in &values {
        for &b in &values {
            let want = hardware(op, f32::from_bits(a), f32::from_bits(b));
            let got = Float::from_bits(a).arith(op, Float::from_bits(b)).unwrap();
            if want.is_nan() {
                assert_eq!(got.bits, 0x7FC0_0000, "{:?} of {:#x} and {:#x}", op, a, b);
            } else {
                assert_eq!(got.bits, want.to_bits(), "{:?} of {:#x} and {:#x}", op, a, b);
            }
        }
    }
}

#[test]
fn remainder_and_comparisons_are_no_arithmetic() {
    let one = Float::from_bits(1.0f32.to_bits());
    assert_eq!(one.arith(BinOp::Mod, one), None);
    assert_eq!(one.arith(BinOp::Lt, one), None);
}

#[test]
fn sums_agree_with_the_hardware() {
    check_against_hardware(BinOp::Add);
}

#[test]
fn differences_agree_with_the_hardware() {
    check_against_hardware(BinOp::Sub);
}

#[test]
fn products_agree_with_the_hardware() {
    check_against_hardware(BinOp::Mul);
}

#[test]
fn quotients_agree_with_the_hardware() {
    check_against_hardware(BinOp::Div);
}

#[test]
fn comparisons_agree_with_the_hardware() {
    let values = interesting_values();
    for &a in &values {
        for &b in &values {
            let x = f32::from_bits(a);
            let y = f32::from_bits(b);
            let fa = Float::from_bits(a);
            let fb = Float::from_bits(b);
            assert_eq!(fa.compare(BinOp::Eq, fb), x == y);
            assert_eq!(fa.compare(BinOp::Ne, fb), x != y);
            assert_eq!(fa.compare(BinOp::Lt, fb), x < y);
            assert_eq!(fa.compare(BinOp::Gt, fb), x > y);
            assert_eq!(fa.compare(BinOp::Le, fb), x <= y);
            assert_eq!(fa.compare(BinOp::Ge, fb), x >= y);
        }
    }
}

#[test]
fn negation_flips_the_sign() {
    for &a in &interesting_values() {
        assert_eq!(Float::from_bits(a).negate().bits, (-f32::from_bits(a)).to_bits());
        assert_eq!(Float::from_bits(a).is_zero(), f32::from_bits(a) == 0.0);
        assert_eq!(Float::from_bits(a).is_nan(), f32::from_bits(a).is_nan());
        assert_eq!(Float::from_bits(a).is_finite(), f32::from_bits(a).is_finite());
    }
}

#[test]
fn one_third_is_rounded_to_nearest() {
    let one = Float::from_bits(1.0f32.to_bits());
    let three = Float::from_bits(3.0f32.to_bits());
    assert_eq!(one.quotient(three), Float::from_bits(0x3EAA_AAAB));
}

#[test]
fn ties_go_to_the_even_fraction() {
    // 2^24 + 1 lies halfway between 2^24 and 2^24 + 2.
    let big = Float::from_bits(16777216.0f32.to_bits());
    let one = Float::from_bits(1.0f32.to_bits());
    assert_eq!(big.sum(one), big);
    let next = Float::from_bits(16777218.0f32.to_bits());
    assert_eq!(next.sum(one), Float::from_bits(16777220.0f32.to_bits()));
}

fn text_of(value: f32) -> String {
    Float::from_bits(value.to_bits()).to_string()
}

#[test]
fn float_text_is_the_exact_value() {
    assert_eq!(text_of(0.0), "0.0");
    assert_eq!(text_of(-0.0), "-0.0");
    assert_eq!(text_of(1.0), "1.0");
    assert_eq!(text_of(3.0), "3.0");
    assert_eq!(text_of(-2.5), "-2.5");
    assert_eq!(text_of(0.5), "0.5");
    assert_eq!(text_of(0.375), "0.375");
    assert_eq!(text_of(1024.0), "1024.0");
    assert_eq!(text_of(16777216.0), "16777216.0");
    assert_eq!(text_of(123456.789), "123456.7890625");
    assert_eq!(text_of(0.1), "0.100000001490116119384765625");
    assert_eq!(text_of(1e10), "10000000000.0");
    assert_eq!(text_of(f32::MAX), "340282346638528859811704183484516925440.0");
    assert_eq!(
        text_of(f32::from_bits(1)),
        "0.00000000000000000000000000000000000000000000140129846432481707092372958328991613128026194187651577175706828388979108268586060148663818836212158203125"
    );
    assert_eq!(text_of(f32::INFINITY), "inf");
    assert_eq!(text_of(f32::NEG_INFINITY), "-inf");
    assert_eq!(Float::from_bits(0x7FC0_0000).to_string(), "nan");
    assert_eq!(Float::from_bits(0xFFC0_0001).to_string(), "-nan");
}

#[test]
fn float_text_reads_back_as_the_same_float() {
    for &bits in &interesting_values() {
        let value = f32::from_bits(bits);
        if !value.is_finite() {
            continue;
        }
        let text = Float::from_bits(bits).to_string();
        let read: f32 = text.parse().unwrap();
        assert_eq!(read.to_bits(), bits, "{}", text);
        if bits < 0x8000_0000 {
            assert_eq!(lex_float(&text), Some(bits), "{}", text);
        }
    }
}
