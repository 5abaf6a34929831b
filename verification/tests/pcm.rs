use azva::single::Single;

fn f32_to_i16(samples: &[f32]) -> Vec<i16> {
    let singles: Vec<Single> = samples.iter().map(|x| Single { bits: x.to_bits() }).collect();
    azva::pcm::f32_to_i16(&singles)
}

fn i16_to_f32(samples: &[i16]) -> Vec<f32> {
    azva::pcm::i16_to_f32(samples).iter().map(|x| f32::from_bits(x.bits)).collect()
}

#[test]
fn f32_to_i16_positive_clamp() {
    assert_eq!(f32_to_i16(&[1.0]), vec![32767]);
    assert_eq!(f32_to_i16(&[2.0]), vec![32767]); // clamped
}

#[test]
fn f32_to_i16_negative_clamp() {
    assert_eq!(f32_to_i16(&[-1.0]), vec![-32767]);
    assert_eq!(f32_to_i16(&[-2.0]), vec![-32767]); // clamped
}

#[test]
fn f32_to_i16_zero() {
    assert_eq!(f32_to_i16(&[0.0]), vec![0]);
}

#[test]
fn i16_to_f32_roundtrip_within_epsilon() {
    let original = vec![0.5f32, -0.5, 0.0, 0.999];
    let converted = f32_to_i16(&original);
    let back = i16_to_f32(&converted);
    for (a, b) in original.iter().zip(back.iter()) {
        assert!((a - b).abs() < 0.001, "roundtrip error: {a} vs {b}");
    }
}

#[test]
fn f32_to_i16_batch() {
    let input = vec![0.0f32; 512];
    assert_eq!(f32_to_i16(&input).len(), 512);
}

#[test]
fn integers_become_quotients_within_one() {
    let all: Vec<i16> = (i16::MIN..=i16::MAX).collect();
    let samples = i16_to_f32(&all);
    assert_eq!(samples.len(), all.len());
    for (n, x) in all.iter().zip(samples.iter()) {
        assert!(-1.0 <= *x && *x <= 1.0, "{n}");
        if *n > i16::MIN {
            assert_eq!(x.to_bits(), (*n as f32 / 32767.0).to_bits(), "{n}");
        }
    }
    assert_eq!(i16_to_f32(&[i16::MIN, -32767, 32767]), vec![-1.0, -1.0, 1.0]);
}

#[test]
fn samples_become_the_product_cut_to_an_integer() {
    let mut samples: Vec<f32> = vec![
        f32::NAN, f32::INFINITY, f32::NEG_INFINITY, -0.0, 1e-45, -1e-40, f32::MIN_POSITIVE, 3.0e-5, 3.1e-5,
        0.999_999_94, -0.999_999_94, 0.5, 0.25, 1.0 / 3.0,
    ];
    let mut bits: u32 = 12345;
    for _ in 0..20_000 {
        bits = bits.wrapping_mul(1_664_525).wrapping_add(1_013_904_223);
        samples.push(f32::from_bits(bits));
        samples.push((bits as f32 / u32::MAX as f32) * 2.0 - 1.0);
    }
    let integers = f32_to_i16(&samples);
    for (x, n) in samples.iter().zip(integers.iter()) {
        assert_eq!(*n, (x.clamp(-1.0, 1.0) * 32767.0) as i16, "{x}");
    }
}
