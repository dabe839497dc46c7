use lancam::single::Single;

fn single(x: f32) -> Single {
    Single::from_bits(x.to_bits())
}

/// A spread of bit patterns: every exponent, with significands at and around
/// the ends and a few in between.
fn patterns() -> Vec<u32> {
    let mut out = Vec::new();
    let mut seed: u32 = 0x1234_5678;
    for e in 0..=255u32 {
        for f in [0u32, 1, 2, 3, 0x3f_ffff, 0x40_0000, 0x40_0001, 0x7f_fffe, 0x7f_ffff] {
            out.push((e << 23) | f);
        }
        for _ in 0..3 {
            seed = seed.wrapping_mul(1_664_525).wrapping_add(1_013_904_223);
            out.push((e << 23) | (seed >> 9));
        }
    }
    out
}

fn same(got: Single, want: f32) -> bool {
    let x = f32::from_bits(got.bits);
    (x.is_nan() && want.is_nan()) || got.bits == want.to_bits()
}

#[test]
fn gap_agrees_with_the_machine() {
    let all = patterns();
    for (i, &a) in all.iter().enumerate() {
        for &b in all.iter().skip(i % 7).step_by(7) {
            for (x, y) in [(a, b), (a | 0x8000_0000, b), (a | 0x8000_0000, b | 0x8000_0000)] {
                let want = (f32::from_bits(x) - f32::from_bits(y)).abs();
                let got = Single::from_bits(x).gap(Single::from_bits(y));
                assert!(same(got, want), "{x:#x} {y:#x}: {:#x}, not {want}", got.bits);
            }
        }
    }
}

#[test]
fn times_agrees_with_the_machine() {
    let all = patterns();
    for k in [10.0f32, 1000.0, 0.9, 1.0, 1e-30, 3e38, f32::from_bits(1)] {
        for &a in &all {
            for x in [a, a | 0x8000_0000] {
                let want = f32::from_bits(x) * k;
                let got = Single::from_bits(x).times(single(k));
                assert!(same(got, want), "{x:#x} * {k}: {:#x}", got.bits);
            }
        }
    }
}

#[test]
fn over_agrees_with_the_machine() {
    let all: Vec<u32> = patterns().into_iter().filter(|p| *p < 0x7f80_0000).collect();
    for (i, &a) in all.iter().enumerate() {
        for &b in all.iter().skip(i % 11).step_by(11) {
            let want = f32::from_bits(a) / f32::from_bits(b);
            let got = Single::from_bits(a).over(Single::from_bits(b));
            assert!(same(got, want), "{a:#x} / {b:#x}: {:#x}", got.bits);
        }
    }
}

#[test]
fn conversions_agree_with_the_machine() {
    for &a in &patterns() {
        for x in [a, a | 0x8000_0000] {
            let f = f32::from_bits(x);
            let s = Single::from_bits(x);
            assert_eq!(s.to_i64(), f as i64, "{x:#x}");
            assert_eq!(s.round_to_i64(), f.round() as i64, "{x:#x}");
            assert!(same(s.round(), f.round()), "{x:#x}");
            for y in [0u32, 0x8000_0000, x, 0x3f80_0000] {
                let g = f32::from_bits(y);
                assert_eq!(s.equal(Single::from_bits(y)), f == g, "{x:#x} {y:#x}");
            }
        }
    }
    for i in 0..64u32 {
        for k in [1u64 << i, (1u64 << i) - 1, (1u64 << i) + 1, u64::MAX - i as u64] {
            assert_eq!(Single::from_integer(k).bits, (k as f32).to_bits(), "{k}");
        }
    }
    for s in i16::MIN..=i16::MAX {
        assert_eq!(Single::from_sample(s).bits, (s as f32 / 32768.0).to_bits(), "{s}");
    }
}
