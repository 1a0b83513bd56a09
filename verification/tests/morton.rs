use ara::morton::{decode_lut, encode_lut, morton_decode, morton_encode};

#[test]
fn encode_decode_roundtrip() {
    for z in 0..8u32 {
        for y in 0..8u32 {
            for x in 0..8u32 {
                let code = morton_encode(x, y, z);
                assert!(code < 512, "code {code} >= 512 for ({x},{y},{z})");
                let (dx, dy, dz) = morton_decode(code);
                assert_eq!((dx, dy, dz), (x, y, z), "roundtrip failed for ({x},{y},{z})");
            }
        }
    }
}

#[test]
fn lut_matches_encode() {
    let lut = encode_lut();
    for z in 0..8u32 {
        for y in 0..8u32 {
            for x in 0..8u32 {
                let linear = z * 64 + y * 8 + x;
                let expected = morton_encode(x, y, z);
                assert_eq!(lut[linear as usize] as u32, expected);
            }
        }
    }
}

#[test]
fn lut_decode_matches() {
    let lut = decode_lut();
    for code in 0..512u32 {
        let (x, y, z) = morton_decode(code);
        let packed = lut[code as usize];
        assert_eq!((packed & 7) as u32, x);
        assert_eq!(((packed >> 3) & 7) as u32, y);
        assert_eq!(((packed >> 6) & 7) as u32, z);
    }
}

#[test]
fn origin_is_zero() {
    assert_eq!(morton_encode(0, 0, 0), 0);
}

#[test]
fn all_codes_unique() {
    let mut seen = [false; 512];
    for z in 0..8u32 {
        for y in 0..8u32 {
            for x in 0..8u32 {
                let code = morton_encode(x, y, z) as usize;
                assert!(!seen[code], "duplicate Morton code {code}");
                seen[code] = true;
            }
        }
    }
}

#[test]
fn morton_known_codes() {
    // x occupies bits 0, 3, 6; y bits 1, 4, 7; z bits 2, 5, 8.
    assert_eq!(morton_encode(1, 0, 0), 1);
    assert_eq!(morton_encode(0, 1, 0), 2);
    assert_eq!(morton_encode(0, 0, 1), 4);
    assert_eq!(morton_encode(2, 0, 0), 8);
    assert_eq!(morton_encode(7, 7, 7), 511);
    assert_eq!(morton_encode(5, 0, 0), 0b001_000_001);
    // Bits above the low three are ignored.
    assert_eq!(morton_encode(9, 0, 0), morton_encode(1, 0, 0));
    assert_eq!(morton_decode(511), (7, 7, 7));
    assert_eq!(morton_decode(0b100_010_001), (1, 2, 4));
}
