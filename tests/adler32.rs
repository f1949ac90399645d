use adler32fast::checksum::{pack, split_seed};
use adler32fast::lanes::{add_128, hsum_128, hsum_256, madd_weights_128, sad_epu8_128, shl5_128};
use adler32fast::{sse, Adler32, CpuFeatures};

const ALL: CpuFeatures = CpuFeatures { sse2: true, ssse3: true, sse41: true, avx2: true };
const NONE: CpuFeatures = CpuFeatures { sse2: false, ssse3: false, sse41: false, avx2: false };

fn checksum(cpu: &CpuFeatures, input: &[u8]) -> u32 {
    let mut a = Adler32::new(cpu);
    a.update(input);
    a.as_u32()
}

#[test]
fn known_vectors_on_every_backend() {
    let cases: [(u32, Vec<u8>); 5] = [
        (0x00000001, b"".to_vec()),
        (0x00620062, b"a".to_vec()),
        (0x024d0127, b"abc".to_vec()),
        (0x86af0001, vec![0u8; 100_000]),
        (0x79660b4d, b"a".repeat(100_000)),
    ];
    let tiers = [
        ALL,
        NONE,
        CpuFeatures { sse2: false, ssse3: true, sse41: false, avx2: false },
        CpuFeatures { sse2: true, ssse3: false, sse41: true, avx2: false },
    ];
    for cpu in tiers.iter() {
        for (expected, input) in cases.iter() {
            assert_eq!(checksum(cpu, input), *expected);
        }
    }
}

#[test]
fn seed_one_without_updates_is_one() {
    assert_eq!(Adler32::from_seed(1, &ALL).as_u32(), 1);
    assert_eq!(Adler32::from_seed(1, &NONE).as_u32(), 1);
    assert_eq!(Adler32::new(&ALL).as_u32(), 1);
}

#[test]
fn seed_is_kept_until_bytes_arrive() {
    for &seed in [0u32, 0xffff_ffff, 0x0001_fff1, 0xabcd_1234].iter() {
        let mut a = Adler32::from_seed(seed, &ALL);
        let mut b = Adler32::from_seed(seed, &NONE);
        assert_eq!(a.as_u32(), seed);
        a.update(&[]);
        b.update(&[]);
        assert_eq!(a.as_u32(), seed);
        assert_eq!(b.as_u32(), seed);
    }
}

#[test]
fn resuming_from_a_checksum_continues_the_stream() {
    let data = b"The quick brown fox jumps over the lazy dog".repeat(500);
    let whole = checksum(&ALL, &data);
    let mut first = Adler32::new(&ALL);
    first.update(&data[..12_345]);
    let mut second = Adler32::from_seed(first.as_u32(), &NONE);
    second.update(&data[12_345..]);
    assert_eq!(second.as_u32(), whole);
}

#[test]
fn chunking_does_not_change_the_checksum() {
    let data: Vec<u8> = (0..50_000u32).map(|i| (i * 7 + i / 3) as u8).collect();
    let whole = checksum(&NONE, &data);
    for cpu in [ALL, NONE].iter() {
        let mut a = Adler32::new(cpu);
        let mut at = 0;
        let mut step = 1;
        while at < data.len() {
            let end = (at + step).min(data.len());
            a.update(&data[at..end]);
            at = end;
            step = step * 3 + 1;
        }
        assert_eq!(a.as_u32(), whole);
    }
}

#[test]
fn backend_choice_follows_the_processor() {
    assert!(Adler32::new(&ALL).is_simd_enabled());
    assert!(!Adler32::new(&NONE).is_simd_enabled());
    assert!(!Adler32::internal_new_baseline(1).is_simd_enabled());
    assert!(Adler32::internal_new_specialized(1, &NONE).is_none());
    let s = Adler32::internal_new_specialized(7, &ALL).unwrap();
    assert!(s.is_simd_enabled());
    assert_eq!(s.as_u32(), 7);
}

#[test]
fn reset_keeps_the_backend() {
    for cpu in [ALL, NONE].iter() {
        let mut a = Adler32::from_seed(0x1234_5678, cpu);
        let simd = a.is_simd_enabled();
        a.update(b"abcdef");
        a.reset();
        assert_eq!(a.as_u32(), 1);
        assert_eq!(a.is_simd_enabled(), simd);
        a.update(b"a");
        assert_eq!(a.as_u32(), 0x00620062);
    }
}

#[test]
fn standalone_accumulator_matches_known_vectors() {
    let mut a = sse::Adler32::new();
    assert_eq!(a.hash(), 1);
    a.update(b"abc");
    assert_eq!(a.hash(), 0x024d0127);
    let mut b = sse::Adler32::default();
    b.update(&b"a".repeat(100_000));
    assert_eq!(b.hash(), 0x79660b4d);
    let mut c = sse::Adler32::from(0xffff_ffff);
    c.update(&[]);
    assert_eq!(c.hash(), 0xffff_ffff);
    let data = vec![100u8; sse::NMAX * 4 + 3];
    let mut d = sse::Adler32::from(1);
    d.update(&data);
    assert_eq!(d.hash(), checksum(&NONE, &data));
}

#[test]
fn seed_splits_and_packs() {
    assert_eq!(split_seed(0x024d_0127), (0x0127, 0x024d));
    assert_eq!(pack(0x0127, 0x024d), 0x024d_0127);
}

#[test]
fn lane_operations() {
    let bytes: Vec<u8> = (1..=16).collect();
    assert_eq!(sad_epu8_128(&bytes), [36, 0, 100, 0]);
    // weights 32, 31, ... against bytes 1, 2, ...
    assert_eq!(madd_weights_128(&bytes, 32), [32 + 62 + 90 + 116, 140 + 162 + 182 + 200, 216 + 230 + 242 + 252, 260 + 266 + 270 + 272]);
    assert_eq!(add_128([1, 2, 3, 4], [10, 20, 30, 40]), [11, 22, 33, 44]);
    assert_eq!(add_128([u32::MAX, 0, 0, 0], [1, 0, 0, 0]), [0, 0, 0, 0]);
    assert_eq!(shl5_128([1, 2, 3, 4]), [32, 64, 96, 128]);
    assert_eq!(hsum_128([1, 2, 3, 4]), 10);
    assert_eq!(hsum_256([1, 2, 3, 4, 5, 6, 7, 8]), 36);
}
