use adler32fast::baseline;
use adler32fast::specialized::{avx2, sse, ssse3, State};
use adler32fast::CpuFeatures;

const ALL: CpuFeatures = CpuFeatures { sse2: true, ssse3: true, sse41: true, avx2: true };
const NONE: CpuFeatures = CpuFeatures { sse2: false, ssse3: false, sse41: false, avx2: false };

fn pseudo_random(len: usize, seed: u32) -> Vec<u8> {
    let mut x = seed;
    (0..len)
        .map(|_| {
            x = x.wrapping_mul(1_103_515_245).wrapping_add(12_345);
            (x >> 16) as u8
        })
        .collect()
}

fn scalar(init: u32, buf: &[u8]) -> u32 {
    let mut s = baseline::State::new(init);
    s.update(buf);
    s.finalize()
}

#[test]
fn avx2_is_valid_for_large_input() {
    let v = vec![100; avx2::NMAX * 4];
    let mut expected = baseline::State::new(1);
    let mut actual = avx2::State::new(1, &ALL).expect("avx2 not supported");
    expected.update(&v);
    actual.update(&v);
    assert_eq!(expected.finalize(), actual.finalize())
}

#[test]
fn ssse3_is_valid_for_large_input() {
    let v = vec![100; ssse3::NMAX * 4];
    let mut expected = baseline::State::new(1);
    let mut actual = ssse3::State::new(1, &ALL).expect("ssse3 not supported");
    expected.update(&v);
    actual.update(&v);
    assert_eq!(expected.finalize(), actual.finalize())
}

#[test]
fn sse_is_valid_for_large_input() {
    let v = vec![255; sse::NMAX * 4 + 17];
    let mut actual = sse::State::new(1, &ALL).expect("sse not supported");
    actual.update(&v);
    assert_eq!(actual.finalize(), scalar(1, &v));
}

#[test]
fn backends_match_scalar_on_many_lengths() {
    let seeds = [0u32, 1, 0xffff_ffff, 0x1234_5678, 0xfff0_fff0];
    let lengths = [0usize, 1, 15, 16, 31, 32, 33, 63, 64, 100, 5535, 5536, 5537, 5552, 5553, 11072, 20000];
    for &init in seeds.iter() {
        for &len in lengths.iter() {
            let buf = pseudo_random(len, init ^ len as u32);
            let expected = scalar(init, &buf);
            let mut a = avx2::State::new(init, &ALL).unwrap();
            let mut b = ssse3::State::new(init, &ALL).unwrap();
            let mut c = sse::State::new(init, &ALL).unwrap();
            a.update(&buf);
            b.update(&buf);
            c.update(&buf);
            assert_eq!(a.finalize(), expected, "avx2, seed {:#x}, length {}", init, len);
            assert_eq!(b.finalize(), expected, "ssse3, seed {:#x}, length {}", init, len);
            assert_eq!(c.finalize(), expected, "sse, seed {:#x}, length {}", init, len);
        }
    }
}

#[test]
fn empty_update_keeps_unreduced_seed() {
    let mut a = avx2::State::new(0xffff_ffff, &ALL).unwrap();
    let mut b = ssse3::State::new(0xffff_ffff, &ALL).unwrap();
    let mut c = sse::State::new(0xffff_ffff, &ALL).unwrap();
    a.update(&[]);
    b.update(&[]);
    c.update(&[]);
    assert_eq!(a.finalize(), 0xffff_ffff);
    assert_eq!(b.finalize(), 0xffff_ffff);
    assert_eq!(c.finalize(), 0xffff_ffff);
    assert_eq!(scalar(0xffff_ffff, &[]), 0xffff_ffff);
}

#[test]
fn backends_support_random_alignment() {
    let data = pseudo_random(4096 + 16, 7);
    let expected = scalar(1, &data[..4096]);
    for offset in 0..16 {
        let mut copy = vec![0u8; offset];
        copy.extend_from_slice(&data[..4096]);
        let slice = &copy[offset..];
        let mut a = avx2::State::new(1, &ALL).unwrap();
        let mut b = ssse3::State::new(1, &ALL).unwrap();
        let mut c = sse::State::new(1, &ALL).unwrap();
        a.update(slice);
        b.update(slice);
        c.update(slice);
        assert_eq!(a.finalize(), expected);
        assert_eq!(b.finalize(), expected);
        assert_eq!(c.finalize(), expected);
        assert_eq!(scalar(1, slice), expected);
    }
}

#[test]
fn chunked_updates_match_one_update() {
    let data = pseudo_random(30_000, 99);
    let expected = scalar(1, &data);
    let cuts = [1usize, 7, 16, 31, 32, 33, 1000, 5536, 5552, 9999];
    for &cut in cuts.iter() {
        let mut base = baseline::State::new(1);
        let mut vec = State::new(1, &ALL).unwrap();
        for piece in data.chunks(cut) {
            base.update(piece);
            vec.update(piece);
        }
        assert_eq!(base.finalize(), expected);
        assert_eq!(vec.finalize(), expected);
    }
}

#[test]
fn backends_need_their_instruction_sets() {
    assert!(avx2::State::new(1, &NONE).is_none());
    assert!(ssse3::State::new(1, &NONE).is_none());
    assert!(sse::State::new(1, &NONE).is_none());
    assert!(State::new(1, &NONE).is_none());
    let only_sse2 = CpuFeatures { sse2: true, ssse3: false, sse41: false, avx2: false };
    assert!(sse::State::new(1, &only_sse2).is_none());
    assert!(State::new(1, &only_sse2).is_none());
    let sse41 = CpuFeatures { sse2: true, ssse3: false, sse41: true, avx2: false };
    assert!(sse::State::new(1, &sse41).is_some());
    assert!(State::new(1, &sse41).is_some());
    let only_avx2 = CpuFeatures { sse2: false, ssse3: false, sse41: false, avx2: true };
    assert!(avx2::State::new(1, &only_avx2).is_some());
    assert!(ssse3::State::new(1, &only_avx2).is_none());
}

#[test]
fn vector_reset_returns_to_identity() {
    let mut s = State::new(0xdead_beef, &ALL).unwrap();
    s.update(b"some bytes");
    s.reset();
    assert_eq!(s.finalize(), 1);
    s.update(b"abc");
    assert_eq!(s.finalize(), 0x024d0127);
}
