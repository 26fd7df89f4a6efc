use photo2video::planes::{max_filter, min_downsample, min_filter, Plane};
use photo2video::scalar::Scalar;

fn key(v: f32) -> i32 {
    Scalar { bits: v.to_bits() }.key()
}

#[test]
fn sliding_extremes_match_brute_force() {
    let w = 23;
    let h = 5;
    let mut d: Vec<f32> = vec![0.0; w * h];
    for (i, v) in d.iter_mut().enumerate() {
        *v = ((i * 7 % 13) as f32 - 6.0) / 6.0;
    }
    let p = Plane { w, h, d: d.iter().map(|v| key(*v)).collect() };
    for r in [1usize, 3, 8, 30] {
        let lo = min_filter(&p, r);
        let hi = max_filter(&p, r);
        for y in 0..h {
            for x in 0..w {
                let (mut bmin, mut bmax) = (f32::INFINITY, f32::NEG_INFINITY);
                for yy in y.saturating_sub(r)..(y + r + 1).min(h) {
                    for xx in x.saturating_sub(r)..(x + r + 1).min(w) {
                        bmin = bmin.min(d[yy * w + xx]);
                        bmax = bmax.max(d[yy * w + xx]);
                    }
                }
                let least = f32::from_bits(Scalar::from_key(lo.d[y * w + x]).bits);
                let greatest = f32::from_bits(Scalar::from_key(hi.d[y * w + x]).bits);
                assert_eq!(least, bmin, "min r={r} at ({x},{y})");
                assert_eq!(greatest, bmax, "max r={r} at ({x},{y})");
            }
        }
    }
}

#[test]
fn tiny_planes_are_filtered() {
    for (w, h) in [(1, 1), (1, 7), (7, 1), (2, 3), (0, 0)] {
        let p = Plane { w, h, d: (0..(w * h) as i32).collect() };
        let lo = min_filter(&p, 2);
        let hi = max_filter(&p, 2);
        assert_eq!((lo.w, lo.h, lo.d.len()), (w, h, w * h));
        for i in 0..w * h {
            assert!(lo.d[i] <= p.d[i] && p.d[i] <= hi.d[i]);
        }
    }
}

#[test]
fn opening_removes_thin_lines() {
    let (w, h) = (9, 9);
    let mut d = vec![10; w * h];
    for y in 0..h {
        d[y * w + 4] = 200;
    }
    let p = Plane { w, h, d };
    let opened = max_filter(&min_filter(&p, 1), 1);
    assert!(opened.d.iter().all(|v| *v == 10));
}

#[test]
fn order_of_numbers_is_kept() {
    let v = [-3.5f32, -0.25, -1e-30, 0.0, 1e-40, 0.5, 1.0, 7e9];
    for a in v {
        for b in v {
            assert_eq!(a < b, key(a) < key(b));
        }
        assert_eq!(f32::from_bits(Scalar::from_key(key(a)).bits), a);
    }
    assert_eq!(key(-0.0), key(0.0));
}

#[test]
fn blocks_become_their_least_value() {
    let px: Vec<u8> = vec![9, 8, 7, 200, 5, 6, 250, 255, 255, 255, 255, 255];
    assert_eq!(min_downsample(&px, 4, 3, 2, 1), vec![5, 7]);
    assert_eq!(min_downsample(&px, 4, 3, 4, 3), px);
    assert_eq!(min_downsample(&px, 4, 3, 1, 1), vec![5]);
}

#[test]
fn blocks_need_not_divide_the_picture() {
    let (w, h, tw, th) = (7usize, 5usize, 3usize, 2usize);
    let px: Vec<u8> = (0..w * h).map(|i| (i * 37 % 251) as u8).collect();
    let out = min_downsample(&px, w, h, tw, th);
    let mut want = vec![255u8; tw * th];
    for y in 0..h {
        for x in 0..w {
            let (bx, by) = ((x * tw / w).min(tw - 1), (y * th / h).min(th - 1));
            let o = &mut want[by * tw + bx];
            *o = (*o).min(px[y * w + x]);
        }
    }
    assert_eq!(out, want);
}

#[test]
fn greatest_values_are_the_least_negated_ones() {
    let (w, h) = (9, 6);
    let v: Vec<f32> = (0..w * h).map(|i| ((i * 11 % 17) as f32 - 8.0) / 3.0).collect();
    let p = Plane { w, h, d: v.iter().map(|x| key(*x)).collect() };
    let n = Plane { w, h, d: v.iter().map(|x| key(-*x)).collect() };
    for r in [0, 1, 2, 7, usize::MAX] {
        let (lo, hi, neg) = (min_filter(&p, r), max_filter(&p, r), min_filter(&n, r));
        for i in 0..w * h {
            assert_eq!(hi.d[i], -neg.d[i]);
            assert!(lo.d[i] <= p.d[i] && p.d[i] <= hi.d[i]);
        }
    }
}
