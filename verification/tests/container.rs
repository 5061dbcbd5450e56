//! The sequence container: admitted sizes, contents, and footprint.

use kseqi::SmoVec;

#[test]
fn t1() {
    let v: Vec<i32> = (0..10).collect();
    let sv = SmoVec::from_iter(&v).unwrap();
    assert_eq!(sv.slice(), [0, 1, 2, 3, 4, 5, 6, 7, 8, 9]);
    let v: Vec<i32> = (0..6).collect();
    let sv = SmoVec::from_iter(&v).unwrap();
    assert_eq!(sv.slice(), [0, 1, 2, 3, 4, 5]);
    let v: Vec<i32> = (0..8).collect();
    let sv = SmoVec::from_iter(&v).unwrap();
    assert_eq!(sv.slice(), [0, 1, 2, 3, 4, 5, 6, 7]);
    let v: Vec<i32> = (0..7).collect();
    let sv = SmoVec::from_iter(&v);
    assert!(sv.is_none());
    // the inline shapes must not push the footprint past 32 bytes;
    // the exact size is the compiler's business
    let s = std::mem::size_of::<SmoVec<u8>>();
    assert!(s <= 32);
}

#[test]
fn admitted_sizes() {
    // sizes 2, 4, 6, 8 and everything from 9 to 16 fit; 0, 1, 3, 5, 7
    // are rejected
    for n in 0u8..=16 {
        let v: Vec<u8> = (0..n).collect();
        let sv = SmoVec::new(v.as_slice());
        let admitted = matches!(n, 2 | 4 | 6 | 8) || n > 8;
        assert_eq!(sv.is_some(), admitted, "size {n}");
        if let Some(sv) = sv {
            assert_eq!(sv.slice(), v.as_slice());
        }
    }
}

#[test]
fn equality_follows_contents() {
    let a = SmoVec::new(&[1u8, 2]).unwrap();
    let b = SmoVec::new(&[1u8, 2]).unwrap();
    let c = SmoVec::new(&[2u8, 1]).unwrap();
    assert_eq!(a, b);
    assert_ne!(a, c);
    assert!(kseqi::smovec::codes_eq(a.slice(), b.slice()));
    assert!(!kseqi::smovec::codes_eq(a.slice(), c.slice()));
}
