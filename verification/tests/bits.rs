//! Unpacking the packed key bitmap into bit positions.

use kseqi::layout::bits_to_poss;

#[test]
fn bps() {
    let v: Vec<u8> = bits_to_poss(&[0; 32]);
    assert!(v.is_empty());
    let mut b = [0; 32];
    b[0] = 1;
    let v: Vec<u8> = bits_to_poss(&b);
    assert_eq!(v, [0]);
    let mut b = [0; 32];
    b[0] = 2;
    let v: Vec<u8> = bits_to_poss(&b);
    assert_eq!(v, [1]);
    let mut b = [0; 32];
    b[0] = 3;
    let v: Vec<u8> = bits_to_poss(&b);
    assert_eq!(v, [0, 1]);
}

#[test]
fn bps1() {
    let mut b = [0; 32];
    b[0] = 4;
    let v: Vec<u8> = bits_to_poss(&b);
    assert_eq!(v, [2]);
    let mut b = [0; 32];
    b[0] = 6;
    let v: Vec<u8> = bits_to_poss(&b);
    assert_eq!(v, [1, 2]);
    let mut b = [0; 32];
    b[0] = 20;
    let v: Vec<u8> = bits_to_poss(&b);
    assert_eq!(v, [2, 4]);
}

#[test]
fn bps2() {
    let mut b = [0; 32];
    b[3] = 4;
    let v: Vec<u8> = bits_to_poss(&b);
    assert_eq!(v, [26]);
    let mut b = [0; 32];
    b[3] = 6;
    let v: Vec<u8> = bits_to_poss(&b);
    assert_eq!(v, [25, 26]);
    let mut b = [0; 32];
    b[3] = 20;
    let v: Vec<u8> = bits_to_poss(&b);
    assert_eq!(v, [26, 28]);
    let mut b = [0; 32];
    b[3] = 20;
    b[4] = 9;
    let v: Vec<u8> = bits_to_poss(&b);
    assert_eq!(v, [26, 28, 32, 35]);
}
