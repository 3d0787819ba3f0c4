use stash::frontier::Frontiers;
use stash::lexical::{bytes_eq, copy_bytes};
use stash::text::{decimal_len, push_decimal, push_padded_decimal, push_signed_decimal};

#[test]
fn decimal_text() {
    let text = |n: u64| {
        let mut out = String::from("n=");
        push_decimal(&mut out, n);
        out
    };
    assert_eq!(text(0), "n=0");
    assert_eq!(text(9), "n=9");
    assert_eq!(text(10), "n=10");
    assert_eq!(text(1234567890), "n=1234567890");
    assert_eq!(text(u64::MAX), "n=18446744073709551615");
    let signed = |n: i64| {
        let mut out = String::new();
        push_signed_decimal(&mut out, n);
        out
    };
    assert_eq!(signed(0), "0");
    assert_eq!(signed(-1), "-1");
    assert_eq!(signed(i64::MAX), "9223372036854775807");
    assert_eq!(signed(i64::MIN), "-9223372036854775808");
    let padded = |n: u64, width: usize| {
        let mut out = String::new();
        push_padded_decimal(&mut out, n, width);
        out
    };
    assert_eq!(padded(7, 2), "07");
    assert_eq!(padded(0, 2), "00");
    assert_eq!(padded(42, 2), "42");
    assert_eq!(padded(123, 2), "123");
    assert_eq!(padded(5, 0), "5");
    assert_eq!(padded(5, 9), "000000005");
    assert_eq!(decimal_len(0), 1);
    assert_eq!(decimal_len(99), 2);
    assert_eq!(decimal_len(100), 3);
    assert_eq!(decimal_len(u64::MAX), 20);
}

#[test]
fn byte_strings() {
    assert!(bytes_eq(b"", b""));
    assert!(bytes_eq(b"abc", b"abc"));
    assert!(!bytes_eq(b"abc", b"abd"));
    assert!(!bytes_eq(b"abc", b"ab"));
    assert_eq!(copy_bytes(b"abc"), b"abc".to_vec());
    assert_eq!(copy_bytes(b""), Vec::<u8>::new());
}

#[test]
fn frontier_pair() {
    let mut f = Frontiers::new();
    assert_eq!((f.since(), f.upper()), (0, 0));
    assert!(f.admits(0));
    assert!(!f.admits(-1));
    assert!(f.compact(1).is_err());
    assert!(f.seal(-1).is_err());
    f.seal(10).unwrap();
    assert!(!f.admits(9));
    assert!(f.admits(10));
    f.compact(10).unwrap();
    assert_eq!((f.since(), f.upper()), (10, 10));
    assert!(f.compact(9).is_err());
    assert!(f.compact(11).is_err());
    f.seal(i64::MAX).unwrap();
    f.compact(i64::MAX).unwrap();
    assert_eq!((f.since(), f.upper()), (i64::MAX, i64::MAX));
}
