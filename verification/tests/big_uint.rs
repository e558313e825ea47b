use calculator::types::big_uint::BigUInt;

#[test]
fn compare() {
    let num1 = BigUInt::from(vec![12, 34, 127]);
    let num2 = BigUInt::from(vec![12, 34, 255]);
    let num3 = BigUInt::from(vec![12, 34]);
    assert!(num1 < num2);
    assert!(num1 > num3);
    assert!(num2 > num3);
    assert_eq!(num1, num1);
}

#[test]
fn sum() {
    let num1 = BigUInt::from(vec![12, 34, 127]);
    let num2 = BigUInt::from(vec![12, 34, 255]);
    let sum = BigUInt::from(vec![24, 68, 126, 1]);
    assert_eq!(num1 + num2, sum);
}

#[test]
fn strip_leading_zeros() {
    let mut num1 = BigUInt::from(vec![0, 0, 0]);
    let mut num2 = BigUInt::from(vec![24, 0, 0]);
    let mut num3 = BigUInt::from(vec![24, 12]);
    let res1 = BigUInt::from(vec![0]);
    let res2 = BigUInt::from(vec![24]);
    let res3 = BigUInt::from(vec![24, 12]);
    num1.strip_leading_zeros();
    num2.strip_leading_zeros();
    num3.strip_leading_zeros();
    assert_eq!(num1.num, res1.num);
    assert_eq!(num2.num, res2.num);
    assert_eq!(num3.num, res3.num);
}

#[test]
fn nth_bit() {
    let num = BigUInt::from(vec![0b00110011, 0b11110000]);
    let expected = String::from("1100110000001111");
    let actual = (0..16)
        .map(|i| num.nth_bit(i).to_string())
        .reduce(|i, j| i + &j)
        .unwrap_or(String::from(""));
    assert_eq!(actual, expected);
}

#[test]
fn first_last_bit() {
    let num = BigUInt::from(vec![0b00101110, 0b00011100]);
    for i in 0..16 {
        println!("{i:<2} ---> {}", num.nth_bit(i));
    }
    assert_eq!(num.first_bit(), Some(1));
    assert_eq!(num.last_bit(), Some(12));
}

#[test]
fn sum_carries_through_full_digits() {
    let num1 = BigUInt::from(vec![255, 255]);
    let num2 = BigUInt::from(vec![1]);
    assert_eq!(num1.sum(&num2).num, vec![0, 0, 1]);
}

#[test]
fn differences() {
    let num1 = BigUInt::from(vec![12, 34, 127]);
    let num2 = BigUInt::from(vec![12, 34, 255]);
    let sum = BigUInt::from(vec![24, 68, 126, 1]);
    assert_eq!(sum.unsafe_sub(&num1), num2);
    assert_eq!(sum.unsafe_sub(&num2), num1);
    assert_eq!(sum.safe_sub(&num2), Some(BigUInt::from(vec![12, 34, 127])));
    assert_eq!(num1.safe_sub(&sum), None);
    assert_eq!(num1.abs_sub(&sum), num2);
    assert_eq!(sum.abs_sub(&num1), num2);
    assert_eq!(num1.abs_sub(&num1).num, vec![0]);
}

#[test]
fn difference_borrows_through_zero_digits() {
    let num1 = BigUInt::from(vec![0, 0, 1]);
    let num2 = BigUInt::from(vec![1]);
    assert_eq!(num1.unsafe_sub(&num2).num, vec![255, 255]);
}

#[test]
fn difference_wraps_below_zero() {
    let num1 = BigUInt::from(vec![1]);
    let num2 = BigUInt::from(vec![2, 1]);
    // 1 - 258 wraps at 256^2: 65536 - 257 = 65279 = [255, 254]
    assert_eq!(num1.unsafe_sub(&num2).num, vec![255, 254]);
}

#[test]
fn conversions_to_and_from_u64() {
    assert_eq!(BigUInt::from_u64(0).num, vec![0]);
    assert_eq!(BigUInt::from_u64(258).num, vec![2, 1]);
    assert_eq!(BigUInt::from_u64(u64::MAX).to_u64(), Some(u64::MAX));
    assert_eq!(BigUInt::from(vec![0, 0, 0, 0, 0, 0, 0, 0, 1]).to_u64(), None);
    assert!(BigUInt::from_u64(7).is_odd());
    assert!(!BigUInt::from_u64(256).is_odd());
}

#[test]
fn no_bit_set_in_zero() {
    let zero = BigUInt::default();
    assert_eq!(zero.first_bit(), None);
    assert_eq!(zero.last_bit(), None);
}
