use exercises::conjecture::goldbach_conjecture;
use exercises::converter::convert_base;
use exercises::count_distinct::new_count_distinct;
use exercises::fib::fib;
use exercises::fibnacci::odd_fibnacci_sum;
use exercises::prime_factor::largest_prime_factor;
use exercises::rec_mc::dp_rec_mc;
use exercises::sum_bits::get_sum;

#[test]
fn test_fib_1() {
    let result = fib(0);
    println!("Fibonacci of 0: {}", result);
    assert_eq!(result, 0);
}

#[test]
fn test_fib_2() {
    let result = fib(1);
    println!("Fibonacci of 1: {}", result);
    assert_eq!(result, 1);
}

#[test]
fn test_fib_3() {
    let result = fib(2);
    println!("Fibonacci of 2: {}", result);
    assert_eq!(result, 1);
}

#[test]
fn test_fib_4() {
    let result = fib(3);
    println!("Fibonacci of 3: {}", result);
    assert_eq!(result, 2);
}

#[test]
fn test_fib_5() {
    let result = fib(10);
    println!("Fibonacci of 10: {}", result);
    assert_eq!(result, 55);
}

#[test]
fn test_fib_6() {
    let result = fib(20);
    println!("Fibonacci of 20: {}", result);
    assert_eq!(result, 6765);
}

#[test]
fn test_fib_largest_supported() {
    assert_eq!(fib(46), 1836311903);
    assert_eq!(fib(-5), -5);
}

#[test]
fn test_sum_1() {
    let result = get_sum(1, 2);
    println!("Sum of 1 and 2: {}", result);
    assert_eq!(result, 3);
}

#[test]
fn test_sum_2() {
    let result = get_sum(-1, 1);
    println!("Sum of -1 and 1: {}", result);
    assert_eq!(result, 0);
}

#[test]
fn test_sum_3() {
    let result = get_sum(100, 200);
    println!("Sum of 100 and 200: {}", result);
    assert_eq!(result, 300);
}

#[test]
fn test_sum_4() {
    let result = get_sum(-50, -50);
    println!("Sum of -50 and -50: {}", result);
    assert_eq!(result, -100);
}

#[test]
fn test_sum_5() {
    let result = get_sum(0, 0);
    println!("Sum of 0 and 0: {}", result);
    assert_eq!(result, 0);
}

#[test]
fn test_sum_extremes() {
    assert_eq!(get_sum(i32::MAX, i32::MIN), -1);
    assert_eq!(get_sum(i32::MAX - 1, 1), i32::MAX);
    assert_eq!(get_sum(i32::MIN, 0), i32::MIN);
}

#[test]
fn test_goldbach_first_two() {
    assert_eq!(goldbach_conjecture(), "5777,5993");
}

#[test]
fn test_convert_base_examples() {
    assert_eq!(convert_base("1010(2)", 10), "10");
    assert_eq!(convert_base("255(10)", 16), "ff");
    assert_eq!(convert_base("ff(16)", 2), "11111111");
    assert_eq!(convert_base("0(10)", 2), "0");
}

#[test]
fn test_count_distinct_tokens() {
    assert_eq!(new_count_distinct("a,b,a,c"), 3);
    assert_eq!(new_count_distinct("x"), 1);
    assert_eq!(new_count_distinct(""), 1);
    assert_eq!(new_count_distinct("a,a,a"), 1);
}

#[test]
fn test_dp_rec_mc_counts() {
    assert_eq!(dp_rec_mc(0), 0);
    assert_eq!(dp_rec_mc(1), 1);
    assert_eq!(dp_rec_mc(6), 2);
    assert_eq!(dp_rec_mc(90), 3);
    assert_eq!(dp_rec_mc(100), 1);
    assert_eq!(dp_rec_mc(255), 4);
}

#[test]
fn test_odd_fibnacci_sum_values() {
    assert_eq!(odd_fibnacci_sum(0), 0);
    assert_eq!(odd_fibnacci_sum(1), 0);
    assert_eq!(odd_fibnacci_sum(2), 2);
    assert_eq!(odd_fibnacci_sum(100), 188);
}

#[test]
fn test_largest_prime_factor_values() {
    assert_eq!(largest_prime_factor(13195), 29);
    assert_eq!(largest_prime_factor(600851475143), 6857);
    assert_eq!(largest_prime_factor(97), 97);
    // the small-remainder cut-off of the trial division
    assert_eq!(largest_prime_factor(10), 2);
    assert_eq!(largest_prime_factor(7), 0);
    assert_eq!(largest_prime_factor(8), 2);
    assert_eq!(largest_prime_factor(1), 0);
}
