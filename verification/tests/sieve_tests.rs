use sheep_shed::sieve::isqrt;
use sheep_shed::sieve::sieve_of_eratosthenes;

#[test]
fn small_sieve_of_eratosthenes() {
    let soe = sieve_of_eratosthenes(1000);
    let primes_to_1000 = vec![
        2, 3, 5, 7, 11, 13, 17, 19, 23, 29, 31, 37, 41, 43, 47, 53, 59, 61, 67, 71, 73, 79, 83, 89,
        97, 101, 103, 107, 109, 113, 127, 131, 137, 139, 149, 151, 157, 163, 167, 173, 179, 181,
        191, 193, 197, 199, 211, 223, 227, 229, 233, 239, 241, 251, 257, 263, 269, 271, 277, 281,
        283, 293, 307, 311, 313, 317, 331, 337, 347, 349, 353, 359, 367, 373, 379, 383, 389, 397,
        401, 409, 419, 421, 431, 433, 439, 443, 449, 457, 461, 463, 467, 479, 487, 491, 499, 503,
        509, 521, 523, 541, 547, 557, 563, 569, 571, 577, 587, 593, 599, 601, 607, 613, 617, 619,
        631, 641, 643, 647, 653, 659, 661, 673, 677, 683, 691, 701, 709, 719, 727, 733, 739, 743,
        751, 757, 761, 769, 773, 787, 797, 809, 811, 821, 823, 827, 829, 839, 853, 857, 859, 863,
        877, 881, 883, 887, 907, 911, 919, 929, 937, 941, 947, 953, 967, 971, 977, 983, 991, 997,
    ];
    assert_eq!(soe, primes_to_1000);
}

#[test]
fn is_prime_101() {
    let soe = sieve_of_eratosthenes(101);
    assert_eq!(soe.last().cloned().unwrap(), 101);
}

#[test]
fn sieve_0() {
    let soe = sieve_of_eratosthenes(0);
    assert_eq!(soe, Vec::<u64>::new());
}

#[test]
fn sieve_1() {
    let soe = sieve_of_eratosthenes(1);
    assert_eq!(soe, Vec::<u64>::new());
}

#[test]
fn sieve_2() {
    let soe = sieve_of_eratosthenes(2);
    assert_eq!(soe, vec![2]);
}

#[test]
fn is_not_prime_102() {
    let soe = sieve_of_eratosthenes(102);
    assert_eq!(soe.last().cloned().unwrap(), 101);
}

#[test]
fn isqrt_exact_and_between() {
    assert_eq!(isqrt(0), 0);
    assert_eq!(isqrt(1), 1);
    assert_eq!(isqrt(3), 1);
    assert_eq!(isqrt(4), 2);
    assert_eq!(isqrt(101), 10);
    assert_eq!(isqrt(160_000_000_000), 400_000);
    assert_eq!(isqrt(u64::MAX), 4294967295);
}
