use cryptoballot::{
    holds_values, is_taken_at, leading_distinct_shares, recover_secret_from_shares,
    shares_are_consistent, shift_shares, Error,
};
use sharks::{Share, Sharks};

fn deal(threshold: u8, secret: &[u8], count: usize) -> Vec<Vec<u8>> {
    Sharks(threshold).dealer(secret).take(count).map(|share: Share| Vec::from(&share)).collect()
}

#[test]
fn any_two_of_three_shares_recover_the_key() {
    let key: Vec<u8> = (1..=32).collect();
    let shares = deal(2, &key, 3);
    let pairs = [(0, 1), (0, 2), (1, 2)];
    for (a, b) in pairs {
        let subset = vec![shares[a].clone(), shares[b].clone()];
        assert_eq!(recover_secret_from_shares(2, subset), Ok(key.clone()));
    }
}

#[test]
fn all_shares_recover_the_key_too() {
    let key: Vec<u8> = (1..=32).collect();
    let shares = deal(2, &key, 3);
    assert_eq!(recover_secret_from_shares(2, shares), Ok(key));
}

#[test]
fn order_of_shares_does_not_matter() {
    let key = vec![9u8, 8, 7, 6];
    let shares = deal(3, &key, 3);
    let reversed: Vec<Vec<u8>> = shares.iter().rev().cloned().collect();
    assert_eq!(recover_secret_from_shares(3, shares), Ok(key.clone()));
    assert_eq!(recover_secret_from_shares(3, reversed), Ok(key));
}

#[test]
fn recovery_repeats() {
    let shares = vec![vec![1u8, 10, 20], vec![2u8, 30, 40]];
    let first = recover_secret_from_shares(2, shares.clone());
    let second = recover_secret_from_shares(2, shares);
    assert!(first.is_ok());
    assert_eq!(first, second);
}

#[test]
fn interpolation_of_known_points() {
    // A constant polynomial takes the same value everywhere.
    let shares = vec![vec![1u8, 0xab, 0x01], vec![2u8, 0xab, 0x01]];
    assert_eq!(recover_secret_from_shares(2, shares), Ok(vec![0xab, 0x01]));
    // Over GF(256) the line x + 2 holds 3 at the point 1 and 0 at the point 2.
    let shares = vec![vec![1u8, 3], vec![2u8, 0]];
    assert_eq!(recover_secret_from_shares(2, shares), Ok(vec![2]));
    // The same line holds 1 at the point 3: a third share that agrees.
    let shares = vec![vec![1u8, 3], vec![2u8, 0], vec![3u8, 1]];
    assert_eq!(recover_secret_from_shares(2, shares), Ok(vec![2]));
}

#[test]
fn recovered_secret_is_not_a_share_handed_back() {
    let key = vec![0x5au8; 8];
    let shares = deal(2, &key, 2);
    let secret = recover_secret_from_shares(2, shares.clone()).unwrap();
    assert_eq!(secret.len() + 1, shares[0].len());
    assert_eq!(secret, key);
}

#[test]
fn one_share_of_two_required_fails() {
    let key: Vec<u8> = (1..=32).collect();
    let shares = deal(2, &key, 3);
    assert_eq!(
        recover_secret_from_shares(2, vec![shares[0].clone()]),
        Err(Error::SecretRecoveryFailed)
    );
}

#[test]
fn fewer_shares_than_threshold_fail() {
    let key = vec![1u8, 2, 3];
    for threshold in [2u8, 3, 5, 255] {
        let shares = deal(threshold, &key, threshold as usize - 1);
        assert_eq!(
            recover_secret_from_shares(threshold, shares),
            Err(Error::SecretRecoveryFailed)
        );
    }
}

#[test]
fn no_shares_fail_whatever_the_threshold() {
    assert_eq!(recover_secret_from_shares(0, Vec::new()), Err(Error::SecretRecoveryFailed));
    assert_eq!(recover_secret_from_shares(1, Vec::new()), Err(Error::SecretRecoveryFailed));
}

#[test]
fn a_repeated_share_does_not_count_twice() {
    let key = vec![1u8, 2, 3];
    let shares = deal(2, &key, 1);
    let doubled = vec![shares[0].clone(), shares[0].clone()];
    assert_eq!(recover_secret_from_shares(2, doubled), Err(Error::SecretRecoveryFailed));
}

#[test]
fn an_empty_share_fails() {
    assert_eq!(
        recover_secret_from_shares(1, vec![Vec::new()]),
        Err(Error::SecretRecoveryFailed)
    );
    assert_eq!(
        recover_secret_from_shares(2, vec![vec![1, 2], Vec::new()]),
        Err(Error::SecretRecoveryFailed)
    );
}

#[test]
fn shares_of_different_lengths_fail() {
    assert_eq!(
        recover_secret_from_shares(2, vec![vec![1, 2, 3], vec![2, 3]]),
        Err(Error::SecretRecoveryFailed)
    );
    assert_eq!(
        recover_secret_from_shares(2, vec![vec![1, 2], vec![2, 3, 4]]),
        Err(Error::SecretRecoveryFailed)
    );
}

#[test]
fn threshold_of_zero_takes_any_consistent_shares() {
    assert_eq!(recover_secret_from_shares(0, vec![vec![1, 0x11]]), Ok(vec![0x11]));
}

#[test]
fn a_share_off_the_polynomial_fails() {
    // The line x + 2 again, with a third share that holds 0 where it holds 1.
    let shares = vec![vec![1u8, 3], vec![2u8, 0], vec![3u8, 0]];
    assert_eq!(recover_secret_from_shares(2, shares), Err(Error::SecretRecoveryFailed));
}

#[test]
fn shares_of_two_secrets_do_not_mix() {
    let right = deal(2, &[1, 2, 3, 4], 3);
    let wrong = deal(2, &[9, 9, 9, 9], 3);
    assert_eq!(recover_secret_from_shares(2, right.clone()), Ok(vec![1, 2, 3, 4]));
    let mixed = vec![right[0].clone(), right[1].clone(), wrong[2].clone()];
    assert_eq!(recover_secret_from_shares(2, mixed), Err(Error::SecretRecoveryFailed));
    let mixed = vec![wrong[0].clone(), right[1].clone(), right[2].clone()];
    assert_eq!(recover_secret_from_shares(2, mixed), Err(Error::SecretRecoveryFailed));
}

#[test]
fn exactly_enough_shares_of_another_secret_recover_that_secret() {
    let wrong = deal(2, &[9, 9, 9, 9], 2);
    assert_eq!(recover_secret_from_shares(2, wrong), Ok(vec![9, 9, 9, 9]));
}

#[test]
fn a_share_given_twice_among_enough_is_harmless() {
    let key = vec![7u8, 7, 7];
    let shares = deal(2, &key, 2);
    let repeated = vec![shares[0].clone(), shares[0].clone(), shares[1].clone()];
    assert_eq!(recover_secret_from_shares(2, repeated), Ok(key));
}

#[test]
fn two_shares_at_one_point_that_differ_fail() {
    let shares = vec![vec![1u8, 3], vec![1u8, 4], vec![2u8, 0]];
    assert_eq!(recover_secret_from_shares(2, shares), Err(Error::SecretRecoveryFailed));
}

#[test]
fn every_subset_of_a_large_quorum_agrees() {
    let key: Vec<u8> = (100..132).collect();
    let shares = deal(5, &key, 8);
    assert_eq!(recover_secret_from_shares(5, shares[0..5].to_vec()), Ok(key.clone()));
    assert_eq!(recover_secret_from_shares(5, shares[3..8].to_vec()), Ok(key.clone()));
    assert_eq!(recover_secret_from_shares(5, shares.clone()), Ok(key));
    assert_eq!(
        recover_secret_from_shares(5, shares[0..4].to_vec()),
        Err(Error::SecretRecoveryFailed)
    );
}

#[test]
fn points_that_are_taken() {
    let shares = vec![vec![1u8, 3], Vec::new(), vec![7u8]];
    assert!(is_taken_at(&shares, 1));
    assert!(is_taken_at(&shares, 7));
    assert!(!is_taken_at(&shares, 3));
    assert!(!is_taken_at(&shares, 0));
    assert!(!is_taken_at(&Vec::new(), 0));
}

#[test]
fn leading_shares_at_distinct_points() {
    let a = vec![1u8, 10];
    let a_again = vec![1u8, 11];
    let b = vec![2u8, 20];
    let c = vec![3u8, 30];
    let shares = vec![a.clone(), a_again, Vec::new(), b.clone(), c.clone()];
    assert_eq!(leading_distinct_shares(&shares, 0), Vec::<Vec<u8>>::new());
    assert_eq!(leading_distinct_shares(&shares, 1), vec![a.clone()]);
    assert_eq!(leading_distinct_shares(&shares, 2), vec![a.clone(), b.clone()]);
    assert_eq!(leading_distinct_shares(&shares, 3), vec![a.clone(), b.clone(), c.clone()]);
    assert_eq!(leading_distinct_shares(&shares, 9), vec![a, b, c]);
}

#[test]
fn shifting_adds_to_every_point() {
    let shares = vec![vec![1u8, 10], vec![2u8, 20], Vec::new(), vec![0xffu8]];
    assert_eq!(
        shift_shares(&shares, 3),
        vec![vec![2u8, 10], vec![1u8, 20], Vec::new(), vec![0xfcu8]]
    );
    assert_eq!(shift_shares(&shares, 0), shares);
}

#[test]
fn values_after_the_point() {
    assert!(holds_values(&vec![1, 2, 3], &vec![2, 3]));
    assert!(holds_values(&vec![1], &Vec::new()));
    assert!(!holds_values(&Vec::new(), &Vec::new()));
    assert!(!holds_values(&vec![1, 2, 3], &vec![2, 4]));
    assert!(!holds_values(&vec![1, 2, 3], &vec![2]));
    assert!(!holds_values(&vec![1, 2, 3], &vec![1, 2, 3]));
}

#[test]
fn consistency_of_shares() {
    assert!(!shares_are_consistent(&Vec::new()));
    assert!(!shares_are_consistent(&vec![Vec::new()]));
    assert!(shares_are_consistent(&vec![vec![1]]));
    assert!(shares_are_consistent(&vec![vec![1, 2], vec![3, 4], vec![5, 6]]));
    assert!(!shares_are_consistent(&vec![vec![1, 2], vec![3, 4], vec![5]]));
    assert!(!shares_are_consistent(&vec![vec![1], vec![3, 4]]));
}
