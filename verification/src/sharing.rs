//! Reconstruction of the election key from trustees' shares.
//!
//! A share is a byte string: the first byte is the point at which the share
//! was taken, each further byte the value there of the polynomial that hides
//! one byte of the secret. A secret shared under the quorum `t` is hidden in
//! polynomials of degree below `t` over GF(256), so that `t` shares taken at
//! distinct points determine them, and every further share must agree.

use crate::error::Error;
use sharks::{Share, Sharks};
use vstd::pervasive::unreached;
use vstd::prelude::*;

verus! {

/// The shares as sequences of bytes.
pub open spec fn share_bytes(shares: Seq<Vec<u8>>) -> Seq<Seq<u8>> {
    shares.map_values(|share: Vec<u8>| share@)
}

/// There is at least one share, no share lacks its point, and all shares
/// have the same length.
pub open spec fn shares_consistent(shares: Seq<Seq<u8>>) -> bool {
    &&& shares.len() > 0
    &&& shares[0].len() > 0
    &&& forall|i: int| 0 <= i < shares.len() ==> (#[trigger] shares[i]).len() == shares[0].len()
}

/// The points at which the shares were taken.
pub open spec fn share_points(shares: Seq<Seq<u8>>) -> Set<u8> {
    shares.map_values(|share: Seq<u8>| share[0]).to_set()
}

/// Whether one of the shares was taken at `point`.
pub open spec fn taken_at(shares: Seq<Seq<u8>>, point: u8) -> bool {
    exists|i: int| 0 <= i < shares.len() && (#[trigger] shares[i]).len() > 0 && shares[i][0] == point
}

/// No two of the shares were taken at the same point, and none lacks its
/// point.
pub open spec fn distinct_points(shares: Seq<Seq<u8>>) -> bool {
    &&& forall|i: int| 0 <= i < shares.len() ==> (#[trigger] shares[i]).len() > 0
    &&& forall|i: int, j: int|
        0 <= i < j < shares.len() ==> (#[trigger] shares[i])[0] != (#[trigger] shares[j])[0]
}

/// How many shares at distinct points it takes to fix the polynomials: the
/// quorum, and one share where the quorum is zero.
pub open spec fn shares_needed(threshold: u8) -> nat {
    if threshold == 0 {
        1
    } else {
        threshold as nat
    }
}

/// The first shares that were taken at points of their own, up to `size` of
/// them, in their order: a share is passed over if it is empty or if a share
/// before it was taken at its point.
pub open spec fn leading_shares(shares: Seq<Seq<u8>>, size: nat) -> Seq<Seq<u8>>
    decreases shares.len(),
{
    if shares.len() == 0 {
        Seq::empty()
    } else {
        let before = leading_shares(shares.drop_last(), size);
        let share = shares.last();
        if before.len() < size && share.len() > 0 && !taken_at(before, share[0]) {
            before.push(share)
        } else {
            before
        }
    }
}

/// The shares with `by` added to each point. Addition in GF(256) is the
/// exclusive or of the bytes.
pub open spec fn shifted_shares(shares: Seq<Seq<u8>>, by: u8) -> Seq<Seq<u8>> {
    shares.map_values(
        |share: Seq<u8>|
            if share.len() > 0 {
                share.update(0, share[0] ^ by)
            } else {
                share
            },
    )
}

/// The values that a share holds after its point.
pub open spec fn share_values(share: Seq<u8>) -> Seq<u8> {
    share.subrange(1, share.len() as int)
}

/// What `sharks::Sharks::recover` returns where it succeeds: the values at
/// the point zero of the polynomials through the shares, byte by byte, found
/// by Lagrange interpolation over GF(256). It depends on the shares alone.
pub uninterp spec fn shamir_interpolation(shares: Seq<Seq<u8>>) -> Seq<u8>;

/// Whether `share` lies on the polynomials through `basis`. Their values at
/// the point of the share are found by interpolation at zero, after that
/// point has been added to the points of `basis`.
pub open spec fn lies_on(basis: Seq<Seq<u8>>, share: Seq<u8>) -> bool {
    share.len() > 0 && shamir_interpolation(shifted_shares(basis, share[0])) == share_values(share)
}

/// The secret recovered from the shares under the quorum `threshold`, if any.
///
/// The shares must be consistent, enough of them must have been taken at
/// points of their own, and all must lie on the polynomials that the first
/// of those fix. The secret is what these polynomials hold at zero.
pub open spec fn recovered_secret(threshold: u8, shares: Seq<Seq<u8>>) -> Option<Seq<u8>> {
    let basis = leading_shares(shares, shares_needed(threshold));
    if shares_consistent(shares) && basis.len() == shares_needed(threshold) && (forall|k: int|
        0 <= k < shares.len() ==> lies_on(basis, #[trigger] shares[k])) {
        Some(shamir_interpolation(basis))
    } else {
        None
    }
}

/// The leading shares are shares of the list, taken at distinct points, and
/// no more than asked for.
pub proof fn lemma_leading_shares(shares: Seq<Seq<u8>>, size: nat)
    ensures
        leading_shares(shares, size).len() <= size,
        leading_shares(shares, size).len() <= shares.len(),
        distinct_points(leading_shares(shares, size)),
        forall|j: int|
            0 <= j < leading_shares(shares, size).len() ==> shares.contains(
                #[trigger] leading_shares(shares, size)[j],
            ),
    decreases shares.len(),
{
    if shares.len() > 0 {
        let rest = shares.drop_last();
        let before = leading_shares(rest, size);
        let after = leading_shares(shares, size);
        lemma_leading_shares(rest, size);
        assert forall|j: int| 0 <= j < after.len() implies shares.contains(#[trigger] after[j]) by {
            if j < before.len() {
                assert(rest.contains(before[j]));
                let i = choose|i: int| 0 <= i < rest.len() && rest[i] == before[j];
                assert(shares[i] == after[j]);
            } else {
                assert(shares[shares.len() - 1] == after[j]);
            }
        }
    }
}

/// One of the shares was taken at a point if and only if the point is among
/// the points of the shares, where no share is empty.
pub proof fn lemma_taken_at_is_membership(shares: Seq<Seq<u8>>, point: u8)
    requires
        forall|i: int| 0 <= i < shares.len() ==> (#[trigger] shares[i]).len() > 0,
    ensures
        taken_at(shares, point) <==> share_points(shares).contains(point),
{
    let points = shares.map_values(|share: Seq<u8>| share[0]);
    if taken_at(shares, point) {
        let i = choose|i: int|
            0 <= i < shares.len() && (#[trigger] shares[i]).len() > 0 && shares[i][0] == point;
        assert(points[i] == point);
        assert(points.contains(point));
    }
    if points.to_set().contains(point) {
        let i = choose|i: int| 0 <= i < points.len() && points[i] == point;
        assert(shares[i].len() > 0 && shares[i][0] == point);
    }
}

/// A further share adds its point to the points of the shares.
pub proof fn lemma_points_of_push(shares: Seq<Seq<u8>>, share: Seq<u8>)
    ensures
        share_points(shares).finite(),
        share_points(shares.push(share)) == share_points(shares).insert(share[0]),
{
    broadcast use vstd::seq_lib::seq_to_set_is_finite;

    let points = shares.map_values(|share: Seq<u8>| share[0]);
    let more = shares.push(share).map_values(|share: Seq<u8>| share[0]);
    assert(more =~= points.push(share[0]));
    assert forall|x: u8| more.to_set().contains(x) <==> points.to_set().insert(
        share[0],
    ).contains(x) by {
        if more.to_set().contains(x) {
            let i = choose|i: int| 0 <= i < more.len() && more[i] == x;
            if i < points.len() {
                assert(points[i] == x);
                assert(points.contains(x));
            }
        }
        if points.to_set().contains(x) {
            let i = choose|i: int| 0 <= i < points.len() && points[i] == x;
            assert(more[i] == x);
            assert(more.contains(x));
        }
        if x == share[0] {
            assert(more[points.len() as int] == x);
            assert(more.contains(x));
        }
    }
    assert(more.to_set() =~= points.to_set().insert(share[0]));
}

/// There are as many leading shares as the shares have points, up to the
/// number asked for; and while fewer were found than asked for, the leading
/// shares were taken at every point of the list.
pub proof fn lemma_leading_shares_counted(shares: Seq<Seq<u8>>, size: nat)
    requires
        forall|i: int| 0 <= i < shares.len() ==> (#[trigger] shares[i]).len() > 0,
    ensures
        share_points(shares).finite(),
        leading_shares(shares, size).len() == if share_points(shares).len() <= size {
            share_points(shares).len()
        } else {
            size
        },
        leading_shares(shares, size).len() < size ==> share_points(leading_shares(shares, size))
            == share_points(shares),
    decreases shares.len(),
{
    broadcast use vstd::seq_lib::seq_to_set_is_finite;

    if shares.len() == 0 {
        assert(share_points(shares) =~= Set::<u8>::empty());
    } else {
        let rest = shares.drop_last();
        let share = shares.last();
        let before = leading_shares(rest, size);
        assert forall|i: int| 0 <= i < rest.len() implies (#[trigger] rest[i]).len() > 0 by {
            assert(rest[i] == shares[i]);
        }
        lemma_leading_shares_counted(rest, size);
        lemma_leading_shares(rest, size);
        assert(shares =~= rest.push(share));
        lemma_points_of_push(rest, share);
        lemma_points_of_push(before, share);
        lemma_taken_at_is_membership(before, share[0]);
        if before.len() < size {
            assert(share_points(before) == share_points(rest));
        } else {
            vstd::set_lib::lemma_len_subset(share_points(rest), share_points(shares));
        }
    }
}

/// A secret is recovered only from shares taken at `threshold` distinct
/// points or more: a share that repeats a point does not count.
pub proof fn lemma_too_few_points(threshold: u8, shares: Seq<Seq<u8>>)
    requires
        shares_consistent(shares),
        share_points(shares).len() < threshold,
    ensures
        recovered_secret(threshold, shares) is None,
{
    lemma_leading_shares_counted(shares, shares_needed(threshold));
}

/// Shares taken at distinct points, no more than asked for, are their own
/// leading shares.
pub proof fn lemma_leading_of_distinct(shares: Seq<Seq<u8>>, size: nat)
    requires
        distinct_points(shares),
        shares.len() <= size,
    ensures
        leading_shares(shares, size) == shares,
    decreases shares.len(),
{
    if shares.len() > 0 {
        let rest = shares.drop_last();
        let share = shares.last();
        assert forall|i: int| 0 <= i < rest.len() implies (#[trigger] rest[i]).len() > 0 by {
            assert(rest[i] == shares[i]);
        }
        assert forall|i: int, j: int| 0 <= i < j < rest.len() implies (#[trigger] rest[i])[0] != (
        #[trigger] rest[j])[0] by {
            assert(rest[i] == shares[i] && rest[j] == shares[j]);
        }
        lemma_leading_of_distinct(rest, size);
        assert(!taken_at(rest, share[0])) by {
            if taken_at(rest, share[0]) {
                let i = choose|i: int|
                    0 <= i < rest.len() && (#[trigger] rest[i]).len() > 0 && rest[i][0]
                        == share[0];
                assert(rest[i] == shares[i]);
                assert(shares[i][0] != shares[shares.len() - 1][0]);
            }
        }
        assert(shares =~= rest.push(share));
    } else {
        assert(shares =~= Seq::<Seq<u8>>::empty());
    }
}

/// Shares beyond the quorum change nothing: where the shares yield a secret,
/// their leading shares alone yield the same.
pub proof fn lemma_surplus_shares_change_nothing(threshold: u8, shares: Seq<Seq<u8>>)
    requires
        recovered_secret(threshold, shares) is Some,
    ensures
        recovered_secret(threshold, leading_shares(shares, shares_needed(threshold)))
            == recovered_secret(threshold, shares),
{
    let needed = shares_needed(threshold);
    let basis = leading_shares(shares, needed);
    lemma_leading_shares(shares, needed);
    lemma_leading_of_distinct(basis, needed);
    assert forall|j: int| 0 <= j < basis.len() implies (#[trigger] basis[j]).len()
        == shares[0].len() && lies_on(basis, basis[j]) by {
        assert(shares.contains(basis[j]));
        let i = choose|i: int| 0 <= i < shares.len() && shares[i] == basis[j];
        assert(lies_on(basis, shares[i]));
    }
}

/// Shares taken at distinct points are taken at as many points as there are
/// shares.
pub proof fn lemma_distinct_points_counted(shares: Seq<Seq<u8>>)
    requires
        distinct_points(shares),
    ensures
        share_points(shares).len() == shares.len(),
{
    let points = shares.map_values(|share: Seq<u8>| share[0]);
    assert(points.no_duplicates());
    points.unique_seq_to_set();
}

/// Adding one point to the points of shares keeps them apart and the shares
/// consistent.
pub proof fn lemma_shift_keeps_shape(shares: Seq<Seq<u8>>, by: u8)
    ensures
        shifted_shares(shares, by).len() == shares.len(),
        forall|i: int|
            0 <= i < shares.len() ==> (#[trigger] shifted_shares(shares, by)[i]).len()
                == shares[i].len(),
        distinct_points(shares) ==> distinct_points(shifted_shares(shares, by)),
        shares_consistent(shares) ==> shares_consistent(shifted_shares(shares, by)),
        shifted_shares(shares, 0) == shares,
{
    let moved = shifted_shares(shares, by);
    if distinct_points(shares) {
        assert forall|i: int, j: int| 0 <= i < j < moved.len() implies (#[trigger] moved[i])[0] != (
        #[trigger] moved[j])[0] by {
            let a = shares[i][0];
            let b = shares[j][0];
            assert(a != b);
            assert(a ^ by != b ^ by) by (bit_vector)
                requires
                    a != b,
            ;
        }
    }
    let same = shifted_shares(shares, 0);
    assert forall|i: int| 0 <= i < shares.len() implies same[i] == shares[i] by {
        let share = shares[i];
        if share.len() > 0 {
            let a = share[0];
            assert(a ^ 0u8 == a) by (bit_vector);
            assert(share.update(0, a) =~= share);
        }
    }
    assert(same =~= shares);
}

/// Fewer shares than the quorum never yield a secret.
pub proof fn lemma_too_few_shares(threshold: u8, shares: Seq<Seq<u8>>)
    requires
        shares.len() < threshold,
    ensures
        recovered_secret(threshold, shares) is None,
{
    lemma_leading_shares(shares, shares_needed(threshold));
}

/// Whether the shares are consistent.
pub fn shares_are_consistent(shares: &Vec<Vec<u8>>) -> (ok: bool)
    ensures
        ok == shares_consistent(share_bytes(shares@)),
{
    if shares.len() == 0 {
        return false;
    }
    let length = shares[0].len();
    if length == 0 {
        return false;
    }
    let mut i: usize = 1;
    while i < shares.len()
        invariant
            1 <= i <= shares.len(),
            length == shares[0].len(),
            forall|j: int| 0 <= j < i ==> (#[trigger] shares[j]).len() == length,
        decreases shares.len() - i,
    {
        if shares[i].len() != length {
            assert(share_bytes(shares@)[i as int].len() != share_bytes(shares@)[0].len());
            return false;
        }
        i += 1;
    }
    true
}

/// Whether one of the shares was taken at `point`.
pub fn is_taken_at(shares: &Vec<Vec<u8>>, point: u8) -> (found: bool)
    ensures
        found == taken_at(share_bytes(shares@), point),
{
    let mut i: usize = 0;
    while i < shares.len()
        invariant
            i <= shares.len(),
            forall|j: int|
                0 <= j < i ==> !((#[trigger] shares[j]).len() > 0 && shares[j][0] == point),
        decreases shares.len() - i,
    {
        if shares[i].len() > 0 && shares[i][0] == point {
            assert(share_bytes(shares@)[i as int] == shares[i as int]@);
            return true;
        }
        i += 1;
    }
    assert forall|j: int| 0 <= j < shares.len() implies !((#[trigger] share_bytes(
        shares@,
    )[j]).len() > 0 && share_bytes(shares@)[j][0] == point) by {
        assert(share_bytes(shares@)[j] == shares[j]@);
    }
    false
}

/// The first shares that were taken at points of their own, up to `size` of
/// them.
pub fn leading_distinct_shares(shares: &Vec<Vec<u8>>, size: usize) -> (basis: Vec<Vec<u8>>)
    ensures
        share_bytes(basis@) == leading_shares(share_bytes(shares@), size as nat),
{
    let mut basis: Vec<Vec<u8>> = Vec::new();
    let mut i: usize = 0;
    assert(share_bytes(shares@).take(0) =~= Seq::<Seq<u8>>::empty());
    assert(share_bytes(basis@) =~= Seq::<Seq<u8>>::empty());
    while i < shares.len()
        invariant
            i <= shares.len(),
            share_bytes(basis@) == leading_shares(
                share_bytes(shares@).take(i as int),
                size as nat,
            ),
        decreases shares.len() - i,
    {
        let ghost seen = share_bytes(shares@).take(i as int);
        let ghost next = share_bytes(shares@).take(i + 1);
        let ghost before = share_bytes(basis@);
        proof {
            assert(next.drop_last() =~= seen);
            assert(next.last() == shares[i as int]@);
        }
        if basis.len() < size && shares[i].len() > 0 && !is_taken_at(&basis, shares[i][0]) {
            basis.push(shares[i].clone());
            proof {
                assert(basis@.last()@ =~= shares[i as int]@);
                assert(share_bytes(basis@) =~= before.push(shares[i as int]@));
            }
        }
        i += 1;
    }
    assert(share_bytes(shares@).take(shares.len() as int) =~= share_bytes(shares@));
    basis
}

/// The shares with `by` added to each point.
pub fn shift_shares(shares: &Vec<Vec<u8>>, by: u8) -> (moved: Vec<Vec<u8>>)
    ensures
        share_bytes(moved@) == shifted_shares(share_bytes(shares@), by),
{
    let mut moved: Vec<Vec<u8>> = Vec::with_capacity(shares.len());
    let mut i: usize = 0;
    while i < shares.len()
        invariant
            i <= shares.len(),
            moved.len() == i,
            forall|j: int|
                0 <= j < i ==> (#[trigger] moved[j])@ == shifted_shares(
                    share_bytes(shares@),
                    by,
                )[j],
        decreases shares.len() - i,
    {
        let mut share = shares[i].clone();
        assert(share@ =~= shares[i as int]@);
        if share.len() > 0 {
            let point = share[0];
            share.set(0, point ^ by);
        }
        moved.push(share);
        i += 1;
    }
    assert(share_bytes(moved@) =~= shifted_shares(share_bytes(shares@), by));
    moved
}

/// Whether the share holds exactly `values` after its point.
pub fn holds_values(share: &Vec<u8>, values: &Vec<u8>) -> (same: bool)
    ensures
        same == (share@.len() > 0 && share_values(share@) == values@),
{
    if share.len() == 0 || share.len() - 1 != values.len() {
        return false;
    }
    let mut i: usize = 0;
    while i < values.len()
        invariant
            i <= values.len(),
            share.len() == values.len() + 1,
            forall|j: int| 0 <= j < i ==> share[j + 1] == values[j],
        decreases values.len() - i,
    {
        if share[i + 1] != values[i] {
            assert(share_values(share@)[i as int] != values@[i as int]);
            return false;
        }
        i += 1;
    }
    assert(share_values(share@) =~= values@);
    true
}

/// `sharks::Sharks::recover` on the shares that `sharks::Share::from` reads
/// from the byte strings. The call fails if and only if the shares were taken
/// at fewer distinct points than `threshold`. Otherwise it returns the
/// interpolation at zero through all the shares, which has one byte for each
/// byte that the first share holds after its point.
#[verifier::external_body]
fn sharks_recover(threshold: u8, shares: &Vec<Vec<u8>>) -> (secret: Option<Vec<u8>>)
    requires
        shares_consistent(share_bytes(shares@)),
    ensures
        secret is Some <==> share_points(share_bytes(shares@)).len() >= threshold,
        secret matches Some(bytes) ==> {
            &&& bytes@ == shamir_interpolation(share_bytes(shares@))
            &&& bytes@.len() + 1 == shares@[0]@.len()
        },
{
    let parsed: Vec<Share> = shares.iter().map(|bytes| Share::from(bytes.as_slice())).collect();
    Sharks(threshold).recover(&parsed).ok()
}

/// The interpolation at zero through consistent shares taken at distinct
/// points, as many as the quorum asks for.
fn interpolate(threshold: u8, shares: &Vec<Vec<u8>>) -> (values: Vec<u8>)
    requires
        shares_consistent(share_bytes(shares@)),
        distinct_points(share_bytes(shares@)),
        shares.len() == shares_needed(threshold),
    ensures
        values@ == shamir_interpolation(share_bytes(shares@)),
        values@.len() + 1 == shares@[0]@.len(),
{
    proof {
        lemma_distinct_points_counted(share_bytes(shares@));
    }
    match sharks_recover(threshold, shares) {
        Some(values) => values,
        None => unreached(),
    }
}

/// Reconstructs the election key from the shares that the trustees posted.
///
/// Fails with `SecretRecoveryFailed`
/// - when there is no share, or a share is empty or differs in length from
///   the others;
/// - when fewer shares than `threshold` were taken at points of their own, in
///   particular whenever there are fewer shares than `threshold`;
/// - when a share does not lie on the polynomials that the first `threshold`
///   shares at distinct points fix.
///
/// Otherwise the key is what those polynomials hold at zero, one byte for
/// each byte that a share holds after its point: shares beyond the quorum
/// are tested, and change nothing.
pub fn recover_secret_from_shares(threshold: u8, shares: Vec<Vec<u8>>) -> (res: Result<
    Vec<u8>,
    Error,
>)
    ensures
        match res {
            Ok(secret) => recovered_secret(threshold, share_bytes(shares@)) == Some(secret@),
            Err(e) => e == Error::SecretRecoveryFailed && recovered_secret(
                threshold,
                share_bytes(shares@),
            ) is None,
        },
        shares.len() < threshold ==> res == Err::<Vec<u8>, Error>(Error::SecretRecoveryFailed),
        res matches Ok(secret) ==> secret@.len() + 1 == shares@[0]@.len(),
{
    let ghost all = share_bytes(shares@);
    proof {
        if shares.len() < threshold {
            lemma_too_few_shares(threshold, all);
        }
    }
    if !shares_are_consistent(&shares) {
        return Err(Error::SecretRecoveryFailed);
    }
    let needed: usize = if threshold == 0 {
        1
    } else {
        threshold as usize
    };
    let basis = leading_distinct_shares(&shares, needed);
    if basis.len() != needed {
        return Err(Error::SecretRecoveryFailed);
    }
    let ghost chosen = share_bytes(basis@);
    proof {
        lemma_leading_shares(all, needed as nat);
        assert(shares_consistent(chosen)) by {
            assert forall|j: int| 0 <= j < chosen.len() implies (#[trigger] chosen[j]).len()
                == all[0].len() by {
                assert(all.contains(chosen[j]));
            }
        }
    }
    let mut k: usize = 0;
    while k < shares.len()
        invariant
            k <= shares.len(),
            all == share_bytes(shares@),
            chosen == share_bytes(basis@),
            chosen == leading_shares(all, shares_needed(threshold)),
            shares_consistent(all),
            shares_consistent(chosen),
            distinct_points(chosen),
            basis.len() == shares_needed(threshold),
            forall|j: int| 0 <= j < k ==> lies_on(chosen, #[trigger] all[j]),
        decreases shares.len() - k,
    {
        assert(all[k as int] == shares[k as int]@);
        assert(shares[k as int]@.len() == all[0].len());
        let moved = shift_shares(&basis, shares[k][0]);
        proof {
            lemma_shift_keeps_shape(chosen, shares[k as int]@[0]);
        }
        let values = interpolate(threshold, &moved);
        if !holds_values(&shares[k], &values) {
            assert(!lies_on(chosen, all[k as int]));
            return Err(Error::SecretRecoveryFailed);
        }
        k += 1;
    }
    Ok(interpolate(threshold, &basis))
}

} // verus!
