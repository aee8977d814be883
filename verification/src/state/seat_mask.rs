//! Sets of seats held as bits of a `u8`: bit `i` stands for seat `i`.

use vstd::prelude::*;

verus! {

/// Seat `seat` is in the set `mask`.
pub open spec fn mask_has(mask: u8, seat: u8) -> bool {
    seat < 8 && mask & (1u8 << seat) != 0
}

/// 1 if seat `seat` is in the set, else 0.
pub open spec fn mask_unit(mask: u8, seat: u8) -> nat {
    if mask_has(mask, seat) {
        1
    } else {
        0
    }
}

/// Number of seats in the set.
pub open spec fn mask_count(mask: u8) -> nat {
    mask_unit(mask, 0) + mask_unit(mask, 1) + mask_unit(mask, 2) + mask_unit(mask, 3) + mask_unit(
        mask,
        4,
    ) + mask_unit(mask, 5) + mask_unit(mask, 6) + mask_unit(mask, 7)
}

/// The set with `seat` added.
pub open spec fn mask_add(mask: u8, seat: u8) -> u8 {
    mask | (1u8 << seat)
}

/// The set with `seat` taken out.
pub open spec fn mask_remove(mask: u8, seat: u8) -> u8 {
    mask & !(1u8 << seat)
}

/// The seats of `a` that are not in `b`.
pub open spec fn mask_diff(a: u8, b: u8) -> u8 {
    a & !b
}

/// Every seat of the set is below `limit`.
pub open spec fn mask_below(mask: u8, limit: u8) -> bool {
    forall|s: u8| #[trigger] mask_has(mask, s) ==> s < limit
}

/// Setting the bit of a seat adds that seat and no other.
proof fn lemma_bit_set(mask: u8, seat: u8, other: u8)
    by (bit_vector)
    requires
        seat < 8,
        other < 8,
    ensures
        ((mask | (1u8 << seat)) & (1u8 << other) != 0) == (mask & (1u8 << other) != 0 || other
            == seat),
{
}

/// Clearing the bit of a seat takes out that seat and no other.
proof fn lemma_bit_clear(mask: u8, seat: u8, other: u8)
    by (bit_vector)
    requires
        seat < 8,
        other < 8,
    ensures
        ((mask & !(1u8 << seat)) & (1u8 << other) != 0) == (mask & (1u8 << other) != 0 && other
            != seat),
{
}

/// A bit of a difference is set where it is set in the first mask and not
/// in the second.
proof fn lemma_bit_minus(a: u8, b: u8, other: u8)
    by (bit_vector)
    requires
        other < 8,
    ensures
        ((a & !b) & (1u8 << other) != 0) == (a & (1u8 << other) != 0 && !(b & (1u8 << other)
            != 0)),
{
}

/// No bit of zero is set.
proof fn lemma_bit_none(other: u8)
    by (bit_vector)
    requires
        other < 8,
    ensures
        0u8 & (1u8 << other) == 0,
{
}

/// Masks that agree on all eight bits are equal.
proof fn lemma_bits_decide(a: u8, b: u8)
    by (bit_vector)
    requires
        (a & (1u8 << 0u8) != 0) == (b & (1u8 << 0u8) != 0),
        (a & (1u8 << 1u8) != 0) == (b & (1u8 << 1u8) != 0),
        (a & (1u8 << 2u8) != 0) == (b & (1u8 << 2u8) != 0),
        (a & (1u8 << 3u8) != 0) == (b & (1u8 << 3u8) != 0),
        (a & (1u8 << 4u8) != 0) == (b & (1u8 << 4u8) != 0),
        (a & (1u8 << 5u8) != 0) == (b & (1u8 << 5u8) != 0),
        (a & (1u8 << 6u8) != 0) == (b & (1u8 << 6u8) != 0),
        (a & (1u8 << 7u8) != 0) == (b & (1u8 << 7u8) != 0),
    ensures
        a == b,
{
}

/// Two sets with the same seats are the same mask.
pub proof fn lemma_mask_ext(a: u8, b: u8)
    requires
        forall|s: u8| s < 8 ==> mask_has(a, s) == mask_has(b, s),
    ensures
        a == b,
{
    assert(mask_has(a, 0) == mask_has(b, 0));
    assert(mask_has(a, 1) == mask_has(b, 1));
    assert(mask_has(a, 2) == mask_has(b, 2));
    assert(mask_has(a, 3) == mask_has(b, 3));
    assert(mask_has(a, 4) == mask_has(b, 4));
    assert(mask_has(a, 5) == mask_has(b, 5));
    assert(mask_has(a, 6) == mask_has(b, 6));
    assert(mask_has(a, 7) == mask_has(b, 7));
    lemma_bits_decide(a, b);
}

/// The empty set has no seat, and a set without seats is the empty mask.
pub proof fn lemma_mask_empty(mask: u8)
    ensures
        forall|s: u8| !mask_has(0u8, s),
        mask == 0 <==> (forall|s: u8| !mask_has(mask, s)),
        mask == 0 <==> mask_count(mask) == 0,
{
    assert forall|s: u8| !mask_has(0u8, s) by {
        if s < 8 {
            lemma_bit_none(s);
        }
    }
    if mask_count(mask) == 0 {
        assert(!mask_has(mask, 0) && !mask_has(mask, 1) && !mask_has(mask, 2) && !mask_has(mask, 3)
            && !mask_has(mask, 4) && !mask_has(mask, 5) && !mask_has(mask, 6) && !mask_has(
            mask,
            7,
        ));
        lemma_mask_ext(mask, 0u8);
    }
    if forall|s: u8| !mask_has(mask, s) {
        lemma_mask_ext(mask, 0u8);
    }
}

/// Seats and size of a set after a seat is added.
pub proof fn lemma_mask_add(mask: u8, seat: u8)
    requires
        seat < 8,
    ensures
        forall|s: u8| #[trigger] mask_has(mask_add(mask, seat), s) == (mask_has(mask, s) || s == seat),
        mask_count(mask_add(mask, seat)) == mask_count(mask) + 1 - mask_unit(mask, seat),
{
    let r = mask_add(mask, seat);
    assert forall|s: u8| #[trigger] mask_has(r, s) == (mask_has(mask, s) || s == seat) by {
        if s < 8 {
            lemma_bit_set(mask, seat, s);
        }
    }
    assert(mask_has(r, 0) == (mask_has(mask, 0) || 0 == seat));
    assert(mask_has(r, 1) == (mask_has(mask, 1) || 1 == seat));
    assert(mask_has(r, 2) == (mask_has(mask, 2) || 2 == seat));
    assert(mask_has(r, 3) == (mask_has(mask, 3) || 3 == seat));
    assert(mask_has(r, 4) == (mask_has(mask, 4) || 4 == seat));
    assert(mask_has(r, 5) == (mask_has(mask, 5) || 5 == seat));
    assert(mask_has(r, 6) == (mask_has(mask, 6) || 6 == seat));
    assert(mask_has(r, 7) == (mask_has(mask, 7) || 7 == seat));
}

/// Seats and size of a set after a seat is taken out.
pub proof fn lemma_mask_remove(mask: u8, seat: u8)
    requires
        seat < 8,
    ensures
        forall|s: u8|
            #[trigger] mask_has(mask_remove(mask, seat), s) == (mask_has(mask, s) && s != seat),
        mask_count(mask_remove(mask, seat)) == mask_count(mask) - mask_unit(mask, seat),
{
    let r = mask_remove(mask, seat);
    assert forall|s: u8| #[trigger] mask_has(r, s) == (mask_has(mask, s) && s != seat) by {
        if s < 8 {
            lemma_bit_clear(mask, seat, s);
        }
    }
    assert(mask_has(r, 0) == (mask_has(mask, 0) && 0 != seat));
    assert(mask_has(r, 1) == (mask_has(mask, 1) && 1 != seat));
    assert(mask_has(r, 2) == (mask_has(mask, 2) && 2 != seat));
    assert(mask_has(r, 3) == (mask_has(mask, 3) && 3 != seat));
    assert(mask_has(r, 4) == (mask_has(mask, 4) && 4 != seat));
    assert(mask_has(r, 5) == (mask_has(mask, 5) && 5 != seat));
    assert(mask_has(r, 6) == (mask_has(mask, 6) && 6 != seat));
    assert(mask_has(r, 7) == (mask_has(mask, 7) && 7 != seat));
}

/// Seats of the difference of two sets.
pub proof fn lemma_mask_diff(a: u8, b: u8)
    ensures
        forall|s: u8| #[trigger] mask_has(mask_diff(a, b), s) == (mask_has(a, s) && !mask_has(b, s)),
{
    assert forall|s: u8| #[trigger]
        mask_has(mask_diff(a, b), s) == (mask_has(a, s) && !mask_has(b, s)) by {
        if s < 8 {
            lemma_bit_minus(a, b, s);
        }
    }
}

/// A set that holds the seats of another but for one of them is smaller by
/// one.
pub proof fn lemma_count_without(a: u8, b: u8, seat: u8)
    requires
        mask_has(a, seat),
        forall|s: u8| s < 8 ==> mask_has(b, s) == (mask_has(a, s) && s != seat),
    ensures
        mask_count(b) + 1 == mask_count(a),
{
    assert(mask_has(b, 0) == (mask_has(a, 0) && 0 != seat));
    assert(mask_has(b, 1) == (mask_has(a, 1) && 1 != seat));
    assert(mask_has(b, 2) == (mask_has(a, 2) && 2 != seat));
    assert(mask_has(b, 3) == (mask_has(a, 3) && 3 != seat));
    assert(mask_has(b, 4) == (mask_has(a, 4) && 4 != seat));
    assert(mask_has(b, 5) == (mask_has(a, 5) && 5 != seat));
    assert(mask_has(b, 6) == (mask_has(a, 6) && 6 != seat));
    assert(mask_has(b, 7) == (mask_has(a, 7) && 7 != seat));
}

/// Whether `seat` is in the set.
pub fn mask_test(mask: u8, seat: u8) -> (r: bool)
    requires
        seat < 8,
    ensures
        r == mask_has(mask, seat),
{
    mask & (1u8 << seat) != 0
}

/// The set with `seat` added.
pub fn mask_with(mask: u8, seat: u8) -> (r: u8)
    requires
        seat < 8,
    ensures
        r == mask_add(mask, seat),
        forall|s: u8| #[trigger] mask_has(r, s) == (mask_has(mask, s) || s == seat),
        mask_count(r) == mask_count(mask) + 1 - mask_unit(mask, seat),
{
    proof {
        lemma_mask_add(mask, seat);
    }
    mask | (1u8 << seat)
}

/// The set with `seat` taken out.
pub fn mask_without(mask: u8, seat: u8) -> (r: u8)
    requires
        seat < 8,
    ensures
        r == mask_remove(mask, seat),
        forall|s: u8| #[trigger] mask_has(r, s) == (mask_has(mask, s) && s != seat),
        mask_count(r) == mask_count(mask) - mask_unit(mask, seat),
{
    proof {
        lemma_mask_remove(mask, seat);
    }
    mask & !(1u8 << seat)
}

/// The seats of `a` that are not in `b`.
pub fn mask_minus(a: u8, b: u8) -> (r: u8)
    ensures
        r == mask_diff(a, b),
        forall|s: u8| #[trigger] mask_has(r, s) == (mask_has(a, s) && !mask_has(b, s)),
{
    let r = a & !b;
    proof {
        lemma_mask_diff(a, b);
        assert(r == mask_diff(a, b));
    }
    r
}

/// Number of seats in the set.
pub fn mask_size(mask: u8) -> (n: u8)
    ensures
        n == mask_count(mask),
        n <= 8,
{
    let mut n: u8 = 0;
    let mut s: u8 = 0;
    while s < 8
        invariant
            s <= 8,
            n <= s,
            n == (if s > 0 { mask_unit(mask, 0) } else { 0 }) + (if s > 1 { mask_unit(mask, 1) } else { 0 })
                + (if s > 2 { mask_unit(mask, 2) } else { 0 }) + (if s > 3 { mask_unit(mask, 3) } else { 0 })
                + (if s > 4 { mask_unit(mask, 4) } else { 0 }) + (if s > 5 { mask_unit(mask, 5) } else { 0 })
                + (if s > 6 { mask_unit(mask, 6) } else { 0 }) + (if s > 7 { mask_unit(mask, 7) } else { 0 }),
        decreases 8 - s,
    {
        if mask_test(mask, s) {
            n += 1;
        }
        s += 1;
    }
    n
}

/// The seat `d` places clockwise of seat `after` at a table of `n` seats.
pub open spec fn seat_ahead(after: u8, d: int, n: u8) -> u8 {
    if after + d >= n {
        (after + d - n) as u8
    } else {
        (after + d) as u8
    }
}

/// The first seat of the set that is `d` or more places clockwise of
/// `after`, looking no further than `n` places (the `n`-th place is `after`
/// itself).
pub open spec fn scan_mask(mask: u8, after: u8, n: u8, d: int) -> Option<u8>
    decreases n - d + 1,
{
    if d < 1 || d > n {
        None
    } else if mask_has(mask, seat_ahead(after, d, n)) {
        Some(seat_ahead(after, d, n))
    } else {
        scan_mask(mask, after, n, d + 1)
    }
}

/// The first seat of the set clockwise of `after` at a table of `n` seats;
/// `after` itself comes last.
pub open spec fn next_in_mask(mask: u8, after: u8, n: u8) -> Option<u8> {
    scan_mask(mask, after, n, 1)
}

/// What a scan from place `d` on finds: a seat of the set at the table, or
/// nothing where no seat from place `d` to place `n` is in the set.
proof fn lemma_scan_mask(mask: u8, after: u8, n: u8, d: int)
    requires
        0 < n <= 8,
        after < n,
        1 <= d <= n + 1,
    ensures
        match scan_mask(mask, after, n, d) {
            Some(s) => s < n && mask_has(mask, s),
            None => forall|e: int| d <= e <= n ==> !mask_has(mask, #[trigger] seat_ahead(after, e, n)),
        },
    decreases n + 1 - d,
{
    if d <= n {
        lemma_scan_mask(mask, after, n, d + 1);
    }
}

/// The clockwise search finds a seat of the set that is at the table, and
/// finds nothing only where no seat of the table is in the set.
pub proof fn lemma_next_in_mask(mask: u8, after: u8, n: u8)
    requires
        0 < n <= 8,
        after < n,
    ensures
        next_in_mask(mask, after, n) matches Some(s) ==> s < n && mask_has(mask, s),
        next_in_mask(mask, after, n) is None <==> (forall|s: u8|
            s < n ==> !#[trigger] mask_has(mask, s)),
{
    lemma_scan_mask(mask, after, n, 1);
    if next_in_mask(mask, after, n) is None {
        assert forall|s: u8| s < n implies !#[trigger] mask_has(mask, s) by {
            let e: int = if s > after {
                s - after
            } else {
                s + n - after
            };
            assert(seat_ahead(after, e, n) == s);
        }
    }
}

/// The next seat clockwise at a table of `n` seats.
pub fn seat_after(seat: u8, n: u8) -> (r: u8)
    requires
        seat < n,
    ensures
        r == seat_ahead(seat, 1, n),
        r < n,
{
    if seat + 1 >= n {
        0
    } else {
        seat + 1
    }
}

/// Finds the first seat of the set clockwise of `after`.
pub fn mask_next(mask: u8, after: u8, n: u8) -> (r: Option<u8>)
    requires
        0 < n <= 8,
        after < n,
    ensures
        r == next_in_mask(mask, after, n),
        r matches Some(s) ==> s < n && mask_has(mask, s),
        r is None <==> (forall|s: u8| s < n ==> !#[trigger] mask_has(mask, s)),
{
    let mut next = seat_after(after, n);
    let mut d: u8 = 1;
    while d <= n
        invariant
            0 < n <= 8,
            after < n,
            1 <= d <= n + 1,
            d <= n ==> next == seat_ahead(after, d as int, n),
            next < n,
            scan_mask(mask, after, n, 1) == scan_mask(mask, after, n, d as int),
            forall|e: int| 1 <= e < d ==> !mask_has(mask, #[trigger] seat_ahead(after, e, n)),
        decreases n + 1 - d,
    {
        if mask_test(mask, next) {
            return Some(next);
        }
        next = seat_after(next, n);
        d += 1;
    }
    proof {
        assert forall|s: u8| s < n implies !mask_has(mask, s) by {
            let e: int = if s > after {
                s - after
            } else {
                s + n - after
            };
            assert(seat_ahead(after, e, n) == s);
        }
    }
    None
}

/// Whether every seat of the set is below `limit`.
pub fn mask_is_below(mask: u8, limit: u8) -> (r: bool)
    ensures
        r == mask_below(mask, limit),
{
    let mut s: u8 = 0;
    while s < 8
        invariant
            s <= 8,
            forall|t: u8| t < s && #[trigger] mask_has(mask, t) ==> t < limit,
        decreases 8 - s,
    {
        if s >= limit && mask_test(mask, s) {
            return false;
        }
        s += 1;
    }
    true
}

} // verus!
