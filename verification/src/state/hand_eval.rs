//! Seven-card hand evaluation: the rank categories, the total order on
//! evaluated hands, and the search for the best five cards out of seven.

use vstd::prelude::*;
use std::cmp::Ordering;

verus! {

/// Hand categories, weakest first.
#[derive(Clone, Copy, PartialEq, Eq, Debug, PartialOrd, Ord, Structural)]
pub enum HandRank {
    HighCard,
    OnePair,
    TwoPair,
    ThreeOfAKind,
    Straight,
    Flush,
    FullHouse,
    FourOfAKind,
    StraightFlush,
    RoyalFlush,
}

/// Position of a category in the ranking: 0 for a high card up to 9 for a
/// royal flush.
pub open spec fn rank_value(rank: HandRank) -> int {
    match rank {
        HandRank::HighCard => 0,
        HandRank::OnePair => 1,
        HandRank::TwoPair => 2,
        HandRank::ThreeOfAKind => 3,
        HandRank::Straight => 4,
        HandRank::Flush => 5,
        HandRank::FullHouse => 6,
        HandRank::FourOfAKind => 7,
        HandRank::StraightFlush => 8,
        HandRank::RoyalFlush => 9,
    }
}

impl HandRank {
    /// The category as a number, 0 (high card) to 9 (royal flush).
    pub fn to_u8(self) -> (v: u8)
        ensures
            v == rank_value(self),
    {
        match self {
            HandRank::HighCard => 0,
            HandRank::OnePair => 1,
            HandRank::TwoPair => 2,
            HandRank::ThreeOfAKind => 3,
            HandRank::Straight => 4,
            HandRank::Flush => 5,
            HandRank::FullHouse => 6,
            HandRank::FourOfAKind => 7,
            HandRank::StraightFlush => 8,
            HandRank::RoyalFlush => 9,
        }
    }
}

/// An evaluated hand: its category and five tie-break values in descending
/// importance, padded with zeros.
#[derive(Clone, Copy, Debug)]
pub struct EvaluatedHand {
    pub rank: HandRank,
    pub kickers: [u8; 5],
}

/// Mathematical value of an evaluated hand.
#[verifier::ext_equal]
pub struct HandValue {
    pub rank: HandRank,
    pub kickers: Seq<u8>,
}

impl View for EvaluatedHand {
    type V = HandValue;

    open spec fn view(&self) -> HandValue {
        HandValue { rank: self.rank, kickers: self.kickers@ }
    }
}

impl HandValue {
    /// A hand value carries exactly five tie-break slots.
    pub open spec fn wf(self) -> bool {
        self.kickers.len() == 5
    }
}

/// Lexicographic "less than" on two rows of five tie-break values.
pub open spec fn kickers_precede(a: Seq<u8>, b: Seq<u8>) -> bool {
    a[0] < b[0] || (a[0] == b[0] && (a[1] < b[1] || (a[1] == b[1] && (a[2] < b[2] || (a[2] == b[2]
        && (a[3] < b[3] || (a[3] == b[3] && a[4] < b[4])))))))
}

/// The strict order on hands: `a` loses to `b`. The category decides first,
/// then the tie-break values from the most important down.
pub open spec fn precedes(a: HandValue, b: HandValue) -> bool {
    rank_value(a.rank) < rank_value(b.rank) || (a.rank == b.rank && kickers_precede(
        a.kickers,
        b.kickers,
    ))
}

/// Two hands tie when category and all five tie-break values agree.
pub open spec fn ties(a: HandValue, b: HandValue) -> bool {
    a.rank == b.rank && a.kickers[0] == b.kickers[0] && a.kickers[1] == b.kickers[1]
        && a.kickers[2] == b.kickers[2] && a.kickers[3] == b.kickers[3] && a.kickers[4]
        == b.kickers[4]
}

/// A number that orders hands exactly as `precedes` does.
pub open spec fn hand_score(v: HandValue) -> int {
    ((((rank_value(v.rank) * 256 + v.kickers[0]) * 256 + v.kickers[1]) * 256 + v.kickers[2]) * 256
        + v.kickers[3]) * 256 + v.kickers[4]
}

/// The score orders hands exactly as `precedes` does, and hands tie exactly
/// when their scores are equal.
pub proof fn lemma_precedes_is_score_order(a: HandValue, b: HandValue)
    ensures
        precedes(a, b) <==> hand_score(a) < hand_score(b),
        ties(a, b) <==> hand_score(a) == hand_score(b),
{
}

/// Rank of a card, 0 for a two up to 12 for an ace.
pub open spec fn rank_of(card: u8) -> u8 {
    card % 13
}

/// Suit of a card, 0 to 3 for the cards 0 to 51.
pub open spec fn suit_of(card: u8) -> u8 {
    card / 13
}

/// Rank (0 to 12, where 0 is a two and 12 an ace) of a card value.
#[inline]
pub fn get_rank(card: u8) -> (r: u8)
    ensures
        r == rank_of(card),
        r < 13,
{
    card % 13
}

/// Suit (0 to 3) of a card value.
#[inline]
pub fn get_suit(card: u8) -> (s: u8)
    ensures
        s == suit_of(card),
{
    card / 13
}

/// 1 if the card at position `i` has rank `r`, else 0.
pub open spec fn rank_hit(cards: Seq<u8>, i: int, r: int) -> nat {
    if rank_of(cards[i]) == r {
        1
    } else {
        0
    }
}

/// How many of five cards have rank `r`.
pub open spec fn rank_count(cards: Seq<u8>, r: int) -> nat {
    rank_hit(cards, 0, r) + rank_hit(cards, 1, r) + rank_hit(cards, 2, r) + rank_hit(cards, 3, r)
        + rank_hit(cards, 4, r)
}

/// The ranks from `lo` up to the ace that occur exactly `c` times among five
/// cards, highest first.
pub open spec fn group_above(cards: Seq<u8>, c: nat, lo: int) -> Seq<u8>
    decreases 13 - lo,
{
    if lo >= 13 || lo < 0 {
        Seq::empty()
    } else if rank_count(cards, lo) == c {
        group_above(cards, c, lo + 1).push(lo as u8)
    } else {
        group_above(cards, c, lo + 1)
    }
}

/// The ranks that occur exactly `c` times among five cards, highest first.
pub open spec fn group(cards: Seq<u8>, c: nat) -> Seq<u8> {
    group_above(cards, c, 0)
}

/// The ranks of the cards that rank `lo` or higher, highest first, each rank
/// repeated as often as it occurs.
pub open spec fn descending_above(cards: Seq<u8>, lo: int) -> Seq<u8>
    decreases 13 - lo,
{
    if lo >= 13 || lo < 0 {
        Seq::empty()
    } else {
        descending_above(cards, lo + 1) + Seq::new(rank_count(cards, lo), |i: int| lo as u8)
    }
}

/// The ranks of five cards sorted from highest to lowest.
pub open spec fn descending(cards: Seq<u8>) -> Seq<u8> {
    descending_above(cards, 0)
}

/// All five cards share one suit.
pub open spec fn is_flush(cards: Seq<u8>) -> bool {
    suit_of(cards[1]) == suit_of(cards[0]) && suit_of(cards[2]) == suit_of(cards[0]) && suit_of(
        cards[3],
    ) == suit_of(cards[0]) && suit_of(cards[4]) == suit_of(cards[0])
}

/// Five descending ranks, each one below the one before.
pub open spec fn straight_run(ranks: Seq<u8>) -> bool {
    ranks[0] == ranks[1] + 1 && ranks[1] == ranks[2] + 1 && ranks[2] == ranks[3] + 1 && ranks[3]
        == ranks[4] + 1
}

/// Ace, five, four, three, two: the ace-low straight.
pub open spec fn is_wheel(ranks: Seq<u8>) -> bool {
    ranks[0] == 12 && ranks[1] == 3 && ranks[2] == 2 && ranks[3] == 1 && ranks[4] == 0
}

/// Entry `i` of a group, or 0 where the group is shorter.
pub open spec fn kicker_at(g: Seq<u8>, i: int) -> u8 {
    if 0 <= i < g.len() {
        g[i]
    } else {
        0
    }
}

/// A hand value from a category and its five tie-break values.
pub open spec fn hand_value(rank: HandRank, k0: u8, k1: u8, k2: u8, k3: u8, k4: u8) -> HandValue {
    HandValue { rank, kickers: seq![k0, k1, k2, k3, k4] }
}

/// The value of exactly five cards. Categories are tried from the strongest
/// down; the tie-break values start with the ranks of the groups that make
/// the category and continue with the remaining single cards, highest first.
/// A straight is valued by its top card, the ace-low straight by the five.
pub open spec fn eval_five(cards: Seq<u8>) -> HandValue {
    let d = descending(cards);
    let quads = group(cards, 4);
    let trips = group(cards, 3);
    let pairs = group(cards, 2);
    let singles = group(cards, 1);
    if is_flush(cards) && is_wheel(d) {
        hand_value(HandRank::StraightFlush, 3, 0, 0, 0, 0)
    } else if is_flush(cards) && straight_run(d) {
        if d[0] == 12 {
            hand_value(HandRank::RoyalFlush, 12, 11, 10, 9, 8)
        } else {
            hand_value(HandRank::StraightFlush, d[0], 0, 0, 0, 0)
        }
    } else if quads.len() > 0 {
        hand_value(HandRank::FourOfAKind, quads[0], kicker_at(singles, 0), 0, 0, 0)
    } else if trips.len() > 0 && pairs.len() > 0 {
        hand_value(HandRank::FullHouse, trips[0], pairs[0], 0, 0, 0)
    } else if is_flush(cards) {
        hand_value(HandRank::Flush, d[0], d[1], d[2], d[3], d[4])
    } else if straight_run(d) {
        hand_value(HandRank::Straight, d[0], 0, 0, 0, 0)
    } else if is_wheel(d) {
        hand_value(HandRank::Straight, 3, 0, 0, 0, 0)
    } else if trips.len() > 0 {
        hand_value(
            HandRank::ThreeOfAKind,
            trips[0],
            kicker_at(singles, 0),
            kicker_at(singles, 1),
            0,
            0,
        )
    } else if pairs.len() >= 2 {
        hand_value(HandRank::TwoPair, pairs[0], pairs[1], kicker_at(singles, 0), 0, 0)
    } else if pairs.len() == 1 {
        hand_value(
            HandRank::OnePair,
            pairs[0],
            kicker_at(singles, 0),
            kicker_at(singles, 1),
            kicker_at(singles, 2),
            0,
        )
    } else {
        hand_value(HandRank::HighCard, d[0], d[1], d[2], d[3], d[4])
    }
}

/// Every card has exactly one rank, so the counts over all ranks add up to
/// the five cards.
pub proof fn lemma_rank_counts_total(cards: Seq<u8>)
    ensures
        rank_count(cards, 0) + rank_count(cards, 1) + rank_count(cards, 2) + rank_count(cards, 3)
            + rank_count(cards, 4) + rank_count(cards, 5) + rank_count(cards, 6) + rank_count(
            cards,
            7,
        ) + rank_count(cards, 8) + rank_count(cards, 9) + rank_count(cards, 10) + rank_count(
            cards,
            11,
        ) + rank_count(cards, 12) == 5,
{
    lemma_one_rank_each(cards, 0);
    lemma_one_rank_each(cards, 1);
    lemma_one_rank_each(cards, 2);
    lemma_one_rank_each(cards, 3);
    lemma_one_rank_each(cards, 4);
}

/// A card has exactly one of the thirteen ranks.
proof fn lemma_one_rank_each(cards: Seq<u8>, i: int)
    ensures
        rank_hit(cards, i, 0) + rank_hit(cards, i, 1) + rank_hit(cards, i, 2) + rank_hit(cards, i, 3)
            + rank_hit(cards, i, 4) + rank_hit(cards, i, 5) + rank_hit(cards, i, 6) + rank_hit(
            cards,
            i,
            7,
        ) + rank_hit(cards, i, 8) + rank_hit(cards, i, 9) + rank_hit(cards, i, 10) + rank_hit(
            cards,
            i,
            11,
        ) + rank_hit(cards, i, 12) == 1,
{
}

/// The sorted ranks of five cards are five ranks.
pub proof fn lemma_descending_len(cards: Seq<u8>)
    ensures
        descending(cards).len() == 5,
        forall|i: int| 0 <= i < 5 ==> descending(cards)[i] < 13,
{
    lemma_rank_counts_total(cards);
    lemma_descending_above(cards, 0);
    assert(counts_from(cards, 0) == 5) by {
        reveal_with_fuel(counts_from, 14);
    }
}

/// Length and range of the sorted ranks from `lo` up.
proof fn lemma_descending_above(cards: Seq<u8>, lo: int)
    requires
        0 <= lo <= 13,
    ensures
        descending_above(cards, lo).len() == counts_from(cards, lo),
        forall|i: int|
            0 <= i < descending_above(cards, lo).len() ==> lo <= #[trigger] descending_above(
                cards,
                lo,
            )[i] < 13,
    decreases 13 - lo,
{
    if lo < 13 {
        lemma_descending_above(cards, lo + 1);
    }
}

/// Number of cards that rank `lo` or higher.
pub open spec fn counts_from(cards: Seq<u8>, lo: int) -> nat
    decreases 13 - lo,
{
    if lo >= 13 || lo < 0 {
        0
    } else {
        rank_count(cards, lo) + counts_from(cards, lo + 1)
    }
}

/// How often the value `r` occurs in a row of ranks.
pub open spec fn occurrences(ranks: Seq<u8>, r: int) -> nat
    decreases ranks.len(),
{
    if ranks.len() == 0 {
        0
    } else if ranks.last() == r {
        occurrences(ranks.drop_last(), r) + 1
    } else {
        occurrences(ranks.drop_last(), r)
    }
}

/// A run of `n` copies of a value holds that value `n` times and no other.
proof fn lemma_occurrences_of_run(value: u8, n: nat, r: int)
    ensures
        occurrences(Seq::new(n, |i: int| value), r) == if r == value {
            n
        } else {
            0
        },
    decreases n,
{
    let run = Seq::new(n, |i: int| value);
    if n > 0 {
        lemma_occurrences_of_run(value, (n - 1) as nat, r);
        assert(run.drop_last() =~= Seq::new((n - 1) as nat, |i: int| value));
    }
}

/// A value occurs in two rows put together as often as in both.
proof fn lemma_occurrences_add(a: Seq<u8>, b: Seq<u8>, r: int)
    ensures
        occurrences(a + b, r) == occurrences(a, r) + occurrences(b, r),
    decreases b.len(),
{
    if b.len() == 0 {
        assert(a + b =~= a);
    } else {
        lemma_occurrences_add(a, b.drop_last(), r);
        assert((a + b).drop_last() =~= a + b.drop_last());
    }
}

/// The sorted ranks from `lo` up are ranks from `lo` up in descending
/// order, each as often as it occurs among the cards.
proof fn lemma_descending_above_sorted(cards: Seq<u8>, lo: int)
    requires
        0 <= lo <= 13,
    ensures
        forall|i: int|
            0 <= i < descending_above(cards, lo).len() ==> lo <= #[trigger] descending_above(
                cards,
                lo,
            )[i] < 13,
        forall|i: int, j: int|
            0 <= i <= j < descending_above(cards, lo).len() ==> descending_above(cards, lo)[i]
                >= descending_above(cards, lo)[j],
        forall|r: int|
            #[trigger] occurrences(descending_above(cards, lo), r) == if lo <= r < 13 {
                rank_count(cards, r)
            } else {
                0
            },
    decreases 13 - lo,
{
    if lo < 13 {
        lemma_descending_above_sorted(cards, lo + 1);
        let rest = descending_above(cards, lo + 1);
        let run = Seq::new(rank_count(cards, lo), |i: int| lo as u8);
        assert forall|r: int| #[trigger]
            occurrences(descending_above(cards, lo), r) == if lo <= r < 13 {
                rank_count(cards, r)
            } else {
                0
            } by {
            lemma_occurrences_add(rest, run, r);
            lemma_occurrences_of_run(lo as u8, rank_count(cards, lo), r);
            assert(occurrences(rest, r) == if lo + 1 <= r < 13 {
                rank_count(cards, r)
            } else {
                0
            });
        }
    }
}

/// The sorted ranks of five cards are their ranks in descending order: no
/// entry is below a later one, and every rank occurs in them as often as it
/// occurs among the cards.
pub proof fn lemma_descending_is_sorted(cards: Seq<u8>)
    ensures
        descending(cards).len() == 5,
        forall|i: int, j: int|
            0 <= i <= j < 5 ==> descending(cards)[i] >= descending(cards)[j],
        forall|r: int| #[trigger] occurrences(descending(cards), r) == rank_count(cards, r),
{
    lemma_descending_len(cards);
    lemma_descending_above_sorted(cards, 0);
    assert forall|r: int| #[trigger] occurrences(descending(cards), r) == rank_count(cards, r) by {
        assert(occurrences(descending_above(cards, 0), r) == if 0 <= r < 13 {
            rank_count(cards, r)
        } else {
            0
        });
    }
}

/// How many of five cards have rank `r`.
fn count_rank(cards: &[u8; 5], r: u8) -> (n: u8)
    ensures
        n == rank_count(cards@, r as int),
        n <= 5,
{
    let mut n: u8 = 0;
    if get_rank(cards[0]) == r {
        n += 1;
    }
    if get_rank(cards[1]) == r {
        n += 1;
    }
    if get_rank(cards[2]) == r {
        n += 1;
    }
    if get_rank(cards[3]) == r {
        n += 1;
    }
    if get_rank(cards[4]) == r {
        n += 1;
    }
    n
}

/// Entry `i` of a group, or 0 where the group is shorter.
fn kicker(g: &Vec<u8>, i: usize) -> (k: u8)
    ensures
        k == kicker_at(g@, i as int),
{
    if i < g.len() {
        g[i]
    } else {
        0
    }
}

/// Whether ranks sorted from highest to lowest form a straight.
fn is_straight_ranks(ranks: &[u8; 5]) -> (r: bool)
    requires
        forall|i: int| 0 <= i < 5 ==> ranks@[i] < 13,
    ensures
        r == straight_run(ranks@),
{
    let mut i: usize = 0;
    while i < 4
        invariant
            i <= 4,
            forall|j: int| 0 <= j < 5 ==> ranks@[j] < 13,
            forall|j: int| 0 <= j < i ==> #[trigger] ranks@[j] == ranks@[j + 1] + 1,
        decreases 4 - i,
    {
        if ranks[i] != ranks[i + 1] + 1 {
            return false;
        }
        i += 1;
    }
    true
}

/// Evaluates exactly five cards.
pub fn evaluate_five_cards(cards: &[u8; 5]) -> (h: EvaluatedHand)
    ensures
        h@ == eval_five(cards@),
{
    let flush = get_suit(cards[1]) == get_suit(cards[0]) && get_suit(cards[2]) == get_suit(
        cards[0],
    ) && get_suit(cards[3]) == get_suit(cards[0]) && get_suit(cards[4]) == get_suit(cards[0]);

    // Walk the ranks from the ace down, sorting the cards and collecting the
    // ranks that occur four, three, two times and once.
    let mut sorted: Vec<u8> = Vec::new();
    let mut quads: Vec<u8> = Vec::new();
    let mut trips: Vec<u8> = Vec::new();
    let mut pairs: Vec<u8> = Vec::new();
    let mut singles: Vec<u8> = Vec::new();
    let mut r: u8 = 13;
    while r > 0
        invariant
            r <= 13,
            sorted@ == descending_above(cards@, r as int),
            quads@ == group_above(cards@, 4, r as int),
            trips@ == group_above(cards@, 3, r as int),
            pairs@ == group_above(cards@, 2, r as int),
            singles@ == group_above(cards@, 1, r as int),
        decreases r,
    {
        r -= 1;
        let n = count_rank(cards, r);
        if n == 4 {
            quads.push(r);
        } else if n == 3 {
            trips.push(r);
        } else if n == 2 {
            pairs.push(r);
        } else if n == 1 {
            singles.push(r);
        }
        let mut k: u8 = 0;
        while k < n
            invariant
                k <= n,
                r < 13,
                sorted@ == descending_above(cards@, r + 1) + Seq::new(k as nat, |i: int| r),
            decreases n - k,
        {
            sorted.push(r);
            k += 1;
        }
        assert(Seq::new(n as nat, |i: int| r) =~= Seq::new(
            rank_count(cards@, r as int),
            |i: int| (r as int) as u8,
        ));
    }
    proof {
        lemma_descending_len(cards@);
    }
    let ranks: [u8; 5] = [sorted[0], sorted[1], sorted[2], sorted[3], sorted[4]];
    assert(ranks@ =~= descending(cards@));
    let straight = is_straight_ranks(&ranks);
    let wheel = ranks[0] == 12 && ranks[1] == 3 && ranks[2] == 2 && ranks[3] == 1 && ranks[4] == 0;

    let h = if flush && wheel {
        EvaluatedHand { rank: HandRank::StraightFlush, kickers: [3, 0, 0, 0, 0] }
    } else if flush && straight {
        if ranks[0] == 12 {
            EvaluatedHand { rank: HandRank::RoyalFlush, kickers: [12, 11, 10, 9, 8] }
        } else {
            EvaluatedHand { rank: HandRank::StraightFlush, kickers: [ranks[0], 0, 0, 0, 0] }
        }
    } else if quads.len() > 0 {
        EvaluatedHand {
            rank: HandRank::FourOfAKind,
            kickers: [quads[0], kicker(&singles, 0), 0, 0, 0],
        }
    } else if trips.len() > 0 && pairs.len() > 0 {
        EvaluatedHand { rank: HandRank::FullHouse, kickers: [trips[0], pairs[0], 0, 0, 0] }
    } else if flush {
        EvaluatedHand { rank: HandRank::Flush, kickers: ranks }
    } else if straight {
        EvaluatedHand { rank: HandRank::Straight, kickers: [ranks[0], 0, 0, 0, 0] }
    } else if wheel {
        EvaluatedHand { rank: HandRank::Straight, kickers: [3, 0, 0, 0, 0] }
    } else if trips.len() > 0 {
        EvaluatedHand {
            rank: HandRank::ThreeOfAKind,
            kickers: [trips[0], kicker(&singles, 0), kicker(&singles, 1), 0, 0],
        }
    } else if pairs.len() >= 2 {
        EvaluatedHand {
            rank: HandRank::TwoPair,
            kickers: [pairs[0], pairs[1], kicker(&singles, 0), 0, 0],
        }
    } else if pairs.len() == 1 {
        EvaluatedHand {
            rank: HandRank::OnePair,
            kickers: [pairs[0], kicker(&singles, 0), kicker(&singles, 1), kicker(&singles, 2), 0],
        }
    } else {
        EvaluatedHand { rank: HandRank::HighCard, kickers: ranks }
    };
    assert(h@ =~= eval_five(cards@));
    h
}

/// Position in a row of seven of the `t`-th card that is left once the
/// cards at positions `a` and `b` (with `a < b`) are taken out.
pub open spec fn skip_index(t: int, a: int, b: int) -> int {
    let u = if t >= a {
        t + 1
    } else {
        t
    };
    if u >= b {
        u + 1
    } else {
        u
    }
}

/// The five cards left of seven once those at positions `a` and `b` are
/// taken out. The 21 choices of `a < b` give the 21 five-card subsets.
pub open spec fn without_two(cards: Seq<u8>, a: int, b: int) -> Seq<u8> {
    Seq::new(5, |t: int| cards[skip_index(t, a, b)])
}

/// `v` is the value of some five-card subset of the seven cards, and no
/// five-card subset has a higher value.
pub open spec fn is_best_of_seven(cards: Seq<u8>, v: HandValue) -> bool {
    &&& exists|a: int, b: int|
        0 <= a < b < 7 && v == eval_five(#[trigger] without_two(cards, a, b))
    &&& forall|a: int, b: int|
        0 <= a < b < 7 ==> !precedes(v, eval_five(#[trigger] without_two(cards, a, b)))
}

/// The value of the best five-card hand among seven cards.
pub open spec fn best_of_seven(cards: Seq<u8>) -> HandValue {
    choose|v: HandValue| is_best_of_seven(cards, v)
}

/// The value of five cards always has five tie-break slots.
pub proof fn lemma_eval_five_wf(cards: Seq<u8>)
    ensures
        eval_five(cards).wf(),
{
}

/// Hands that neither precede the other have the same value.
pub proof fn lemma_order_total(a: HandValue, b: HandValue)
    requires
        a.wf(),
        b.wf(),
        !precedes(a, b),
        !precedes(b, a),
    ensures
        a == b,
{
    assert(a.kickers =~= b.kickers);
    assert(a =~= b);
}

/// The best value of seven cards is unique, so `best_of_seven` names it.
pub proof fn lemma_best_of_seven_unique(cards: Seq<u8>, v: HandValue)
    requires
        is_best_of_seven(cards, v),
    ensures
        v == best_of_seven(cards),
        is_best_of_seven(cards, best_of_seven(cards)),
{
    let w = best_of_seven(cards);
    assert(is_best_of_seven(cards, w));
    let (a, b) = choose|a: int, b: int|
        0 <= a < b < 7 && v == eval_five(#[trigger] without_two(cards, a, b));
    let (c, d) = choose|c: int, d: int|
        0 <= c < d < 7 && w == eval_five(#[trigger] without_two(cards, c, d));
    lemma_eval_five_wf(without_two(cards, a, b));
    lemma_eval_five_wf(without_two(cards, c, d));
    lemma_order_total(v, w);
}

/// The card at place `t` of the five that are left without `a` and `b`.
fn pick(cards: &[u8; 7], t: usize, a: usize, b: usize) -> (c: u8)
    requires
        t < 5,
        a < b < 7,
    ensures
        c == cards@[skip_index(t as int, a as int, b as int)],
{
    let u = if t >= a {
        t + 1
    } else {
        t
    };
    let w = if u >= b {
        u + 1
    } else {
        u
    };
    cards[w]
}

/// Evaluates the best five-card hand out of seven cards: all 21 five-card
/// subsets are evaluated and the highest kept.
pub fn evaluate_hand(cards: &[u8; 7]) -> (best: EvaluatedHand)
    ensures
        is_best_of_seven(cards@, best@),
        best@ == best_of_seven(cards@),
{
    let first: [u8; 5] = [cards[2], cards[3], cards[4], cards[5], cards[6]];
    assert(first@ =~= without_two(cards@, 0, 1));
    let mut best = evaluate_five_cards(&first);
    let ghost mut wa: int = 0;
    let ghost mut wb: int = 1;
    let mut a: usize = 0;
    while a < 6
        invariant
            a <= 6,
            0 <= wa < wb < 7,
            best@ == eval_five(without_two(cards@, wa, wb)),
            forall|x: int, y: int|
                0 <= x < y < 7 && x < a ==> hand_score(
                    eval_five(#[trigger] without_two(cards@, x, y)),
                ) <= hand_score(best@),
        decreases 6 - a,
    {
        let mut b: usize = a + 1;
        while b < 7
            invariant
                a < 6,
                a < b <= 7,
                0 <= wa < wb < 7,
                best@ == eval_five(without_two(cards@, wa, wb)),
                forall|x: int, y: int|
                    0 <= x < y < 7 && (x < a || (x == a && y < b)) ==> hand_score(
                        eval_five(#[trigger] without_two(cards@, x, y)),
                    ) <= hand_score(best@),
            decreases 7 - b,
        {
            let five: [u8; 5] = [
                pick(cards, 0, a, b),
                pick(cards, 1, a, b),
                pick(cards, 2, a, b),
                pick(cards, 3, a, b),
                pick(cards, 4, a, b),
            ];
            assert(five@ =~= without_two(cards@, a as int, b as int));
            let eval = evaluate_five_cards(&five);
            proof {
                lemma_precedes_is_score_order(best@, eval@);
            }
            if eval.beats(&best) {
                best = eval;
                proof {
                    wa = a as int;
                    wb = b as int;
                }
            }
            b += 1;
        }
        a += 1;
    }
    proof {
        assert forall|x: int, y: int| 0 <= x < y < 7 implies !precedes(
            best@,
            eval_five(#[trigger] without_two(cards@, x, y)),
        ) by {
            lemma_precedes_is_score_order(best@, eval_five(without_two(cards@, x, y)));
        }
        lemma_best_of_seven_unique(cards@, best@);
    }
    best
}

/// Among the pairs of positions up to `(a, b)`, in the order in which they
/// are listed, one leaves five cards of the highest value.
proof fn lemma_best_among(cards: Seq<u8>, a: int, b: int) -> (w: (int, int))
    requires
        0 <= a < b < 7,
    ensures
        0 <= w.0 < w.1 < 7,
        forall|x: int, y: int|
            0 <= x < y < 7 && (x < a || (x == a && y <= b)) ==> hand_score(
                eval_five(#[trigger] without_two(cards, x, y)),
            ) <= hand_score(eval_five(without_two(cards, w.0, w.1))),
    decreases a, b,
{
    if b > a + 1 {
        let p = lemma_best_among(cards, a, b - 1);
        if hand_score(eval_five(without_two(cards, p.0, p.1))) < hand_score(
            eval_five(without_two(cards, a, b)),
        ) {
            (a, b)
        } else {
            p
        }
    } else if a > 0 {
        let p = lemma_best_among(cards, a - 1, 6);
        if hand_score(eval_five(without_two(cards, p.0, p.1))) < hand_score(
            eval_five(without_two(cards, a, b)),
        ) {
            (a, b)
        } else {
            p
        }
    } else {
        (a, b)
    }
}

/// Any seven cards have a best five-card hand.
pub proof fn lemma_best_of_seven_exists(cards: Seq<u8>)
    ensures
        is_best_of_seven(cards, best_of_seven(cards)),
{
    let w = lemma_best_among(cards, 5, 6);
    let v = eval_five(without_two(cards, w.0, w.1));
    assert forall|x: int, y: int| 0 <= x < y < 7 implies !precedes(
        v,
        eval_five(#[trigger] without_two(cards, x, y)),
    ) by {
        lemma_precedes_is_score_order(v, eval_five(without_two(cards, x, y)));
    }
    assert(is_best_of_seven(cards, v));
}

/// The first position of a row of seven that is none of five increasing
/// positions.
pub open spec fn first_left_out(i: int, j: int, k: int, l: int, m: int) -> int {
    if i > 0 {
        0
    } else if j > 1 {
        1
    } else if k > 2 {
        2
    } else if l > 3 {
        3
    } else if m > 4 {
        4
    } else {
        5
    }
}

/// The last position of a row of seven that is none of five increasing
/// positions.
pub open spec fn last_left_out(i: int, j: int, k: int, l: int, m: int) -> int {
    if m < 6 {
        6
    } else if l < 5 {
        5
    } else if k < 4 {
        4
    } else if j < 3 {
        3
    } else if i < 2 {
        2
    } else {
        1
    }
}

/// Five cards taken from seven at increasing positions are the seven
/// without the two positions that were left out.
pub proof fn lemma_five_of_seven(cards: Seq<u8>, i: int, j: int, k: int, l: int, m: int)
    requires
        0 <= i < j < k < l < m < 7,
    ensures
        0 <= first_left_out(i, j, k, l, m) < last_left_out(i, j, k, l, m) < 7,
        seq![cards[i], cards[j], cards[k], cards[l], cards[m]] == without_two(
            cards,
            first_left_out(i, j, k, l, m),
            last_left_out(i, j, k, l, m),
        ),
{
    let a = first_left_out(i, j, k, l, m);
    let b = last_left_out(i, j, k, l, m);
    assert(skip_index(0, a, b) == i);
    assert(skip_index(1, a, b) == j);
    assert(skip_index(2, a, b) == k);
    assert(skip_index(3, a, b) == l);
    assert(skip_index(4, a, b) == m);
    assert(seq![cards[i], cards[j], cards[k], cards[l], cards[m]] =~= without_two(cards, a, b));
}

/// The best hand of seven cards is the maximum over its five-card subsets:
/// no five of the seven cards evaluate higher, and some five of them
/// evaluate to exactly that value.
pub proof fn lemma_best_of_seven_is_maximum(cards: Seq<u8>)
    ensures
        forall|i: int, j: int, k: int, l: int, m: int|
            0 <= i < j < k < l < m < 7 ==> !precedes(
                best_of_seven(cards),
                eval_five(#[trigger] seq![cards[i], cards[j], cards[k], cards[l], cards[m]]),
            ),
        exists|i: int, j: int, k: int, l: int, m: int|
            0 <= i < j < k < l < m < 7 && best_of_seven(cards) == eval_five(
                #[trigger] seq![cards[i], cards[j], cards[k], cards[l], cards[m]],
            ),
{
    lemma_best_of_seven_exists(cards);
    let best = best_of_seven(cards);
    assert forall|i: int, j: int, k: int, l: int, m: int|
        0 <= i < j < k < l < m < 7 implies !precedes(
        best,
        eval_five(#[trigger] seq![cards[i], cards[j], cards[k], cards[l], cards[m]]),
    ) by {
        lemma_five_of_seven(cards, i, j, k, l, m);
    }
    let (a, b) = choose|a: int, b: int|
        0 <= a < b < 7 && best == eval_five(#[trigger] without_two(cards, a, b));
    let i = skip_index(0, a, b);
    let j = skip_index(1, a, b);
    let k = skip_index(2, a, b);
    let l = skip_index(3, a, b);
    let m = skip_index(4, a, b);
    assert(seq![cards[i], cards[j], cards[k], cards[l], cards[m]] =~= without_two(cards, a, b));
}

/// Outcome of comparing `a` against `b`.
pub open spec fn hand_ordering(a: HandValue, b: HandValue) -> Ordering {
    if precedes(a, b) {
        Ordering::Less
    } else if precedes(b, a) {
        Ordering::Greater
    } else {
        Ordering::Equal
    }
}

impl EvaluatedHand {
    /// Compares two hands: `Greater` if `self` wins, `Less` if `other` wins,
    /// `Equal` for a tie.
    pub fn compare(&self, other: &EvaluatedHand) -> (r: Ordering)
        ensures
            r == hand_ordering(self@, other@),
            (r is Less) <==> precedes(self@, other@),
            (r is Greater) <==> precedes(other@, self@),
            (r is Equal) <==> ties(self@, other@),
    {
        let mine = self.rank.to_u8();
        let theirs = other.rank.to_u8();
        if mine < theirs {
            return Ordering::Less;
        }
        if mine > theirs {
            return Ordering::Greater;
        }
        let mut i: usize = 0;
        while i < 5
            invariant
                i <= 5,
                self.rank == other.rank,
                forall|j: int| 0 <= j < i ==> self.kickers@[j] == other.kickers@[j],
            decreases 5 - i,
        {
            if self.kickers[i] < other.kickers[i] {
                return Ordering::Less;
            }
            if self.kickers[i] > other.kickers[i] {
                return Ordering::Greater;
            }
            i += 1;
        }
        Ordering::Equal
    }

    /// Whether `self` strictly beats `other`.
    pub fn beats(&self, other: &EvaluatedHand) -> (r: bool)
        ensures
            r == precedes(other@, self@),
    {
        let mine = self.rank.to_u8();
        let theirs = other.rank.to_u8();
        if mine != theirs {
            return mine > theirs;
        }
        let mut i: usize = 0;
        while i < 5
            invariant
                i <= 5,
                self.rank == other.rank,
                forall|j: int| 0 <= j < i ==> self.kickers@[j] == other.kickers@[j],
            decreases 5 - i,
        {
            if self.kickers[i] != other.kickers[i] {
                return self.kickers[i] > other.kickers[i];
            }
            i += 1;
        }
        false
    }
}

/// Value of the best hand of entry `i` of a list of seats with their seven
/// cards.
pub open spec fn seat_value(hands: Seq<(u8, [u8; 7])>, i: int) -> HandValue {
    best_of_seven(hands[i].1@)
}

/// Entry `i` wins: no entry of the list holds a higher hand.
pub open spec fn is_winner(hands: Seq<(u8, [u8; 7])>, i: int) -> bool {
    forall|j: int|
        0 <= j < hands.len() ==> !precedes(seat_value(hands, i), #[trigger] seat_value(hands, j))
}

/// The seats of the winning entries among the first `n`, in list order.
pub open spec fn winners_among(hands: Seq<(u8, [u8; 7])>, n: int) -> Seq<u8>
    decreases n,
{
    if n <= 0 {
        Seq::empty()
    } else if is_winner(hands, n - 1) {
        winners_among(hands, n - 1).push(hands[n - 1].0)
    } else {
        winners_among(hands, n - 1)
    }
}

/// Finds the winners among seats that hold seven cards each. Returns the
/// seat indices of every entry whose best hand no other entry beats, in
/// the order of the list; more than one means a split pot.
pub fn find_winners(player_cards: &[(u8, [u8; 7])]) -> (winners: Vec<u8>)
    ensures
        winners@ == winners_among(player_cards@, player_cards@.len() as int),
        player_cards@.len() > 0 ==> winners@.len() > 0,
{
    let n = player_cards.len();
    let mut winners: Vec<u8> = Vec::new();
    if n == 0 {
        return winners;
    }
    // First pass: evaluate every entry and find the highest value.
    let mut evals: Vec<EvaluatedHand> = Vec::new();
    let first = evaluate_hand(&player_cards[0].1);
    let mut best = first;
    let ghost mut at: int = 0;
    let mut i: usize = 0;
    while i < n
        invariant
            i <= n,
            n == player_cards@.len(),
            evals@.len() == i,
            forall|j: int| 0 <= j < i ==> (#[trigger] evals@[j])@ == seat_value(player_cards@, j),
            forall|j: int|
                0 <= j < i ==> hand_score(#[trigger] seat_value(player_cards@, j)) <= hand_score(
                    best@,
                ),
            0 <= at < n,
            best@ == seat_value(player_cards@, at),
        decreases n - i,
    {
        let eval = evaluate_hand(&player_cards[i].1);
        proof {
            lemma_precedes_is_score_order(best@, eval@);
        }
        if eval.beats(&best) {
            best = eval;
            proof {
                at = i as int;
            }
        }
        evals.push(eval);
        i += 1;
    }
    // Second pass: every entry that the highest value does not beat wins.
    let mut k: usize = 0;
    while k < n
        invariant
            k <= n,
            n == player_cards@.len(),
            evals@.len() == n,
            forall|j: int| 0 <= j < n ==> (#[trigger] evals@[j])@ == seat_value(player_cards@, j),
            forall|j: int|
                0 <= j < n ==> hand_score(#[trigger] seat_value(player_cards@, j)) <= hand_score(
                    best@,
                ),
            0 <= at < n,
            best@ == seat_value(player_cards@, at),
            winners@ == winners_among(player_cards@, k as int),
            k > at ==> winners@.len() > 0,
        decreases n - k,
    {
        let tied = !best.beats(&evals[k]);
        proof {
            let mine = seat_value(player_cards@, k as int);
            lemma_precedes_is_score_order(mine, best@);
            if tied {
                assert forall|j: int| 0 <= j < n implies !precedes(
                    mine,
                    #[trigger] seat_value(player_cards@, j),
                ) by {
                    lemma_precedes_is_score_order(mine, seat_value(player_cards@, j));
                }
            }
        }
        if tied {
            winners.push(player_cards[k].0);
        }
        k += 1;
    }
    winners
}

/// Comparing two hands in the opposite direction gives the opposite
/// outcome: one wins exactly when the other loses, and a tie is a tie both
/// ways.
pub proof fn lemma_compare_antisymmetric(h1: EvaluatedHand, h2: EvaluatedHand)
    ensures
        (hand_ordering(h1@, h2@) is Greater) <==> (hand_ordering(h2@, h1@) is Less),
        (hand_ordering(h1@, h2@) is Less) <==> (hand_ordering(h2@, h1@) is Greater),
        (hand_ordering(h1@, h2@) is Equal) <==> (hand_ordering(h2@, h1@) is Equal),
{
    lemma_precedes_is_score_order(h1@, h2@);
    lemma_precedes_is_score_order(h2@, h1@);
}

/// Hands of the same category with the same five tie-break values compare
/// as equal, and only those do.
pub proof fn lemma_compare_equal(h1: EvaluatedHand, h2: EvaluatedHand)
    ensures
        (hand_ordering(h1@, h2@) is Equal) <==> (h1.rank == h2.rank && h1.kickers@ == h2.kickers@),
{
    lemma_precedes_is_score_order(h1@, h2@);
    lemma_precedes_is_score_order(h2@, h1@);
    if ties(h1@, h2@) {
        assert(h1.kickers@ =~= h2.kickers@);
    }
}

/// The order on hands is transitive.
pub proof fn lemma_precedes_transitive(a: HandValue, b: HandValue, c: HandValue)
    requires
        precedes(a, b),
        precedes(b, c),
    ensures
        precedes(a, c),
{
    lemma_precedes_is_score_order(a, b);
    lemma_precedes_is_score_order(b, c);
    lemma_precedes_is_score_order(a, c);
}

/// The value of five cards depends only on how often each rank occurs and
/// on whether the cards make a flush: neither the order of the cards nor
/// their suits matter beyond that.
pub proof fn lemma_value_depends_on_counts(c1: Seq<u8>, c2: Seq<u8>)
    requires
        forall|r: int| rank_count(c1, r) == rank_count(c2, r),
        is_flush(c1) == is_flush(c2),
    ensures
        eval_five(c1) == eval_five(c2),
{
    lemma_same_ranks_same_groups(c1, c2, 0);
}

/// Five cards with the same ranks, position by position, that agree on
/// being a flush have the same value, whatever their suits.
pub proof fn lemma_value_ignores_suits(c1: Seq<u8>, c2: Seq<u8>)
    requires
        forall|i: int| 0 <= i < 5 ==> rank_of(#[trigger] c1[i]) == rank_of(c2[i]),
        is_flush(c1) == is_flush(c2),
    ensures
        eval_five(c1) == eval_five(c2),
{
    assert(rank_of(c1[0]) == rank_of(c2[0]));
    assert(rank_of(c1[1]) == rank_of(c2[1]));
    assert(rank_of(c1[2]) == rank_of(c2[2]));
    assert(rank_of(c1[3]) == rank_of(c2[3]));
    assert(rank_of(c1[4]) == rank_of(c2[4]));
    lemma_value_depends_on_counts(c1, c2);
}

/// How many of five descending ranks are `lo` or higher.
pub open spec fn ranks_from(top: Seq<u8>, lo: int) -> int {
    (if top[0] >= lo {
        1int
    } else {
        0int
    }) + (if top[1] >= lo {
        1int
    } else {
        0int
    }) + (if top[2] >= lo {
        1int
    } else {
        0int
    }) + (if top[3] >= lo {
        1int
    } else {
        0int
    }) + (if top[4] >= lo {
        1int
    } else {
        0int
    })
}

/// For five cards of five different ranks, the sorted ranks and the
/// singles from `lo` up are the given ranks from `lo` up, and no rank
/// occurs more than once.
proof fn lemma_distinct_ranks_above(cards: Seq<u8>, top: Seq<u8>, lo: int)
    requires
        top.len() == 5,
        forall|i: int| 0 <= i < 5 ==> rank_of(#[trigger] cards[i]) == top[i],
        top[0] > top[1] > top[2] > top[3] > top[4],
        0 <= lo <= 13,
    ensures
        descending_above(cards, lo) == top.take(ranks_from(top, lo)),
        group_above(cards, 1, lo) == top.take(ranks_from(top, lo)),
        group_above(cards, 2, lo).len() == 0,
        group_above(cards, 3, lo).len() == 0,
        group_above(cards, 4, lo).len() == 0,
    decreases 13 - lo,
{
    assert(rank_of(cards[0]) == top[0]);
    assert(rank_of(cards[1]) == top[1]);
    assert(rank_of(cards[2]) == top[2]);
    assert(rank_of(cards[3]) == top[3]);
    assert(rank_of(cards[4]) == top[4]);
    if lo < 13 {
        lemma_distinct_ranks_above(cards, top, lo + 1);
        let before = ranks_from(top, lo + 1);
        let now = ranks_from(top, lo);
        assert(rank_count(cards, lo) == now - before);
        if now > before {
            assert(top[before] == lo);
            assert(top.take(now) =~= top.take(before).push(lo as u8));
            assert(Seq::new(1, |i: int| lo as u8) =~= seq![lo as u8]);
            assert(descending_above(cards, lo) =~= top.take(now));
        } else {
            assert(descending_above(cards, lo) =~= top.take(now));
        }
    } else {
        assert(top.take(0) =~= Seq::<u8>::empty());
    }
}

/// Five cards of five different ranks, held from the highest to the
/// lowest: their sorted ranks are these five ranks, each is a single, and
/// no rank occurs more than once.
pub proof fn lemma_distinct_ranks(cards: Seq<u8>, top: Seq<u8>)
    requires
        top.len() == 5,
        forall|i: int| 0 <= i < 5 ==> rank_of(#[trigger] cards[i]) == top[i],
        top[0] > top[1] > top[2] > top[3] > top[4],
    ensures
        descending(cards) == top,
        group(cards, 1) == top,
        group(cards, 2).len() == 0,
        group(cards, 3).len() == 0,
        group(cards, 4).len() == 0,
{
    lemma_distinct_ranks_above(cards, top, 0);
    assert(top.take(5) =~= top);
}

/// Five cards in which each of five given ranks occurs once hold no other
/// rank.
proof fn lemma_five_ranks_fill(cards: Seq<u8>, top: Seq<u8>)
    requires
        top.len() == 5,
        13 > top[0] > top[1] > top[2] > top[3] > top[4],
        forall|i: int| 0 <= i < 5 ==> rank_count(cards, #[trigger] top[i] as int) == 1,
    ensures
        forall|r: int|
            rank_count(cards, r) == if r == top[0] || r == top[1] || r == top[2] || r == top[3] || r
                == top[4] {
                1nat
            } else {
                0nat
            },
{
    assert(rank_count(cards, top[0] as int) == 1);
    assert(rank_count(cards, top[1] as int) == 1);
    assert(rank_count(cards, top[2] as int) == 1);
    assert(rank_count(cards, top[3] as int) == 1);
    assert(rank_count(cards, top[4] as int) == 1);
}

/// Ace, king, queen, jack and ten of one suit, in any order, are a royal
/// flush.
pub proof fn lemma_royal_flush(cards: Seq<u8>)
    requires
        is_flush(cards),
        rank_count(cards, 12) == 1,
        rank_count(cards, 11) == 1,
        rank_count(cards, 10) == 1,
        rank_count(cards, 9) == 1,
        rank_count(cards, 8) == 1,
    ensures
        eval_five(cards) == hand_value(HandRank::RoyalFlush, 12, 11, 10, 9, 8),
{
    let top = seq![12u8, 11u8, 10u8, 9u8, 8u8];
    lemma_five_ranks_fill(cards, top);
    lemma_five_ranks_fill(top, top);
    lemma_distinct_ranks(top, top);
    lemma_value_depends_on_counts(cards, top);
}

/// Ace, two, three, four and five, in any order, are a straight to the
/// five: valued by the five, not by the ace. In one suit they are a
/// straight flush to the five.
pub proof fn lemma_wheel(cards: Seq<u8>)
    requires
        rank_count(cards, 12) == 1,
        rank_count(cards, 3) == 1,
        rank_count(cards, 2) == 1,
        rank_count(cards, 1) == 1,
        rank_count(cards, 0) == 1,
    ensures
        eval_five(cards) == hand_value(
            if is_flush(cards) {
                HandRank::StraightFlush
            } else {
                HandRank::Straight
            },
            3,
            0,
            0,
            0,
            0,
        ),
{
    let top = seq![12u8, 3u8, 2u8, 1u8, 0u8];
    let plain = seq![12u8, 3u8, 2u8, 1u8, 13u8];
    lemma_five_ranks_fill(cards, top);
    if is_flush(cards) {
        lemma_five_ranks_fill(top, top);
        lemma_distinct_ranks(top, top);
        lemma_value_depends_on_counts(cards, top);
    } else {
        lemma_five_ranks_fill(plain, top);
        lemma_distinct_ranks(plain, top);
        lemma_value_depends_on_counts(cards, plain);
    }
}

/// Five ranks in a row below the ace-high straight, in any order, are a
/// straight valued by its top rank; in one suit a straight flush.
pub proof fn lemma_straight(cards: Seq<u8>, high: u8)
    requires
        4 <= high < 12,
        rank_count(cards, high as int) == 1,
        rank_count(cards, high - 1) == 1,
        rank_count(cards, high - 2) == 1,
        rank_count(cards, high - 3) == 1,
        rank_count(cards, high - 4) == 1,
    ensures
        eval_five(cards) == hand_value(
            if is_flush(cards) {
                HandRank::StraightFlush
            } else {
                HandRank::Straight
            },
            high,
            0,
            0,
            0,
            0,
        ),
{
    let top = seq![high, (high - 1) as u8, (high - 2) as u8, (high - 3) as u8, (high - 4) as u8];
    let plain = seq![
        high,
        (high - 1) as u8,
        (high - 2) as u8,
        (high - 3) as u8,
        (high - 4 + 13) as u8,
    ];
    lemma_five_ranks_fill(cards, top);
    if is_flush(cards) {
        lemma_five_ranks_fill(top, top);
        lemma_distinct_ranks(top, top);
        lemma_value_depends_on_counts(cards, top);
    } else {
        lemma_five_ranks_fill(plain, top);
        lemma_distinct_ranks(plain, top);
        lemma_value_depends_on_counts(cards, plain);
    }
}

/// The straight to the five is the lowest straight: it ranks strictly
/// below the straight to the six.
pub proof fn lemma_wheel_is_lowest_straight(wheel: Seq<u8>, six_high: Seq<u8>)
    requires
        !is_flush(wheel),
        !is_flush(six_high),
        rank_count(wheel, 12) == 1,
        rank_count(wheel, 3) == 1,
        rank_count(wheel, 2) == 1,
        rank_count(wheel, 1) == 1,
        rank_count(wheel, 0) == 1,
        rank_count(six_high, 4) == 1,
        rank_count(six_high, 3) == 1,
        rank_count(six_high, 2) == 1,
        rank_count(six_high, 1) == 1,
        rank_count(six_high, 0) == 1,
    ensures
        eval_five(wheel).rank == HandRank::Straight,
        eval_five(six_high).rank == HandRank::Straight,
        precedes(eval_five(wheel), eval_five(six_high)),
{
    lemma_wheel(wheel);
    lemma_straight(six_high, 4);
}

/// Seven cards among which five are a royal flush have the royal flush as
/// their best hand, whatever the other two cards are.
pub proof fn lemma_royal_flush_of_seven(cards: Seq<u8>, a: int, b: int)
    requires
        0 <= a < b < 7,
        is_flush(without_two(cards, a, b)),
        rank_count(without_two(cards, a, b), 12) == 1,
        rank_count(without_two(cards, a, b), 11) == 1,
        rank_count(without_two(cards, a, b), 10) == 1,
        rank_count(without_two(cards, a, b), 9) == 1,
        rank_count(without_two(cards, a, b), 8) == 1,
    ensures
        best_of_seven(cards) == hand_value(HandRank::RoyalFlush, 12, 11, 10, 9, 8),
{
    let royal = hand_value(HandRank::RoyalFlush, 12, 11, 10, 9, 8);
    lemma_royal_flush(without_two(cards, a, b));
    lemma_best_of_seven_exists(cards);
    let best = best_of_seven(cards);
    assert(!precedes(best, eval_five(without_two(cards, a, b))));
    let (x, y) = choose|x: int, y: int|
        0 <= x < y < 7 && best == eval_five(#[trigger] without_two(cards, x, y));
    lemma_eval_five_wf(without_two(cards, x, y));
    lemma_eval_five_bounds(without_two(cards, x, y));
    lemma_order_total(best, royal);
}

/// The tie-break values of five cards are ranks: all below 13. A royal
/// flush has ace to ten as its values, so no hand ranks above it.
pub proof fn lemma_eval_five_bounds(cards: Seq<u8>)
    ensures
        forall|i: int| 0 <= i < 5 ==> #[trigger] eval_five(cards).kickers[i] < 13,
        eval_five(cards).rank == HandRank::RoyalFlush ==> eval_five(cards) == hand_value(
            HandRank::RoyalFlush,
            12,
            11,
            10,
            9,
            8,
        ),
        !precedes(hand_value(HandRank::RoyalFlush, 12, 11, 10, 9, 8), eval_five(cards)),
{
    lemma_descending_len(cards);
    lemma_group_bounds(cards, 1, 0);
    lemma_group_bounds(cards, 2, 0);
    lemma_group_bounds(cards, 3, 0);
    lemma_group_bounds(cards, 4, 0);
}

/// The entries of a group are ranks.
proof fn lemma_group_bounds(cards: Seq<u8>, c: nat, lo: int)
    requires
        0 <= lo <= 13,
    ensures
        forall|i: int|
            0 <= i < group_above(cards, c, lo).len() ==> #[trigger] group_above(cards, c, lo)[i]
                < 13,
    decreases 13 - lo,
{
    if lo < 13 {
        lemma_group_bounds(cards, c, lo + 1);
        let rest = group_above(cards, c, lo + 1);
        assert forall|i: int| 0 <= i < group_above(cards, c, lo).len() implies #[trigger] group_above(
            cards,
            c,
            lo,
        )[i] < 13 by {
            if i < rest.len() {
                assert(rest[i] < 13);
            }
        }
    }
}

/// Cards in which every rank occurs equally often have the same sorted
/// ranks and the same groups.
proof fn lemma_same_ranks_same_groups(c1: Seq<u8>, c2: Seq<u8>, lo: int)
    requires
        0 <= lo <= 13,
        forall|r: int| rank_count(c1, r) == rank_count(c2, r),
    ensures
        descending_above(c1, lo) == descending_above(c2, lo),
        forall|c: nat| #[trigger] group_above(c1, c, lo) == group_above(c2, c, lo),
    decreases 13 - lo,
{
    if lo < 13 {
        lemma_same_ranks_same_groups(c1, c2, lo + 1);
        assert forall|c: nat| #[trigger] group_above(c1, c, lo) == group_above(c2, c, lo) by {
            assert(group_above(c1, c, lo + 1) == group_above(c2, c, lo + 1));
        }
    }
}

} // verus!
