use vstd::prelude::*;

use crate::card::{Card, Suit};

verus! {

/// The categories of a poker hand, from the strongest to the weakest.
#[derive(Debug, Clone, Copy, PartialEq, Eq, Structural)]
pub enum PokerHand {
    RoyalFlush,
    StraightFlush,
    FourOfAKind,
    FullHouse,
    Flush,
    Straight,
    ThreeOfAKind,
    TwoPair,
    OnePair,
    HighCard,
}

impl PokerHand {
    /// The name under which the category is shown to a player.
    pub open spec fn spec_name(self) -> Seq<char> {
        match self {
            PokerHand::RoyalFlush => "ロイヤルストレートフラッシュ"@,
            PokerHand::StraightFlush => "ストレートフラッシュ"@,
            PokerHand::FourOfAKind => "フォーカード"@,
            PokerHand::FullHouse => "フルハウス"@,
            PokerHand::Flush => "フラッシュ"@,
            PokerHand::Straight => "ストレート"@,
            PokerHand::ThreeOfAKind => "スリーカード"@,
            PokerHand::TwoPair => "ツーペア"@,
            PokerHand::OnePair => "ワンペア"@,
            PokerHand::HighCard => "ハイカード"@,
        }
    }

    /// The name under which the category is shown to a player.
    pub fn name(&self) -> (r: String)
        ensures
            r@ == self.spec_name(),
    {
        let s: &str = match self {
            PokerHand::RoyalFlush => "ロイヤルストレートフラッシュ",
            PokerHand::StraightFlush => "ストレートフラッシュ",
            PokerHand::FourOfAKind => "フォーカード",
            PokerHand::FullHouse => "フルハウス",
            PokerHand::Flush => "フラッシュ",
            PokerHand::Straight => "ストレート",
            PokerHand::ThreeOfAKind => "スリーカード",
            PokerHand::TwoPair => "ツーペア",
            PokerHand::OnePair => "ワンペア",
            PokerHand::HighCard => "ハイカード",
        };
        String::from_str(s)
    }
}

/// How many cards of `hand` have rank `r`.
pub open spec fn rank_count(hand: Seq<Card>, r: usize) -> nat
    decreases hand.len(),
{
    if hand.len() == 0 {
        0
    } else {
        rank_count(hand.drop_last(), r) + if hand.last().rank == r { 1nat } else { 0nat }
    }
}

/// Some card of `hand` has rank `r`.
pub open spec fn has_rank(hand: Seq<Card>, r: usize) -> bool {
    exists|i: int| 0 <= i < hand.len() && #[trigger] hand[i].rank == r
}

/// Some rank of `hand` occurs exactly `k` times.
pub open spec fn has_rank_with_count(hand: Seq<Card>, k: nat) -> bool {
    exists|i: int| 0 <= i < hand.len() && rank_count(hand, #[trigger] hand[i].rank) == k
}

/// The hand is not empty and all its cards share one suit.
pub open spec fn single_suit(hand: Seq<Card>) -> bool {
    hand.len() > 0 && forall|i: int| 0 <= i < hand.len() ==> #[trigger] hand[i].suit == hand[0].suit
}

/// No two cards of the hand share a rank.
pub open spec fn distinct_ranks(hand: Seq<Card>) -> bool {
    forall|i: int, j: int|
        0 <= i < j < hand.len() ==> #[trigger] hand[i].rank != #[trigger] hand[j].rank
}

/// The ace (1) and the ranks from 10 to 13.
pub open spec fn is_broadway_rank(r: usize) -> bool {
    r == 1 || (10 <= r && r <= 13)
}

/// Every rank of the hand is the ace or one of 10 to 13.
pub open spec fn only_broadway_ranks(hand: Seq<Card>) -> bool {
    forall|i: int| 0 <= i < hand.len() ==> is_broadway_rank(#[trigger] hand[i].rank)
}

/// The set of ranks of the hand is exactly {1, 10, 11, 12, 13}.
pub open spec fn broadway_rank_set(hand: Seq<Card>) -> bool {
    &&& only_broadway_ranks(hand)
    &&& has_rank(hand, 1)
    &&& has_rank(hand, 10)
    &&& has_rank(hand, 11)
    &&& has_rank(hand, 12)
    &&& has_rank(hand, 13)
}

/// Sorted, the ranks are 1, 10, 11, 12, 13.
pub open spec fn ace_high_run(hand: Seq<Card>) -> bool {
    hand.len() == 5 && distinct_ranks(hand) && only_broadway_ranks(hand)
}

/// Every rank of the hand lies in the window of `hand.len()` ranks that starts at card `m`'s.
pub open spec fn window_from(hand: Seq<Card>, m: int) -> bool {
    forall|j: int|
        0 <= j < hand.len() ==> hand[m].rank <= #[trigger] hand[j].rank < hand[m].rank + hand.len()
}

/// Sorted, each rank is one more than the one before it.
pub open spec fn consecutive_ranks(hand: Seq<Card>) -> bool {
    &&& distinct_ranks(hand)
    &&& (hand.len() == 0 || exists|m: int| 0 <= m < hand.len() && #[trigger] window_from(hand, m))
}

pub open spec fn is_royal_flush(hand: Seq<Card>) -> bool {
    single_suit(hand) && broadway_rank_set(hand)
}

pub open spec fn is_straight(hand: Seq<Card>) -> bool {
    ace_high_run(hand) || consecutive_ranks(hand)
}

/// At most one suit occurs, and the ranks form a straight.
pub open spec fn is_straight_flush(hand: Seq<Card>) -> bool {
    (forall|i: int| 0 <= i < hand.len() ==> #[trigger] hand[i].suit == hand[0].suit) && is_straight(
        hand,
    )
}

pub open spec fn is_four_of_a_kind(hand: Seq<Card>) -> bool {
    has_rank_with_count(hand, 4)
}

/// The largest rank count is 3, held by one rank, and the next largest is 2.
pub open spec fn is_full_house(hand: Seq<Card>) -> bool {
    exists|i: int, j: int|
        0 <= i < hand.len() && 0 <= j < hand.len() && #[trigger] rank_count(hand, hand[i].rank) == 3
            && #[trigger] rank_count(hand, hand[j].rank) == 2 && forall|k: int|
            0 <= k < hand.len() ==> rank_count(hand, #[trigger] hand[k].rank) <= 3 && (hand[k].rank
                != hand[i].rank ==> rank_count(hand, hand[k].rank) <= 2)
}

pub open spec fn is_flush(hand: Seq<Card>) -> bool {
    single_suit(hand)
}

pub open spec fn is_three_of_a_kind(hand: Seq<Card>) -> bool {
    has_rank_with_count(hand, 3)
}

/// The largest rank count is 2, and two ranks hold it.
pub open spec fn is_two_pair(hand: Seq<Card>) -> bool {
    exists|i: int, j: int|
        0 <= i < hand.len() && 0 <= j < hand.len() && hand[i].rank != hand[j].rank
            && #[trigger] rank_count(hand, hand[i].rank) == 2 && #[trigger] rank_count(
            hand,
            hand[j].rank,
        ) == 2 && forall|k: int|
            0 <= k < hand.len() ==> rank_count(hand, #[trigger] hand[k].rank) <= 2
}

pub open spec fn is_one_pair(hand: Seq<Card>) -> bool {
    has_rank_with_count(hand, 2)
}

/// The category of a hand: the first of the rules, strongest first, that it meets.
pub open spec fn hand_category(hand: Seq<Card>) -> PokerHand {
    if is_royal_flush(hand) {
        PokerHand::RoyalFlush
    } else if is_straight_flush(hand) {
        PokerHand::StraightFlush
    } else if is_four_of_a_kind(hand) {
        PokerHand::FourOfAKind
    } else if is_full_house(hand) {
        PokerHand::FullHouse
    } else if is_flush(hand) {
        PokerHand::Flush
    } else if is_straight(hand) {
        PokerHand::Straight
    } else if is_three_of_a_kind(hand) {
        PokerHand::ThreeOfAKind
    } else if is_two_pair(hand) {
        PokerHand::TwoPair
    } else if is_one_pair(hand) {
        PokerHand::OnePair
    } else {
        PokerHand::HighCard
    }
}

fn count_rank(hand: &[Card], r: usize) -> (c: usize)
    ensures
        c == rank_count(hand@, r),
{
    let mut c: usize = 0;
    let mut j: usize = 0;
    while j < hand.len()
        invariant
            j <= hand@.len(),
            c <= j,
            c == rank_count(hand@.take(j as int), r),
        decreases hand.len() - j,
    {
        assert(hand@.take(j + 1).drop_last() =~= hand@.take(j as int));
        if hand[j].rank == r {
            c = c + 1;
        }
        j = j + 1;
    }
    assert(hand@.take(j as int) =~= hand@);
    c
}

/// For each card, how many cards of the hand share its rank.
fn rank_counts(hand: &[Card]) -> (counts: Vec<usize>)
    ensures
        counts@.len() == hand@.len(),
        forall|i: int| 0 <= i < hand@.len() ==> counts@[i] == rank_count(hand@, #[trigger] hand@[i].rank),
{
    let mut counts: Vec<usize> = Vec::new();
    let mut i: usize = 0;
    while i < hand.len()
        invariant
            i <= hand@.len(),
            counts@.len() == i,
            forall|k: int| 0 <= k < i ==> counts@[k] == rank_count(hand@, #[trigger] hand@[k].rank),
        decreases hand.len() - i,
    {
        let c = count_rank(hand, hand[i].rank);
        counts.push(c);
        i = i + 1;
    }
    counts
}

/// The index of a card whose rank occurs exactly `k` times, if there is one.
fn find_rank_with_count(hand: &[Card], counts: &Vec<usize>, k: usize) -> (r: Option<usize>)
    requires
        counts@.len() == hand@.len(),
        forall|i: int| 0 <= i < hand@.len() ==> counts@[i] == rank_count(hand@, #[trigger] hand@[i].rank),
    ensures
        r matches Some(i) ==> i < hand@.len() && rank_count(hand@, hand@[i as int].rank) == k,
        r is None ==> !has_rank_with_count(hand@, k as nat),
{
    let mut i: usize = 0;
    while i < counts.len()
        invariant
            counts@.len() == hand@.len(),
            forall|i: int| 0 <= i < hand@.len() ==> counts@[i] == rank_count(hand@, #[trigger] hand@[i].rank),
            i <= counts@.len(),
            forall|j: int| 0 <= j < i ==> rank_count(hand@, #[trigger] hand@[j].rank) != k,
        decreases counts.len() - i,
    {
        if counts[i] == k {
            return Some(i);
        }
        i = i + 1;
    }
    None
}

/// All cards of the hand share the suit of the first one (true of an empty hand).
fn one_suit_at_most(hand: &[Card]) -> (r: bool)
    ensures
        r == (forall|i: int| 0 <= i < hand@.len() ==> #[trigger] hand@[i].suit == hand@[0].suit),
{
    if hand.len() == 0 {
        return true;
    }
    let first: Suit = hand[0].suit;
    let mut i: usize = 1;
    while i < hand.len()
        invariant
            1 <= i <= hand@.len(),
            first == hand@[0].suit,
            forall|k: int| 0 <= k < i ==> #[trigger] hand@[k].suit == first,
        decreases hand.len() - i,
    {
        if hand[i].suit != first {
            return false;
        }
        i = i + 1;
    }
    true
}

fn contains_rank(hand: &[Card], r: usize) -> (b: bool)
    ensures
        b == has_rank(hand@, r),
{
    let mut i: usize = 0;
    while i < hand.len()
        invariant
            i <= hand@.len(),
            forall|k: int| 0 <= k < i ==> #[trigger] hand@[k].rank != r,
        decreases hand.len() - i,
    {
        if hand[i].rank == r {
            return true;
        }
        i = i + 1;
    }
    false
}

fn ranks_are_broadway(hand: &[Card]) -> (b: bool)
    ensures
        b == only_broadway_ranks(hand@),
{
    let mut i: usize = 0;
    while i < hand.len()
        invariant
            i <= hand@.len(),
            forall|k: int| 0 <= k < i ==> is_broadway_rank(#[trigger] hand@[k].rank),
        decreases hand.len() - i,
    {
        let r = hand[i].rank;
        if !(r == 1 || (10 <= r && r <= 13)) {
            return false;
        }
        i = i + 1;
    }
    true
}

fn ranks_distinct(hand: &[Card]) -> (b: bool)
    ensures
        b == distinct_ranks(hand@),
{
    let mut j: usize = 0;
    while j < hand.len()
        invariant
            j <= hand@.len(),
            forall|a: int, c: int|
                0 <= a < c < j ==> #[trigger] hand@[a].rank != #[trigger] hand@[c].rank,
        decreases hand.len() - j,
    {
        let mut i: usize = 0;
        while i < j
            invariant
                i <= j < hand@.len(),
                forall|a: int, c: int|
                    0 <= a < c < j ==> #[trigger] hand@[a].rank != #[trigger] hand@[c].rank,
                forall|a: int| 0 <= a < i ==> #[trigger] hand@[a].rank != hand@[j as int].rank,
            decreases j - i,
        {
            if hand[i].rank == hand[j].rank {
                assert(!distinct_ranks(hand@)) by {
                    assert(hand@[i as int].rank == hand@[j as int].rank);
                }
                return false;
            }
            i = i + 1;
        }
        j = j + 1;
    }
    true
}

/// Index of a card of the lowest rank; the hand must not be empty.
fn lowest_rank_index(hand: &[Card]) -> (m: usize)
    requires
        hand@.len() > 0,
    ensures
        m < hand@.len(),
        forall|j: int| 0 <= j < hand@.len() ==> hand@[m as int].rank <= #[trigger] hand@[j].rank,
{
    let mut m: usize = 0;
    let mut i: usize = 1;
    while i < hand.len()
        invariant
            1 <= i <= hand@.len(),
            m < i,
            forall|j: int| 0 <= j < i ==> hand@[m as int].rank <= #[trigger] hand@[j].rank,
        decreases hand.len() - i,
    {
        if hand[i].rank < hand[m].rank {
            m = i;
        }
        i = i + 1;
    }
    m
}

fn ranks_consecutive(hand: &[Card]) -> (b: bool)
    ensures
        b == consecutive_ranks(hand@),
{
    if !ranks_distinct(hand) {
        return false;
    }
    if hand.len() == 0 {
        return true;
    }
    let m = lowest_rank_index(hand);
    let low = hand[m].rank;
    let mut i: usize = 0;
    while i < hand.len()
        invariant
            i <= hand@.len(),
            m < hand@.len(),
            low == hand@[m as int].rank,
            forall|j: int| 0 <= j < hand@.len() ==> low <= #[trigger] hand@[j].rank,
            forall|j: int| 0 <= j < i ==> #[trigger] hand@[j].rank < low + hand@.len(),
        decreases hand.len() - i,
    {
        if hand[i].rank - low >= hand.len() {
            assert(!consecutive_ranks(hand@)) by {
                if consecutive_ranks(hand@) {
                    let w = choose|w: int| 0 <= w < hand@.len() && #[trigger] window_from(hand@, w);
                    assert(hand@[w].rank <= hand@[m as int].rank);
                    assert(hand@[i as int].rank < hand@[w].rank + hand@.len());
                }
            }
            return false;
        }
        i = i + 1;
    }
    assert(window_from(hand@, m as int));
    true
}

/// The cards of the hand share one suit and their ranks are 1, 10, 11, 12 and 13.
pub fn royal_flush(hand: &[Card]) -> (r: bool)
    ensures
        r == is_royal_flush(hand@),
{
    hand.len() > 0 && one_suit_at_most(hand) && ranks_are_broadway(hand) && contains_rank(hand, 1)
        && contains_rank(hand, 10) && contains_rank(hand, 11) && contains_rank(hand, 12)
        && contains_rank(hand, 13)
}

/// At most one suit occurs and the ranks form a straight.
pub fn straight_flush(hand: &[Card]) -> (r: bool)
    ensures
        r == is_straight_flush(hand@),
{
    if !one_suit_at_most(hand) {
        return false;
    }
    straight(hand)
}

/// Some rank occurs exactly four times.
pub fn four_of_a_kind(hand: &[Card]) -> (r: bool)
    ensures
        r == is_four_of_a_kind(hand@),
{
    let counts = rank_counts(hand);
    find_rank_with_count(hand, &counts, 4).is_some()
}

/// Three cards of one rank and two of another, and no rank more frequent.
pub fn full_house(hand: &[Card]) -> (r: bool)
    ensures
        r == is_full_house(hand@),
{
    let counts = rank_counts(hand);
    let three = find_rank_with_count(hand, &counts, 3);
    let a = match three {
        None => {
            return false;
        },
        Some(a) => a,
    };
    let mut pair: Option<usize> = None;
    let mut k: usize = 0;
    while k < hand.len()
        invariant
            k <= hand@.len(),
            a < hand@.len(),
            counts@.len() == hand@.len(),
            forall|i: int| 0 <= i < hand@.len() ==> counts@[i] == rank_count(hand@, #[trigger] hand@[i].rank),
            rank_count(hand@, hand@[a as int].rank) == 3,
            forall|j: int| 0 <= j < k ==> rank_count(hand@, #[trigger] hand@[j].rank) <= 3 && (hand@[j].rank
                != hand@[a as int].rank ==> rank_count(hand@, hand@[j].rank) <= 2),
            pair matches Some(p) ==> p < hand@.len() && rank_count(hand@, hand@[p as int].rank) == 2,
            pair is None ==> forall|j: int| 0 <= j < k ==> rank_count(hand@, #[trigger] hand@[j].rank) != 2,
        decreases hand.len() - k,
    {
        if counts[k] > 3 || (hand[k].rank != hand[a].rank && counts[k] > 2) {
            assert(!is_full_house(hand@)) by {
                if is_full_house(hand@) {
                    let (i, j) = choose|i: int, j: int|
                        0 <= i < hand@.len() && 0 <= j < hand@.len() && #[trigger] rank_count(hand@, hand@[i].rank) == 3
                            && #[trigger] rank_count(hand@, hand@[j].rank) == 2 && forall|k: int|
                            0 <= k < hand@.len() ==> rank_count(hand@, #[trigger] hand@[k].rank) <= 3 && (hand@[k].rank
                                != hand@[i].rank ==> rank_count(hand@, hand@[k].rank) <= 2);
                    assert(rank_count(hand@, hand@[a as int].rank) <= 3);
                    assert(rank_count(hand@, hand@[k as int].rank) <= 3);
                }
            }
            return false;
        }
        if counts[k] == 2 {
            pair = Some(k);
        }
        k = k + 1;
    }
    match pair {
        Some(p) => {
            assert(rank_count(hand@, hand@[a as int].rank) == 3 && rank_count(hand@, hand@[p as int].rank) == 2);
            true
        },
        None => false,
    }
}

/// All cards share one suit.
pub fn flush(hand: &[Card]) -> (r: bool)
    ensures
        r == is_flush(hand@),
{
    hand.len() > 0 && one_suit_at_most(hand)
}

/// Sorted, the ranks are consecutive, or they are 1, 10, 11, 12 and 13.
pub fn straight(hand: &[Card]) -> (r: bool)
    ensures
        r == is_straight(hand@),
{
    (hand.len() == 5 && ranks_distinct(hand) && ranks_are_broadway(hand)) || ranks_consecutive(hand)
}

/// Some rank occurs exactly three times.
pub fn three_of_a_kind(hand: &[Card]) -> (r: bool)
    ensures
        r == is_three_of_a_kind(hand@),
{
    let counts = rank_counts(hand);
    find_rank_with_count(hand, &counts, 3).is_some()
}

/// Two ranks occur exactly twice each, and no rank more often.
pub fn two_pair(hand: &[Card]) -> (r: bool)
    ensures
        r == is_two_pair(hand@),
{
    let counts = rank_counts(hand);
    let first = find_rank_with_count(hand, &counts, 2);
    let a = match first {
        None => {
            return false;
        },
        Some(a) => a,
    };
    let mut other: Option<usize> = None;
    let mut k: usize = 0;
    while k < hand.len()
        invariant
            k <= hand@.len(),
            a < hand@.len(),
            counts@.len() == hand@.len(),
            forall|i: int| 0 <= i < hand@.len() ==> counts@[i] == rank_count(hand@, #[trigger] hand@[i].rank),
            rank_count(hand@, hand@[a as int].rank) == 2,
            forall|j: int| 0 <= j < k ==> rank_count(hand@, #[trigger] hand@[j].rank) <= 2,
            other matches Some(p) ==> p < hand@.len() && hand@[p as int].rank != hand@[a as int].rank
                && rank_count(hand@, hand@[p as int].rank) == 2,
            other is None ==> forall|j: int| 0 <= j < k && hand@[j].rank != hand@[a as int].rank
                ==> rank_count(hand@, #[trigger] hand@[j].rank) != 2,
        decreases hand.len() - k,
    {
        if counts[k] > 2 {
            assert(!is_two_pair(hand@)) by {
                if is_two_pair(hand@) {
                    let (i, j) = choose|i: int, j: int|
                        0 <= i < hand@.len() && 0 <= j < hand@.len() && hand@[i].rank != hand@[j].rank
                            && #[trigger] rank_count(hand@, hand@[i].rank) == 2 && #[trigger] rank_count(
                            hand@,
                            hand@[j].rank,
                        ) == 2 && forall|k: int|
                            0 <= k < hand@.len() ==> rank_count(hand@, #[trigger] hand@[k].rank) <= 2;
                    assert(rank_count(hand@, hand@[k as int].rank) <= 2);
                }
            }
            return false;
        }
        if counts[k] == 2 && hand[k].rank != hand[a].rank {
            other = Some(k);
        }
        k = k + 1;
    }
    match other {
        Some(p) => {
            assert(rank_count(hand@, hand@[a as int].rank) == 2 && rank_count(hand@, hand@[p as int].rank) == 2);
            true
        },
        None => {
            assert(!is_two_pair(hand@)) by {
                if is_two_pair(hand@) {
                    let (i, j) = choose|i: int, j: int|
                        0 <= i < hand@.len() && 0 <= j < hand@.len() && hand@[i].rank != hand@[j].rank
                            && #[trigger] rank_count(hand@, hand@[i].rank) == 2 && #[trigger] rank_count(
                            hand@,
                            hand@[j].rank,
                        ) == 2 && forall|k: int|
                            0 <= k < hand@.len() ==> rank_count(hand@, #[trigger] hand@[k].rank) <= 2;
                    if hand@[i].rank == hand@[a as int].rank {
                        assert(rank_count(hand@, hand@[j].rank) != 2);
                    } else {
                        assert(rank_count(hand@, hand@[i].rank) != 2);
                    }
                }
            }
            false
        },
    }
}

/// Some rank occurs exactly twice.
pub fn one_pair(hand: &[Card]) -> (r: bool)
    ensures
        r == is_one_pair(hand@),
{
    let counts = rank_counts(hand);
    find_rank_with_count(hand, &counts, 2).is_some()
}

/// The category of a hand: the strongest rule that it meets.
pub fn evaluate_hand(hand: Vec<Card>) -> (r: PokerHand)
    ensures
        r == hand_category(hand@),
{
    let h = hand.as_slice();
    if royal_flush(h) {
        PokerHand::RoyalFlush
    } else if straight_flush(h) {
        PokerHand::StraightFlush
    } else if four_of_a_kind(h) {
        PokerHand::FourOfAKind
    } else if full_house(h) {
        PokerHand::FullHouse
    } else if flush(h) {
        PokerHand::Flush
    } else if straight(h) {
        PokerHand::Straight
    } else if three_of_a_kind(h) {
        PokerHand::ThreeOfAKind
    } else if two_pair(h) {
        PokerHand::TwoPair
    } else if one_pair(h) {
        PokerHand::OnePair
    } else {
        PokerHand::HighCard
    }
}

} // verus!
