use calculator_with_memory::card::{Card, Suit};
use calculator_with_memory::evaluation::{
    evaluate_hand, flush, four_of_a_kind, full_house, one_pair, royal_flush, straight,
    straight_flush, three_of_a_kind, two_pair, PokerHand,
};

#[test]
fn test_royal_flush() {
    let hand = vec![
        Card {
            suit: Suit::Heart,
            rank: 10,
        },
        Card {
            suit: Suit::Heart,
            rank: 11,
        },
        Card {
            suit: Suit::Heart,
            rank: 12,
        },
        Card {
            suit: Suit::Heart,
            rank: 13,
        },
        Card {
            suit: Suit::Heart,
            rank: 1,
        },
    ];
    assert!(royal_flush(&hand));
}

#[test]
fn test_straight_flush_1() {
    let hand = vec![
        Card {
            suit: Suit::Heart,
            rank: 1,
        },
        Card {
            suit: Suit::Heart,
            rank: 2,
        },
        Card {
            suit: Suit::Heart,
            rank: 3,
        },
        Card {
            suit: Suit::Heart,
            rank: 4,
        },
        Card {
            suit: Suit::Heart,
            rank: 5,
        },
    ];
    assert!(straight_flush(&hand));
}

#[test]
fn test_straight_flush_2() {
    let hand = vec![
        Card {
            suit: Suit::Heart,
            rank: 10,
        },
        Card {
            suit: Suit::Heart,
            rank: 11,
        },
        Card {
            suit: Suit::Heart,
            rank: 12,
        },
        Card {
            suit: Suit::Heart,
            rank: 13,
        },
        Card {
            suit: Suit::Heart,
            rank: 1,
        },
    ];
    assert!(straight_flush(&hand));
}

#[test]
fn test_four_of_a_kind() {
    let hand = vec![
        Card {
            suit: Suit::Heart,
            rank: 1,
        },
        Card {
            suit: Suit::Heart,
            rank: 1,
        },
        Card {
            suit: Suit::Diamond,
            rank: 1,
        },
        Card {
            suit: Suit::Spade,
            rank: 1,
        },
        Card {
            suit: Suit::Club,
            rank: 13,
        },
    ];
    assert!(four_of_a_kind(&hand));
}

#[test]
fn test_full_house() {
    let hand = vec![
        Card {
            suit: Suit::Heart,
            rank: 1,
        },
        Card {
            suit: Suit::Heart,
            rank: 1,
        },
        Card {
            suit: Suit::Diamond,
            rank: 1,
        },
        Card {
            suit: Suit::Spade,
            rank: 2,
        },
        Card {
            suit: Suit::Club,
            rank: 2,
        },
    ];
    assert!(full_house(&hand));
}

#[test]
fn test_flush() {
    let hand = vec![
        Card {
            suit: Suit::Heart,
            rank: 1,
        },
        Card {
            suit: Suit::Heart,
            rank: 3,
        },
        Card {
            suit: Suit::Heart,
            rank: 6,
        },
        Card {
            suit: Suit::Heart,
            rank: 9,
        },
        Card {
            suit: Suit::Heart,
            rank: 12,
        },
    ];
    assert!(flush(&hand));
}

#[test]
fn test_straight_1() {
    let hand = vec![
        Card {
            suit: Suit::Heart,
            rank: 1,
        },
        Card {
            suit: Suit::Heart,
            rank: 2,
        },
        Card {
            suit: Suit::Heart,
            rank: 3,
        },
        Card {
            suit: Suit::Diamond,
            rank: 4,
        },
        Card {
            suit: Suit::Diamond,
            rank: 5,
        },
    ];
    assert!(straight(&hand));
}

#[test]
fn test_straight_2() {
    let hand = vec![
        Card {
            suit: Suit::Heart,
            rank: 11,
        },
        Card {
            suit: Suit::Heart,
            rank: 1,
        },
        Card {
            suit: Suit::Heart,
            rank: 12,
        },
        Card {
            suit: Suit::Diamond,
            rank: 13,
        },
        Card {
            suit: Suit::Diamond,
            rank: 10,
        },
    ];
    assert!(straight(&hand));
}

#[test]
fn test_three_of_a_kind() {
    let hand = vec![
        Card {
            suit: Suit::Heart,
            rank: 1,
        },
        Card {
            suit: Suit::Heart,
            rank: 1,
        },
        Card {
            suit: Suit::Diamond,
            rank: 1,
        },
        Card {
            suit: Suit::Spade,
            rank: 13,
        },
        Card {
            suit: Suit::Club,
            rank: 13,
        },
    ];
    assert!(three_of_a_kind(&hand));
}

#[test]
fn test_two_pair() {
    let hand = vec![
        Card {
            suit: Suit::Heart,
            rank: 1,
        },
        Card {
            suit: Suit::Heart,
            rank: 1,
        },
        Card {
            suit: Suit::Diamond,
            rank: 2,
        },
        Card {
            suit: Suit::Spade,
            rank: 2,
        },
        Card {
            suit: Suit::Club,
            rank: 3,
        },
    ];
    assert!(two_pair(&hand));
}

#[test]
fn test_one_pair() {
    let hand = vec![
        Card {
            suit: Suit::Heart,
            rank: 1,
        },
        Card {
            suit: Suit::Heart,
            rank: 1,
        },
        Card {
            suit: Suit::Diamond,
            rank: 2,
        },
        Card {
            suit: Suit::Spade,
            rank: 3,
        },
        Card {
            suit: Suit::Club,
            rank: 4,
        },
    ];
    assert!(one_pair(&hand));
}

#[test]
fn test_high_card() {
    let hand = vec![
        Card {
            suit: Suit::Heart,
            rank: 1,
        },
        Card {
            suit: Suit::Heart,
            rank: 3,
        },
        Card {
            suit: Suit::Diamond,
            rank: 5,
        },
        Card {
            suit: Suit::Spade,
            rank: 7,
        },
        Card {
            suit: Suit::Club,
            rank: 9,
        },
    ];

    assert!(!royal_flush(&hand));
    assert!(!straight_flush(&hand));
    assert!(!four_of_a_kind(&hand));
    assert!(!full_house(&hand));
    assert!(!flush(&hand));
    assert!(!straight(&hand));
    assert!(!three_of_a_kind(&hand));
    assert!(!two_pair(&hand));
    assert!(!one_pair(&hand));
}

fn hand_of(cards: &[(Suit, usize)]) -> Vec<Card> {
    cards.iter().map(|&(suit, rank)| Card { suit, rank }).collect()
}

#[test]
fn evaluate_hand_picks_the_strongest_category() {
    let royal = hand_of(&[(Suit::Heart, 10), (Suit::Heart, 11), (Suit::Heart, 12), (Suit::Heart, 13), (Suit::Heart, 1)]);
    assert_eq!(evaluate_hand(royal), PokerHand::RoyalFlush);
    let straight_flush = hand_of(&[(Suit::Club, 5), (Suit::Club, 6), (Suit::Club, 7), (Suit::Club, 8), (Suit::Club, 9)]);
    assert_eq!(evaluate_hand(straight_flush), PokerHand::StraightFlush);
    let four = hand_of(&[(Suit::Club, 7), (Suit::Heart, 7), (Suit::Spade, 7), (Suit::Diamond, 7), (Suit::Club, 2)]);
    assert_eq!(evaluate_hand(four), PokerHand::FourOfAKind);
    let full = hand_of(&[(Suit::Club, 7), (Suit::Heart, 7), (Suit::Spade, 7), (Suit::Diamond, 2), (Suit::Club, 2)]);
    assert_eq!(evaluate_hand(full), PokerHand::FullHouse);
    let flush = hand_of(&[(Suit::Spade, 2), (Suit::Spade, 4), (Suit::Spade, 7), (Suit::Spade, 9), (Suit::Spade, 12)]);
    assert_eq!(evaluate_hand(flush), PokerHand::Flush);
    let straight = hand_of(&[(Suit::Club, 9), (Suit::Heart, 10), (Suit::Spade, 11), (Suit::Diamond, 12), (Suit::Club, 13)]);
    assert_eq!(evaluate_hand(straight), PokerHand::Straight);
    let three = hand_of(&[(Suit::Club, 4), (Suit::Heart, 4), (Suit::Spade, 4), (Suit::Diamond, 9), (Suit::Club, 13)]);
    assert_eq!(evaluate_hand(three), PokerHand::ThreeOfAKind);
    let two = hand_of(&[(Suit::Club, 4), (Suit::Heart, 4), (Suit::Spade, 9), (Suit::Diamond, 9), (Suit::Club, 13)]);
    assert_eq!(evaluate_hand(two), PokerHand::TwoPair);
    let one = hand_of(&[(Suit::Club, 4), (Suit::Heart, 4), (Suit::Spade, 8), (Suit::Diamond, 9), (Suit::Club, 13)]);
    assert_eq!(evaluate_hand(one), PokerHand::OnePair);
    let high = hand_of(&[(Suit::Club, 2), (Suit::Heart, 4), (Suit::Spade, 8), (Suit::Diamond, 9), (Suit::Club, 13)]);
    assert_eq!(evaluate_hand(high), PokerHand::HighCard);
}

#[test]
fn ace_low_and_ace_high_straights() {
    let wheel = hand_of(&[(Suit::Club, 1), (Suit::Heart, 2), (Suit::Spade, 3), (Suit::Diamond, 4), (Suit::Club, 5)]);
    assert!(straight(&wheel));
    let wrap = hand_of(&[(Suit::Club, 11), (Suit::Heart, 12), (Suit::Spade, 13), (Suit::Diamond, 1), (Suit::Club, 2)]);
    assert!(!straight(&wrap));
    let gap = hand_of(&[(Suit::Club, 2), (Suit::Heart, 3), (Suit::Spade, 4), (Suit::Diamond, 5), (Suit::Club, 7)]);
    assert!(!straight(&gap));
}

#[test]
fn full_house_and_two_pair_need_the_exact_counts() {
    let four_and_one = hand_of(&[(Suit::Club, 7), (Suit::Heart, 7), (Suit::Spade, 7), (Suit::Diamond, 7), (Suit::Club, 2)]);
    assert!(!full_house(&four_and_one));
    assert!(!two_pair(&four_and_one));
    let five_alike = hand_of(&[(Suit::Club, 7), (Suit::Heart, 7), (Suit::Spade, 7), (Suit::Diamond, 7), (Suit::Club, 7)]);
    assert!(!full_house(&five_alike));
    assert!(!four_of_a_kind(&five_alike));
    let three_and_two = hand_of(&[(Suit::Club, 3), (Suit::Heart, 3), (Suit::Spade, 3), (Suit::Diamond, 8), (Suit::Club, 8)]);
    assert!(!two_pair(&three_and_two));
    assert!(one_pair(&three_and_two));
}

#[test]
fn flush_needs_a_card() {
    let empty: Vec<Card> = Vec::new();
    assert!(!flush(&empty));
    assert!(!royal_flush(&empty));
}

#[test]
fn hand_names() {
    assert_eq!(PokerHand::RoyalFlush.name(), "ロイヤルストレートフラッシュ");
    assert_eq!(PokerHand::FullHouse.name(), "フルハウス");
    assert_eq!(PokerHand::HighCard.name(), "ハイカード");
}
