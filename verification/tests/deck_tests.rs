use la_mesa::cards::{load_poker_deck, CardMetadata};

#[test]
fn poker_deck_has_fifty_two_cards() {
    let deck = load_poker_deck();
    assert_eq!(deck.len(), 52);
}

#[test]
fn poker_deck_runs_thirteen_values_per_suit() {
    let deck = load_poker_deck();
    for (i, card) in deck.iter().enumerate() {
        assert_eq!(card.value as usize, i % 13 + 1);
    }
    assert_eq!(deck[0].suit, "Clubs");
    assert_eq!(deck[13].suit, "Diamonds");
    assert_eq!(deck[26].suit, "Hearts");
    assert_eq!(deck[39].suit, "Spades");
}

#[test]
fn poker_deck_filenames_follow_the_scheme() {
    let deck = load_poker_deck();
    assert_eq!(deck[0].filename, "card-clubs-1.png");
    assert_eq!(deck[12].filename, "card-clubs-13.png");
    assert_eq!(deck[14].filename, "card-diamonds-2.png");
    assert_eq!(deck[51].filename, "card-spades-13.png");
}

#[test]
fn poker_card_metadata_faces() {
    let deck = load_poker_deck();
    assert_eq!(deck[26].front_image_filename(), "card-hearts-1.png");
    assert_eq!(deck[26].back_image_filename(), "card-back.png");
}
