//! Card payloads: the capability a payload offers to the renderer, and the
//! standard poker deck used as example data.

use vstd::prelude::*;
use vstd::string::StringExecFns;

use crate::geom::Transform3;

verus! {

/// What a card payload must offer so that the renderer can materialize it:
/// the visual identifiers of its two faces.
pub trait CardMetadata {
    /// The payload type handed back by game rules.
    type Output;

    /// Visual identifier of the card's face.
    fn front_image_filename(&self) -> String;

    /// Visual identifier of the card's back.
    fn back_image_filename(&self) -> String;
}

/// The per-entity card state: whether pointer events may pick it up, the
/// transform it should rest at once idle, and its game-specific payload.
pub struct Card<T> {
    pub pickable: bool,
    pub transform: Option<Transform3>,
    pub data: T,
}

/// One card of a poker deck.
#[derive(Debug, Clone)]
pub struct PokerCard {
    pub value: u8,
    pub suit: String,
    pub filename: String,
}

/// The display name of each of the four suits, in deck order.
pub open spec fn spec_suit_name(s: int) -> Seq<char> {
    if s == 0 {
        "Clubs"@
    } else if s == 1 {
        "Diamonds"@
    } else if s == 2 {
        "Hearts"@
    } else {
        "Spades"@
    }
}

/// The lower-case form of each suit used in image filenames.
pub open spec fn spec_suit_lower(s: int) -> Seq<char> {
    if s == 0 {
        "clubs"@
    } else if s == 1 {
        "diamonds"@
    } else if s == 2 {
        "hearts"@
    } else {
        "spades"@
    }
}

/// The decimal text of a card value between 1 and 13.
pub open spec fn spec_value_text(v: int) -> Seq<char> {
    if v == 1 {
        "1"@
    } else if v == 2 {
        "2"@
    } else if v == 3 {
        "3"@
    } else if v == 4 {
        "4"@
    } else if v == 5 {
        "5"@
    } else if v == 6 {
        "6"@
    } else if v == 7 {
        "7"@
    } else if v == 8 {
        "8"@
    } else if v == 9 {
        "9"@
    } else if v == 10 {
        "10"@
    } else if v == 11 {
        "11"@
    } else if v == 12 {
        "12"@
    } else {
        "13"@
    }
}

/// The face image filename of a poker card: its suit and value spliced into
/// the deck's naming scheme.
pub open spec fn spec_poker_filename(s: int, v: int) -> Seq<char> {
    "card-"@ + spec_suit_lower(s) + "-"@ + spec_value_text(v) + ".png"@
}

fn suit_name(s: usize) -> (r: String)
    requires
        s < 4,
    ensures
        r@ == spec_suit_name(s as int),
{
    if s == 0 {
        String::from_str("Clubs")
    } else if s == 1 {
        String::from_str("Diamonds")
    } else if s == 2 {
        String::from_str("Hearts")
    } else {
        String::from_str("Spades")
    }
}

fn suit_lower(s: usize) -> (r: &'static str)
    requires
        s < 4,
    ensures
        r@ == spec_suit_lower(s as int),
{
    if s == 0 {
        "clubs"
    } else if s == 1 {
        "diamonds"
    } else if s == 2 {
        "hearts"
    } else {
        "spades"
    }
}

fn value_text(v: u8) -> (r: &'static str)
    requires
        1 <= v <= 13,
    ensures
        r@ == spec_value_text(v as int),
{
    if v == 1 {
        "1"
    } else if v == 2 {
        "2"
    } else if v == 3 {
        "3"
    } else if v == 4 {
        "4"
    } else if v == 5 {
        "5"
    } else if v == 6 {
        "6"
    } else if v == 7 {
        "7"
    } else if v == 8 {
        "8"
    } else if v == 9 {
        "9"
    } else if v == 10 {
        "10"
    } else if v == 11 {
        "11"
    } else if v == 12 {
        "12"
    } else {
        "13"
    }
}

fn poker_filename(s: usize, v: u8) -> (r: String)
    requires
        s < 4,
        1 <= v <= 13,
    ensures
        r@ == spec_poker_filename(s as int, v as int),
{
    let mut f = String::from_str("card-");
    f.append(suit_lower(s));
    f.append("-");
    f.append(value_text(v));
    f.append(".png");
    f
}

/// Builds the standard 52-card poker deck: thirteen values in each of clubs,
/// diamonds, hearts and spades, with the face image named after both.
pub fn load_poker_deck() -> (r: Vec<PokerCard>)
    ensures
        r@.len() == 52,
        forall|i: int| 0 <= i < 52 ==> #[trigger] r@[i].value == i % 13 + 1,
        forall|i: int| 0 <= i < 52 ==> (#[trigger] r@[i].suit)@ == spec_suit_name(i / 13),
        forall|i: int|
            0 <= i < 52 ==> (#[trigger] r@[i].filename)@ == spec_poker_filename(
                i / 13,
                i % 13 + 1,
            ),
{
    let mut deck: Vec<PokerCard> = Vec::new();
    let mut s: usize = 0;
    while s < 4
        invariant
            s <= 4,
            deck@.len() == 13 * s,
            forall|i: int| 0 <= i < deck@.len() ==> #[trigger] deck@[i].value == i % 13 + 1,
            forall|i: int|
                0 <= i < deck@.len() ==> (#[trigger] deck@[i].suit)@ == spec_suit_name(i / 13),
            forall|i: int|
                0 <= i < deck@.len() ==> (#[trigger] deck@[i].filename)@ == spec_poker_filename(
                    i / 13,
                    i % 13 + 1,
                ),
        decreases 4 - s,
    {
        let mut v: u8 = 1;
        while v <= 13
            invariant
                s < 4,
                1 <= v <= 14,
                deck@.len() == 13 * s + (v - 1),
                forall|i: int| 0 <= i < deck@.len() ==> #[trigger] deck@[i].value == i % 13 + 1,
                forall|i: int|
                    0 <= i < deck@.len() ==> (#[trigger] deck@[i].suit)@ == spec_suit_name(i / 13),
                forall|i: int|
                    0 <= i < deck@.len() ==> (#[trigger] deck@[i].filename)@
                        == spec_poker_filename(i / 13, i % 13 + 1),
            decreases 14 - v,
        {
            let card = PokerCard {
                value: v,
                suit: suit_name(s),
                filename: poker_filename(s, v),
            };
            proof {
                let k = deck@.len() as int;
                assert(k == 13 * s + (v - 1));
                assert(k / 13 == s as int && k % 13 == v - 1) by (nonlinear_arith)
                    requires k == 13 * (s as int) + ((v as int) - 1) && 0 <= (v as int) - 1 < 13
                        && 0 <= s < 4;
            }
            deck.push(card);
            v = v + 1;
        }
        s = s + 1;
    }
    deck
}

impl CardMetadata for PokerCard {
    type Output = PokerCard;

    /// The card's own face image.
    fn front_image_filename(&self) -> String {
        self.filename.clone()
    }

    /// The shared back image of the deck.
    fn back_image_filename(&self) -> String {
        String::from_str("card-back.png")
    }
}

} // verus!
