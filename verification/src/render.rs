use crate::card::{Card, Suit};
use vstd::prelude::*;
use vstd::string::{StrSliceExecFns, StringExecFns};

verus! {

/// The symbol of a card's suit; a blank for an empty slot.
pub open spec fn suit_symbol(card: Card) -> char {
    match card {
        Card::Empty => ' ',
        Card::Regular(Suit::Clubs, _) => '♣',
        Card::Regular(Suit::Hearts, _) => '♥',
        Card::Regular(Suit::Spades, _) => '♠',
        Card::Regular(Suit::Diamonds, _) => '♦',
    }
}

/// The decimal digit `d`, as text.
pub open spec fn digit(d: nat) -> Seq<char> {
    if d == 0 {
        "0"@
    } else if d == 1 {
        "1"@
    } else if d == 2 {
        "2"@
    } else if d == 3 {
        "3"@
    } else if d == 4 {
        "4"@
    } else if d == 5 {
        "5"@
    } else if d == 6 {
        "6"@
    } else if d == 7 {
        "7"@
    } else if d == 8 {
        "8"@
    } else {
        "9"@
    }
}

/// The number `n` in decimal notation.
pub open spec fn decimal(n: nat) -> Seq<char>
    decreases n,
{
    if n < 10 {
        digit(n)
    } else {
        decimal(n / 10) + digit(n % 10)
    }
}

/// The text of a card's rank: a letter for ace, jack, queen and king, the number for
/// the others, nothing for an empty slot.
pub open spec fn rank_symbol(card: Card) -> Seq<char> {
    match card {
        Card::Empty => Seq::empty(),
        Card::Regular(_, r) => if r == 1 {
            "A"@
        } else if r == 11 {
            "J"@
        } else if r == 12 {
            "Q"@
        } else if r == 13 {
            "K"@
        } else {
            decimal(r as nat)
        },
    }
}

/// `n` blanks.
pub open spec fn blanks(n: nat) -> Seq<char> {
    Seq::new(n, |i: int| ' ')
}

/// `text`, filled up with blanks on the right to at least `width` characters.
pub open spec fn pad_right(text: Seq<char>, width: nat) -> Seq<char> {
    if text.len() < width {
        text + blanks((width - text.len()) as nat)
    } else {
        text
    }
}

/// `text`, filled up with blanks on the left to at least `width` characters.
pub open spec fn pad_left(text: Seq<char>, width: nat) -> Seq<char> {
    if text.len() < width {
        blanks((width - text.len()) as nat) + text
    } else {
        text
    }
}

/// The five lines of the box that shows a card. The rank stands in the upper left
/// and the lower right corner, the suit twice in the middle.
pub open spec fn drawing(card: Card) -> Seq<Seq<char>> {
    seq![
        "┌─────┐"@,
        "│"@ + pad_right(rank_symbol(card), 2) + "   │"@,
        "│"@ + seq![suit_symbol(card)] + "   "@ + seq![suit_symbol(card)] + "│"@,
        "│   "@ + pad_left(rank_symbol(card), 2) + "│"@,
        "└─────┘"@,
    ]
}

/// Line `k` of the boxes of `cards`, side by side.
pub open spec fn row_line(cards: Seq<Card>, k: int) -> Seq<char>
    decreases cards.len(),
{
    if cards.len() == 0 {
        Seq::empty()
    } else {
        row_line(cards.drop_last(), k) + drawing(cards.last())[k]
    }
}

/// The number of lines in the drawing of a card.
pub const CARD_LINES: usize = 5;

fn digit_str(d: u8) -> (s: &'static str)
    requires
        d < 10,
    ensures
        s@ == digit(d as nat),
{
    match d {
        0 => "0",
        1 => "1",
        2 => "2",
        3 => "3",
        4 => "4",
        5 => "5",
        6 => "6",
        7 => "7",
        8 => "8",
        _ => "9",
    }
}

/// The number `n` in decimal notation.
pub fn decimal_string(n: u8) -> (s: String)
    ensures
        s@ == decimal(n as nat),
{
    let mut s = String::new();
    if n >= 100 {
        s.append(digit_str(n / 100));
    }
    if n >= 10 {
        s.append(digit_str(n / 10 % 10));
    }
    s.append(digit_str(n % 10));
    proof {
        reveal_with_fuel(decimal, 3);
    }
    s
}

/// `text` with `count` blanks after it.
fn blanks_after(text: String, count: usize) -> (padded: String)
    ensures
        padded@ == text@ + blanks(count as nat),
{
    let ghost start = text@;
    let mut padded = text;
    let mut k: usize = 0;
    while k < count
        invariant
            k <= count,
            padded@ == start + blanks(k as nat),
        decreases count - k,
    {
        padded.append(" ");
        proof {
            reveal_strlit(" ");
        }
        k = k + 1;
    }
    padded
}

/// `text`, filled up with blanks on the right to at least `width` characters.
fn padded_right(text: &String, width: usize) -> (padded: String)
    ensures
        padded@ == pad_right(text@, width as nat),
{
    let n = text.as_str().unicode_len();
    let missing = if n < width {
        width - n
    } else {
        0
    };
    blanks_after(text.clone(), missing)
}

/// `text`, filled up with blanks on the left to at least `width` characters.
fn padded_left(text: &String, width: usize) -> (padded: String)
    ensures
        padded@ == pad_left(text@, width as nat),
{
    let n = text.as_str().unicode_len();
    let missing = if n < width {
        width - n
    } else {
        0
    };
    let mut padded = blanks_after(String::new(), missing);
    padded.append(text.as_str());
    padded
}

impl Card {
    /// The symbol of the card's suit as text.
    fn suit_str(&self) -> (sym: &'static str)
        ensures
            sym@ == seq![suit_symbol(*self)],
    {
        proof {
            reveal_strlit(" ");
            reveal_strlit("♣");
            reveal_strlit("♥");
            reveal_strlit("♠");
            reveal_strlit("♦");
        }
        match self {
            Card::Empty => " ",
            Card::Regular(Suit::Clubs, _) => "♣",
            Card::Regular(Suit::Hearts, _) => "♥",
            Card::Regular(Suit::Spades, _) => "♠",
            Card::Regular(Suit::Diamonds, _) => "♦",
        }
    }

    /// The five lines of the box that shows the card.
    pub fn draw(&self) -> (lines: [String; 5])
        ensures
            lines@.len() == 5,
            forall|k: int| 0 <= k < 5 ==> (#[trigger] lines@[k])@ == drawing(*self)[k],
    {
        let rank = self.rank_sym();
        let suit = self.suit_str();
        let top = String::from_str("┌─────┐");
        let mut upper = String::from_str("│");
        upper.append(padded_right(&rank, 2).as_str());
        upper.append("   │");
        let mut middle = String::from_str("│");
        middle.append(suit);
        middle.append("   ");
        middle.append(suit);
        middle.append("│");
        let mut lower = String::from_str("│   ");
        lower.append(padded_left(&rank, 2).as_str());
        lower.append("│");
        let bottom = String::from_str("└─────┘");
        [top, upper, middle, lower, bottom]
    }

    /// The boxes of `cards` side by side: five lines, each the matching lines of all
    /// the cards one after the other.
    pub fn draw_row(cards: &Vec<Card>) -> (lines: Vec<String>)
        ensures
            lines@.len() == 5,
            forall|k: int| 0 <= k < 5 ==> (#[trigger] lines@[k])@ == row_line(cards@, k),
    {
        let mut lines: Vec<String> = Vec::new();
        let mut k: usize = 0;
        while k < CARD_LINES
            invariant
                k <= 5,
                lines@.len() == k,
                forall|j: int| 0 <= j < k ==> (#[trigger] lines@[j])@ == Seq::<char>::empty(),
            decreases 5 - k,
        {
            lines.push(String::new());
            k = k + 1;
        }
        let mut i: usize = 0;
        while i < cards.len()
            invariant
                i <= cards@.len(),
                lines@.len() == 5,
                forall|j: int|
                    0 <= j < 5 ==> (#[trigger] lines@[j])@ == row_line(cards@.take(i as int), j),
            decreases cards@.len() - i,
        {
            let card_lines = cards[i].draw();
            let mut k: usize = 0;
            while k < CARD_LINES
                invariant
                    k <= 5,
                    i < cards@.len(),
                    lines@.len() == 5,
                    card_lines@.len() == 5,
                    forall|j: int|
                        0 <= j < 5 ==> (#[trigger] card_lines@[j])@ == drawing(cards@[i as int])[j],
                    cards@.take(i + 1).drop_last() == cards@.take(i as int),
                    forall|j: int|
                        0 <= j < k ==> (#[trigger] lines@[j])@ == row_line(
                            cards@.take(i + 1),
                            j,
                        ),
                    forall|j: int|
                        k <= j < 5 ==> (#[trigger] lines@[j])@ == row_line(
                            cards@.take(i as int),
                            j,
                        ),
                decreases 5 - k,
            {
                lines[k].append(card_lines[k].as_str());
                k = k + 1;
            }
            i = i + 1;
        }
        assert(cards@.take(i as int) =~= cards@);
        lines
    }

    /// The symbol of the card's suit; a blank for an empty slot.
    pub fn suit_sym(&self) -> (sym: char)
        ensures
            sym == suit_symbol(*self),
    {
        match self {
            Card::Empty => ' ',
            Card::Regular(Suit::Clubs, _) => '♣',
            Card::Regular(Suit::Hearts, _) => '♥',
            Card::Regular(Suit::Spades, _) => '♠',
            Card::Regular(Suit::Diamonds, _) => '♦',
        }
    }

    /// The text of the card's rank.
    pub fn rank_sym(&self) -> (sym: String)
        ensures
            sym@ == rank_symbol(*self),
    {
        match self.num() {
            Some(1) => String::from_str("A"),
            Some(11) => String::from_str("J"),
            Some(12) => String::from_str("Q"),
            Some(13) => String::from_str("K"),
            Some(n) => decimal_string(n),
            None => String::new(),
        }
    }
}

} // verus!
