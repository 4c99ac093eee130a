//! The feedback model of one game session: the chosen language, the playfield
//! length, the per-slot knowledge gathered so far, and the letters known to be
//! absent from the target word.

use vstd::prelude::*;

verus! {

/// The language whose dictionary and letter-frequency tables are in play.
#[derive(Debug, Clone, Copy, PartialEq, Eq, Structural)]
pub enum GameLanguage {
    Swedish,
    English,
}

/// The number of letters in the target word, fixed for a session.
#[derive(Debug, Clone, Copy, PartialEq, Eq, Structural)]
pub enum GameLength {
    Five,
    Six,
}

impl GameLength {
    /// The number of playfield slots this length stands for.
    pub open spec fn spec_slots(self) -> nat {
        match self {
            GameLength::Five => 5,
            GameLength::Six => 6,
        }
    }

    /// Returns the number of playfield slots this length stands for.
    pub fn slots(&self) -> (n: usize)
        ensures
            n == self.spec_slots(),
    {
        match self {
            GameLength::Five => 5,
            GameLength::Six => 6,
        }
    }
}

/// What is known about one playfield position.
#[derive(Debug, Clone, Copy, PartialEq, Eq)]
pub enum Slot {
    /// Nothing is known about this position.
    Unknown,
    /// This exact letter is confirmed correct at this position.
    Locked(char),
    /// This letter occurs in the word, but confirmed not at this position.
    Misplaced(char),
}

/// Whether some slot of the playfield names `c`, either as a locked letter or
/// as a misplaced one. A letter so named is confirmed present in the word.
pub open spec fn mentions(playfield: Seq<Slot>, c: char) -> bool {
    exists|i: int|
        0 <= i < playfield.len() && (playfield[i] == Slot::Locked(c) || playfield[i]
            == Slot::Misplaced(c))
}

/// One game session: the feedback gathered so far, replaced wholesale each
/// round, and read-only inputs to every filtering pass.
#[derive(Debug)]
pub struct Game {
    pub language: GameLanguage,
    pub length: GameLength,
    pub playfield: Vec<Slot>,
    pub wrong_letters: Vec<char>,
}

impl Game {
    /// The playfield always holds one slot per letter of the target word.
    pub open spec fn well_formed(self) -> bool {
        self.playfield@.len() == self.length.spec_slots()
    }

    /// Starts a fresh session: every slot unknown, no letter ruled out.
    pub fn new(language: GameLanguage, length: GameLength) -> (game: Game)
        ensures
            game.language == language,
            game.length == length,
            game.playfield@ =~= Seq::new(length.spec_slots(), |i: int| Slot::Unknown),
            game.wrong_letters@ =~= Seq::<char>::empty(),
            game.well_formed(),
    {
        let n = length.slots();
        let mut playfield: Vec<Slot> = Vec::new();
        let mut i: usize = 0;
        while i < n
            invariant
                i <= n,
                playfield@ =~= Seq::new(i as nat, |j: int| Slot::Unknown),
            decreases n - i,
        {
            playfield.push(Slot::Unknown);
            i = i + 1;
        }
        Game { language, length, playfield, wrong_letters: Vec::new() }
    }

    /// Whether some slot of the playfield names `c` as locked or misplaced.
    pub fn playfield_mentions(&self, c: char) -> (found: bool)
        ensures
            found == mentions(self.playfield@, c),
    {
        let n = self.playfield.len();
        let mut i: usize = 0;
        while i < n
            invariant
                i <= n,
                n == self.playfield@.len(),
                forall|j: int|
                    0 <= j < i ==> !(self.playfield@[j] == Slot::Locked(c) || self.playfield@[j]
                        == Slot::Misplaced(c)),
            decreases n - i,
        {
            match self.playfield[i] {
                Slot::Locked(m) => {
                    if m == c {
                        return true;
                    }
                },
                Slot::Misplaced(m) => {
                    if m == c {
                        return true;
                    }
                },
                Slot::Unknown => {},
            }
            i = i + 1;
        }
        false
    }
}

} // verus!
