//! The constraint filter: keeps exactly the candidate words consistent with
//! every piece of feedback recorded in the playfield and the wrong-letter set.

use vstd::prelude::*;

use crate::game::Game;
use crate::game::Slot;
use crate::game::mentions;
use crate::words::lemma_views_push;
use crate::words::lemma_views_take_succ;
use crate::words::letters_contain;
use crate::words::str_contains_char;
use crate::words::views;

verus! {

/// Whether position `i` of `word` raises no objection under the feedback:
/// a locked slot demands its letter, a misplaced slot demands the letter
/// elsewhere in the word and forbids it here, and a letter ruled out globally
/// rejects the word unless some slot's feedback separately confirms it.
pub open spec fn slot_permits(playfield: Seq<Slot>, wrong: Seq<char>, word: Seq<char>, i: int) -> bool {
    let letter = word[i];
    &&& match playfield[i] {
        Slot::Unknown => true,
        Slot::Locked(c) => letter == c,
        Slot::Misplaced(c) => word.contains(c) && letter != c,
    }
    &&& !(wrong.contains(letter) && playfield[i] != Slot::Locked(letter) && !mentions(
        playfield,
        letter,
    ))
}

/// Whether `word` is consistent with all feedback: no position objects.
pub open spec fn word_survives(playfield: Seq<Slot>, wrong: Seq<char>, word: Seq<char>) -> bool {
    forall|i: int| 0 <= i < word.len() ==> slot_permits(playfield, wrong, word, i)
}

/// The words of `words` consistent with all feedback, in their given order.
pub open spec fn survivors(playfield: Seq<Slot>, wrong: Seq<char>, words: Seq<Seq<char>>) -> Seq<
    Seq<char>,
> {
    words.filter(|w: Seq<char>| word_survives(playfield, wrong, w))
}

/// Whether `word` is consistent with all the feedback held in `game`.
pub fn word_consistent(game: &Game, word: &String) -> (consistent: bool)
    requires
        word@.len() == game.playfield@.len(),
    ensures
        consistent == word_survives(game.playfield@, game.wrong_letters@, word@),
{
    let n = word.as_str().unicode_len();
    let mut i: usize = 0;
    while i < n
        invariant
            i <= n,
            n == word@.len(),
            word@.len() == game.playfield@.len(),
            forall|j: int|
                0 <= j < i ==> slot_permits(game.playfield@, game.wrong_letters@, word@, j),
        decreases n - i,
    {
        let letter = word.as_str().get_char(i);
        match game.playfield[i] {
            Slot::Unknown => {},
            Slot::Locked(c) => {
                if letter != c {
                    proof {
                        assert(!slot_permits(game.playfield@, game.wrong_letters@, word@, i as int));
                    }
                    return false;
                }
            },
            Slot::Misplaced(c) => {
                if letter == c || !str_contains_char(word.as_str(), c) {
                    proof {
                        assert(!slot_permits(game.playfield@, game.wrong_letters@, word@, i as int));
                    }
                    return false;
                }
            },
        }
        if letters_contain(&game.wrong_letters, letter) {
            let locked_here = match game.playfield[i] {
                Slot::Locked(c) => c == letter,
                _ => false,
            };
            if !locked_here && !game.playfield_mentions(letter) {
                proof {
                    assert(!slot_permits(game.playfield@, game.wrong_letters@, word@, i as int));
                }
                return false;
            }
        }
        i = i + 1;
    }
    true
}

/// Narrows `possible_words` to the words consistent with all feedback held in
/// `game`: exactly the surviving words, in their given order.
pub fn solve(game: &Game, possible_words: &Vec<String>) -> (out: Vec<String>)
    requires
        forall|k: int|
            0 <= k < possible_words@.len() ==> (#[trigger] possible_words@[k])@.len()
                == game.playfield@.len(),
    ensures
        views(out@) == survivors(game.playfield@, game.wrong_letters@, views(possible_words@)),
{
    let ghost pred = |w: Seq<char>| word_survives(game.playfield@, game.wrong_letters@, w);
    let n = possible_words.len();
    let mut out: Vec<String> = Vec::new();
    let mut i: usize = 0;
    while i < n
        invariant
            i <= n,
            n == possible_words@.len(),
            forall|k: int|
                0 <= k < possible_words@.len() ==> (#[trigger] possible_words@[k])@.len()
                    == game.playfield@.len(),
            pred == (|w: Seq<char>| word_survives(game.playfield@, game.wrong_letters@, w)),
            views(out@) == views(possible_words@.take(i as int)).filter(pred),
        decreases n - i,
    {
        broadcast use Seq::lemma_filter_push;

        let word = &possible_words[i];
        let keep = word_consistent(game, word);
        proof {
            lemma_views_take_succ(possible_words@, i as int);
        }
        if keep {
            let kept = word.clone();
            proof {
                lemma_views_push(out@, kept);
            }
            out.push(kept);
        }
        i = i + 1;
    }
    proof {
        assert(possible_words@.take(n as int) =~= possible_words@);
    }
    out
}

/// A filter keeps a sequence whose every element already satisfies the
/// predicate exactly as it is.
proof fn lemma_filter_keeps_all<A>(s: Seq<A>, p: spec_fn(A) -> bool)
    requires
        forall|i: int| 0 <= i < s.len() ==> p(#[trigger] s[i]),
    ensures
        s.filter(p) == s,
    decreases s.len(),
{
    reveal(Seq::filter);
    if s.len() > 0 {
        assert(forall|i: int| 0 <= i < s.drop_last().len() ==> p(#[trigger] s.drop_last()[i]));
        lemma_filter_keeps_all(s.drop_last(), p);
        assert(s.filter(p) =~= s);
    } else {
        assert(s.filter(p) =~= s);
    }
}

/// Narrowing: the constraint filter never adds a word. Every word among the
/// survivors already stood in the candidate list.
pub proof fn lemma_solve_narrows(playfield: Seq<Slot>, wrong: Seq<char>, words: Seq<Seq<char>>)
    ensures
        forall|w: Seq<char>|
            #[trigger] survivors(playfield, wrong, words).contains(w) ==> words.contains(w),
{
    broadcast use Seq::lemma_filter_contains_rev;
}

/// Idempotence: running the constraint filter on its own output with the same
/// feedback changes nothing. The surviving list is a fixed point.
pub proof fn lemma_solve_idempotent(playfield: Seq<Slot>, wrong: Seq<char>, words: Seq<Seq<char>>)
    ensures
        survivors(playfield, wrong, survivors(playfield, wrong, words)) == survivors(
            playfield,
            wrong,
            words,
        ),
{
    broadcast use vstd::seq_lib::group_filter_ensures;

    let p = |w: Seq<char>| word_survives(playfield, wrong, w);
    lemma_filter_keeps_all(words.filter(p), p);
}

/// Locked-slot soundness: when slot `i` is locked on `c`, every surviving
/// word has `c` at position `i`, and every candidate with a different letter
/// there is excluded.
pub proof fn lemma_locked_slot_sound(
    playfield: Seq<Slot>,
    wrong: Seq<char>,
    words: Seq<Seq<char>>,
    i: int,
    c: char,
)
    requires
        0 <= i < playfield.len(),
        playfield[i] == Slot::Locked(c),
        forall|k: int| 0 <= k < words.len() ==> (#[trigger] words[k]).len() == playfield.len(),
    ensures
        forall|w: Seq<char>|
            #[trigger] survivors(playfield, wrong, words).contains(w) ==> w[i] == c,
        forall|k: int|
            0 <= k < words.len() && (#[trigger] words[k])[i] != c ==> !survivors(
                playfield,
                wrong,
                words,
            ).contains(words[k]),
{
    broadcast use vstd::seq_lib::group_filter_ensures, Seq::lemma_filter_contains_rev;

    let out = survivors(playfield, wrong, words);
    assert forall|w: Seq<char>| #[trigger] out.contains(w) implies w[i] == c by {
        assert(words.contains(w));
        let k = choose|k: int| 0 <= k < words.len() && words[k] == w;
        assert(w.len() == playfield.len());
        let idx = choose|idx: int| 0 <= idx < out.len() && out[idx] == w;
        assert(word_survives(playfield, wrong, out[idx]));
        assert(slot_permits(playfield, wrong, w, i));
    }
}

/// Misplaced-slot soundness: when slot `i` marks `c` as misplaced, every
/// surviving word contains `c` somewhere, but never at position `i`.
pub proof fn lemma_misplaced_slot_sound(
    playfield: Seq<Slot>,
    wrong: Seq<char>,
    words: Seq<Seq<char>>,
    i: int,
    c: char,
)
    requires
        0 <= i < playfield.len(),
        playfield[i] == Slot::Misplaced(c),
        forall|k: int| 0 <= k < words.len() ==> (#[trigger] words[k]).len() == playfield.len(),
    ensures
        forall|w: Seq<char>|
            #[trigger] survivors(playfield, wrong, words).contains(w) ==> w.contains(c) && w[i]
                != c,
{
    broadcast use vstd::seq_lib::group_filter_ensures, Seq::lemma_filter_contains_rev;

    let out = survivors(playfield, wrong, words);
    assert forall|w: Seq<char>| #[trigger] out.contains(w) implies w.contains(c) && w[i] != c by {
        assert(words.contains(w));
        let k = choose|k: int| 0 <= k < words.len() && words[k] == w;
        assert(w.len() == playfield.len());
        let idx = choose|idx: int| 0 <= idx < out.len() && out[idx] == w;
        assert(word_survives(playfield, wrong, out[idx]));
        assert(slot_permits(playfield, wrong, w, i));
    }
}

} // verus!
