//! The heuristic filter chain: three language-aware passes that narrow a
//! candidate list toward strong next guesses. None of them affects dictionary
//! membership for later rounds; they only rank the survivors of the
//! constraint filter.

use vstd::prelude::*;
use vstd::seq_lib::group_filter_ensures;

use crate::game::Game;
use crate::game::GameLanguage;
use crate::game::Slot;
use crate::game::mentions;
use crate::words::all_distinct;
use crate::words::clone_words;
use crate::words::contains_any;
use crate::words::has_distinct_letters;
use crate::words::lemma_views_push;
use crate::words::lemma_views_take_succ;
use crate::words::str_contains_char;
use crate::words::views;
use crate::words::word_contains_any;

verus! {

/// The language's high-frequency letters, most informative first.
pub open spec fn common_letters(language: GameLanguage) -> Seq<char> {
    match language {
        GameLanguage::Swedish => seq!['e', 'a', 'n', 'r', 't', 's', 'i', 'l', 'd'],
        GameLanguage::English => seq!['e', 't', 'a', 'o', 'i', 'n', 's', 'h', 'l'],
    }
}

/// The language's low-information letters, best avoided in a probing guess.
pub open spec fn uncommon_letters(language: GameLanguage) -> Seq<char> {
    match language {
        GameLanguage::Swedish => seq!['q', 'z', 'w', 'x', 'j', 'y'],
        GameLanguage::English => seq!['z', 'q', 'x', 'j', 'v', 'b'],
    }
}

/// The letters of `list` that no playfield slot names yet: the ones a next
/// guess can still learn something from.
pub open spec fn remaining(list: Seq<char>, playfield: Seq<Slot>) -> Seq<char> {
    list.filter(|c: char| !mentions(playfield, c))
}

/// How many of the letters in `letters` occur in the word `w`.
pub open spec fn score(w: Seq<char>, letters: Seq<char>) -> nat {
    letters.filter(|c: char| w.contains(c)).len()
}

/// The largest score any word of `ws` reaches against `letters`; zero when
/// `ws` is empty.
pub open spec fn max_score(ws: Seq<Seq<char>>, letters: Seq<char>) -> nat
    decreases ws.len(),
{
    if ws.len() == 0 {
        0
    } else {
        let rest = max_score(ws.drop_last(), letters);
        if score(ws.last(), letters) > rest {
            score(ws.last(), letters)
        } else {
            rest
        }
    }
}

/// What the common-letter pass keeps: the words sharing the maximum score, in
/// their given order, unless every word scores zero, in which case the whole
/// list is kept unchanged.
pub open spec fn best_guesses(ws: Seq<Seq<char>>, letters: Seq<char>) -> Seq<Seq<char>> {
    if max_score(ws, letters) == 0 {
        ws
    } else {
        ws.filter(|w: Seq<char>| score(w, letters) == max_score(ws, letters))
    }
}

/// The letters of `list` that no playfield slot of `game` names yet.
pub fn remaining_letters(list: &Vec<char>, game: &Game) -> (out: Vec<char>)
    ensures
        out@ == remaining(list@, game.playfield@),
{
    let ghost pred = |c: char| !mentions(game.playfield@, c);
    let n = list.len();
    let mut out: Vec<char> = Vec::new();
    let mut i: usize = 0;
    while i < n
        invariant
            i <= n,
            n == list@.len(),
            pred == (|c: char| !mentions(game.playfield@, c)),
            out@ == list@.take(i as int).filter(pred),
        decreases n - i,
    {
        broadcast use Seq::lemma_filter_push, Seq::lemma_take_succ_push;

        let c = list[i];
        if !game.playfield_mentions(c) {
            out.push(c);
        }
        i = i + 1;
    }
    proof {
        assert(list@.take(n as int) =~= list@);
    }
    out
}

/// The language's high-frequency letters as a list.
pub fn common_letters_for(language: GameLanguage) -> (letters: Vec<char>)
    ensures
        letters@ == common_letters(language),
{
    let mut letters: Vec<char> = Vec::new();
    match language {
        GameLanguage::Swedish => {
            letters.push('e');
            letters.push('a');
            letters.push('n');
            letters.push('r');
            letters.push('t');
            letters.push('s');
            letters.push('i');
            letters.push('l');
            letters.push('d');
        },
        GameLanguage::English => {
            letters.push('e');
            letters.push('t');
            letters.push('a');
            letters.push('o');
            letters.push('i');
            letters.push('n');
            letters.push('s');
            letters.push('h');
            letters.push('l');
        },
    }
    proof {
        assert(letters@ =~= common_letters(language));
    }
    letters
}

/// The language's low-information letters as a list.
pub fn uncommon_letters_for(language: GameLanguage) -> (letters: Vec<char>)
    ensures
        letters@ == uncommon_letters(language),
{
    let mut letters: Vec<char> = Vec::new();
    match language {
        GameLanguage::Swedish => {
            letters.push('q');
            letters.push('z');
            letters.push('w');
            letters.push('x');
            letters.push('j');
            letters.push('y');
        },
        GameLanguage::English => {
            letters.push('z');
            letters.push('q');
            letters.push('x');
            letters.push('j');
            letters.push('v');
            letters.push('b');
        },
    }
    proof {
        assert(letters@ =~= uncommon_letters(language));
    }
    letters
}

/// Keeps the words whose letters are pairwise distinct: a guess without a
/// repeated letter probes more of the alphabet. The kept words come in their
/// given order; the result may be empty.
pub fn words_without_duplicate_letters(possible_words: &Vec<String>) -> (out: Vec<String>)
    ensures
        views(out@) == views(possible_words@).filter(|w: Seq<char>| all_distinct(w)),
{
    let ghost pred = |w: Seq<char>| all_distinct(w);
    let n = possible_words.len();
    let mut out: Vec<String> = Vec::new();
    let mut i: usize = 0;
    while i < n
        invariant
            i <= n,
            n == possible_words@.len(),
            pred == (|w: Seq<char>| all_distinct(w)),
            views(out@) == views(possible_words@.take(i as int)).filter(pred),
        decreases n - i,
    {
        broadcast use Seq::lemma_filter_push;

        let word = &possible_words[i];
        let keep = has_distinct_letters(word.as_str());
        proof {
            lemma_views_take_succ(possible_words@, i as int);
        }
        if keep {
            let kept = word.clone();
            proof {
                lemma_views_push(out@, kept);
            }
            out.push(kept);
        }
        i = i + 1;
    }
    proof {
        assert(possible_words@.take(n as int) =~= possible_words@);
    }
    out
}

/// Keeps the words that avoid every low-information letter of the language
/// still untested by the playfield. The kept words come in their given order;
/// the result may be empty.
pub fn words_without_uncommon_letters(possible_words: &Vec<String>, game: &Game) -> (out: Vec<
    String,
>)
    ensures
        views(out@) == views(possible_words@).filter(
            |w: Seq<char>|
                !contains_any(w, remaining(uncommon_letters(game.language), game.playfield@)),
        ),
{
    let table = uncommon_letters_for(game.language);
    let letters = remaining_letters(&table, game);
    let ghost pred = |w: Seq<char>| !contains_any(w, letters@);
    let n = possible_words.len();
    let mut out: Vec<String> = Vec::new();
    let mut i: usize = 0;
    while i < n
        invariant
            i <= n,
            n == possible_words@.len(),
            letters@ == remaining(uncommon_letters(game.language), game.playfield@),
            pred == (|w: Seq<char>| !contains_any(w, letters@)),
            views(out@) == views(possible_words@.take(i as int)).filter(pred),
        decreases n - i,
    {
        broadcast use Seq::lemma_filter_push;

        let word = &possible_words[i];
        let keep = !word_contains_any(word.as_str(), &letters);
        proof {
            lemma_views_take_succ(possible_words@, i as int);
        }
        if keep {
            let kept = word.clone();
            proof {
                lemma_views_push(out@, kept);
            }
            out.push(kept);
        }
        i = i + 1;
    }
    proof {
        assert(possible_words@.take(n as int) =~= possible_words@);
    }
    out
}

/// How many of the letters in `letters` occur in `word`.
fn common_letter_hits(word: &str, letters: &Vec<char>) -> (hits: usize)
    ensures
        hits == score(word@, letters@),
{
    let ghost pred = |c: char| word@.contains(c);
    let n = letters.len();
    let mut hits: usize = 0;
    let mut i: usize = 0;
    while i < n
        invariant
            i <= n,
            n == letters@.len(),
            pred == (|c: char| word@.contains(c)),
            hits == letters@.take(i as int).filter(pred).len(),
            hits <= i,
        decreases n - i,
    {
        broadcast use Seq::lemma_filter_push, Seq::lemma_take_succ_push, Seq::lemma_filter_len;

        if str_contains_char(word, letters[i]) {
            hits = hits + 1;
        }
        i = i + 1;
    }
    proof {
        assert(letters@.take(n as int) =~= letters@);
    }
    hits
}

/// Appending a word either raises the maximum score to the word's own score
/// or leaves it where it was.
proof fn lemma_max_score_push(ws: Seq<Seq<char>>, w: Seq<char>, letters: Seq<char>)
    ensures
        max_score(ws.push(w), letters) == if score(w, letters) > max_score(ws, letters) {
            score(w, letters)
        } else {
            max_score(ws, letters)
        },
{
    assert(ws.push(w).drop_last() =~= ws);
    assert(ws.push(w).last() == w);
}

/// Keeps the words that contain the most high-frequency letters of the
/// language still untested by the playfield; ties all stay, in their given
/// order. When every word scores zero there is nothing left to discriminate
/// on, and the whole list is returned unchanged.
pub fn words_with_common_letters(possible_words: &Vec<String>, game: &Game) -> (out: Vec<String>)
    ensures
        views(out@) == best_guesses(
            views(possible_words@),
            remaining(common_letters(game.language), game.playfield@),
        ),
{
    let table = common_letters_for(game.language);
    let letters = remaining_letters(&table, game);
    let ghost ws = views(possible_words@);
    let n = possible_words.len();

    let mut best: usize = 0;
    let mut i: usize = 0;
    while i < n
        invariant
            i <= n,
            n == possible_words@.len(),
            ws == views(possible_words@),
            best == max_score(views(possible_words@.take(i as int)), letters@),
        decreases n - i,
    {
        let hits = common_letter_hits(possible_words[i].as_str(), &letters);
        proof {
            lemma_views_take_succ(possible_words@, i as int);
            lemma_max_score_push(
                views(possible_words@.take(i as int)),
                possible_words@[i as int]@,
                letters@,
            );
        }
        if hits > best {
            best = hits;
        }
        i = i + 1;
    }
    proof {
        assert(possible_words@.take(n as int) =~= possible_words@);
        assert(best == max_score(ws, letters@));
    }

    if best == 0 {
        let out = clone_words(possible_words);
        proof {
            assert(best_guesses(ws, letters@) == ws);
        }
        out
    } else {
        let ghost pred = |w: Seq<char>| score(w, letters@) == max_score(ws, letters@);
        let mut out: Vec<String> = Vec::new();
        let mut i: usize = 0;
        while i < n
            invariant
                i <= n,
                n == possible_words@.len(),
                ws == views(possible_words@),
                best == max_score(ws, letters@),
                best > 0,
                pred == (|w: Seq<char>| score(w, letters@) == max_score(ws, letters@)),
                views(out@) == views(possible_words@.take(i as int)).filter(pred),
            decreases n - i,
        {
            broadcast use Seq::lemma_filter_push;

            let hits = common_letter_hits(possible_words[i].as_str(), &letters);
            proof {
                lemma_views_take_succ(possible_words@, i as int);
            }
            if hits == best {
                let kept = possible_words[i].clone();
                proof {
                    lemma_views_push(out@, kept);
                }
                out.push(kept);
            }
            i = i + 1;
        }
        proof {
            assert(possible_words@.take(n as int) =~= possible_words@);
            assert(pred =~= (|w: Seq<char>|
                score(w, remaining(common_letters(game.language), game.playfield@)) == max_score(
                    views(possible_words@),
                    remaining(common_letters(game.language), game.playfield@),
                )));
        }
        out
    }
}

/// Common-letter fallback: when no high-frequency letter of the language
/// still untested by the playfield occurs in any candidate — every word
/// scores zero — the common-letter pass returns its input unchanged rather
/// than an empty list.
pub proof fn lemma_common_letter_fallback(
    language: GameLanguage,
    playfield: Seq<Slot>,
    ws: Seq<Seq<char>>,
)
    requires
        forall|k: int|
            0 <= k < ws.len() ==> score(
                #[trigger] ws[k],
                remaining(common_letters(language), playfield),
            ) == 0,
    ensures
        best_guesses(ws, remaining(common_letters(language), playfield)) == ws,
{
    lemma_max_score_all_zero(ws, remaining(common_letters(language), playfield));
}

/// When every high-frequency letter of the language is already named by some
/// playfield slot, nothing remains to test, so the common-letter pass keeps
/// every candidate list unchanged.
pub proof fn lemma_all_common_tested_fallback(
    language: GameLanguage,
    playfield: Seq<Slot>,
    ws: Seq<Seq<char>>,
)
    requires
        forall|c: char| common_letters(language).contains(c) ==> mentions(playfield, c),
    ensures
        best_guesses(ws, remaining(common_letters(language), playfield)) == ws,
{
    broadcast use group_filter_ensures;

    let untested = remaining(common_letters(language), playfield);
    common_letters(language).lemma_all_neg_filter_empty(|c: char| !mentions(playfield, c));
    assert(untested.len() == 0);
    lemma_max_score_no_letters(ws, untested);
}

/// Some word of a non-empty list reaches the maximum score.
proof fn lemma_max_score_attained(ws: Seq<Seq<char>>, letters: Seq<char>)
    requires
        ws.len() > 0,
    ensures
        exists|k: int| 0 <= k < ws.len() && score(#[trigger] ws[k], letters) == max_score(ws, letters),
    decreases ws.len(),
{
    if ws.len() == 1 {
        reveal_with_fuel(max_score, 2);
        assert(score(ws[0], letters) == max_score(ws, letters));
    } else {
        lemma_max_score_attained(ws.drop_last(), letters);
        let k = choose|k: int|
            0 <= k < ws.drop_last().len() && score(#[trigger] ws.drop_last()[k], letters)
                == max_score(ws.drop_last(), letters);
        if score(ws.last(), letters) > max_score(ws.drop_last(), letters) {
            assert(score(ws[ws.len() - 1], letters) == max_score(ws, letters));
        } else {
            assert(score(ws[k], letters) == max_score(ws, letters));
        }
    }
}

/// The common-letter pass never turns a non-empty candidate list into an
/// empty one: either every word scores zero and the whole list is kept, or
/// some word attains the maximum score and is kept.
pub proof fn lemma_common_pass_keeps_something(ws: Seq<Seq<char>>, letters: Seq<char>)
    requires
        ws.len() > 0,
    ensures
        best_guesses(ws, letters).len() > 0,
{
    broadcast use group_filter_ensures;

    if max_score(ws, letters) != 0 {
        let pred = |w: Seq<char>| score(w, letters) == max_score(ws, letters);
        lemma_max_score_attained(ws, letters);
        let k = choose|k: int|
            0 <= k < ws.len() && score(#[trigger] ws[k], letters) == max_score(ws, letters);
        assert(ws.filter(pred).contains(ws[k]));
    }
}

/// When every word of the list scores zero, the maximum score is zero.
proof fn lemma_max_score_all_zero(ws: Seq<Seq<char>>, letters: Seq<char>)
    requires
        forall|k: int| 0 <= k < ws.len() ==> score(#[trigger] ws[k], letters) == 0,
    ensures
        max_score(ws, letters) == 0,
    decreases ws.len(),
{
    if ws.len() > 0 {
        assert(forall|k: int|
            0 <= k < ws.drop_last().len() ==> score(#[trigger] ws.drop_last()[k], letters) == 0);
        lemma_max_score_all_zero(ws.drop_last(), letters);
        assert(score(ws.last(), letters) == 0);
    }
}

/// Against an empty letter list every word scores zero, so the maximum
/// score is zero as well.
proof fn lemma_max_score_no_letters(ws: Seq<Seq<char>>, letters: Seq<char>)
    requires
        letters.len() == 0,
    ensures
        max_score(ws, letters) == 0,
    decreases ws.len(),
{
    broadcast use Seq::lemma_filter_len;

    if ws.len() > 0 {
        lemma_max_score_no_letters(ws.drop_last(), letters);
        assert(score(ws.last(), letters) <= letters.len());
    }
}

} // verus!
