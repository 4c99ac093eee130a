//! Word-level helpers shared by the constraint filter and the heuristic
//! filters: the view of a word list as a sequence of character sequences, and
//! verified scans over a word's characters.

use vstd::prelude::*;

verus! {

/// The mathematical contents of a word list: each word as its character
/// sequence, in the list's order.
pub open spec fn views(words: Seq<String>) -> Seq<Seq<char>> {
    words.map_values(|w: String| w@)
}

/// Appending a word to a list appends its character sequence to the view.
pub proof fn lemma_views_push(words: Seq<String>, word: String)
    ensures
        views(words.push(word)) == views(words).push(word@),
{
    broadcast use Seq::lemma_push_map_commute;

    assert(views(words.push(word)) =~= views(words).push(word@));
}

/// Taking one more word of a list appends that word's characters to the view
/// of the shorter prefix.
pub proof fn lemma_views_take_succ(words: Seq<String>, i: int)
    requires
        0 <= i < words.len(),
    ensures
        views(words.take(i + 1)) == views(words.take(i)).push(words[i]@),
{
    broadcast use Seq::lemma_take_succ_push;

    lemma_views_push(words.take(i), words[i]);
    assert(words.take(i + 1) =~= words.take(i).push(words[i]));
}

/// Whether the word `w` has no repeated letter.
pub open spec fn all_distinct(w: Seq<char>) -> bool {
    forall|i: int, j: int| 0 <= i < j < w.len() ==> w[i] != w[j]
}

/// Whether `w` contains at least one of the letters in `letters`.
pub open spec fn contains_any(w: Seq<char>, letters: Seq<char>) -> bool {
    exists|i: int| 0 <= i < letters.len() && w.contains(letters[i])
}

/// Whether the string `s` contains the character `c`.
pub fn str_contains_char(s: &str, c: char) -> (found: bool)
    ensures
        found == s@.contains(c),
{
    let n = s.unicode_len();
    let mut i: usize = 0;
    while i < n
        invariant
            i <= n,
            n == s@.len(),
            forall|j: int| 0 <= j < i ==> s@[j] != c,
        decreases n - i,
    {
        if s.get_char(i) == c {
            return true;
        }
        i = i + 1;
    }
    false
}

/// Whether the character list `letters` contains `c`.
pub fn letters_contain(letters: &Vec<char>, c: char) -> (found: bool)
    ensures
        found == letters@.contains(c),
{
    let n = letters.len();
    let mut i: usize = 0;
    while i < n
        invariant
            i <= n,
            n == letters@.len(),
            forall|j: int| 0 <= j < i ==> letters@[j] != c,
        decreases n - i,
    {
        if letters[i] == c {
            return true;
        }
        i = i + 1;
    }
    false
}

/// Whether the word has no repeated letter.
pub fn has_distinct_letters(word: &str) -> (distinct: bool)
    ensures
        distinct == all_distinct(word@),
{
    let n = word.unicode_len();
    let mut i: usize = 0;
    while i < n
        invariant
            i <= n,
            n == word@.len(),
            forall|a: int, b: int| 0 <= a < b < n && a < i ==> word@[a] != word@[b],
        decreases n - i,
    {
        let c = word.get_char(i);
        let mut j: usize = i + 1;
        while j < n
            invariant
                i < j <= n,
                n == word@.len(),
                c == word@[i as int],
                forall|b: int| i < b < j ==> word@[i as int] != word@[b],
            decreases n - j,
        {
            if word.get_char(j) == c {
                return false;
            }
            j = j + 1;
        }
        i = i + 1;
    }
    true
}

/// Whether the word contains at least one of the letters in `letters`.
pub fn word_contains_any(word: &str, letters: &Vec<char>) -> (found: bool)
    ensures
        found == contains_any(word@, letters@),
{
    let n = letters.len();
    let mut i: usize = 0;
    while i < n
        invariant
            i <= n,
            n == letters@.len(),
            forall|j: int| 0 <= j < i ==> !word@.contains(letters@[j]),
        decreases n - i,
    {
        if str_contains_char(word, letters[i]) {
            return true;
        }
        i = i + 1;
    }
    false
}

/// A fresh list holding the same words in the same order.
pub fn clone_words(words: &Vec<String>) -> (out: Vec<String>)
    ensures
        views(out@) == views(words@),
{
    let n = words.len();
    let mut out: Vec<String> = Vec::new();
    let mut i: usize = 0;
    while i < n
        invariant
            i <= n,
            n == words@.len(),
            views(out@) == views(words@.take(i as int)),
        decreases n - i,
    {
        let word = words[i].clone();
        proof {
            lemma_views_take_succ(words@, i as int);
            lemma_views_push(out@, word);
        }
        out.push(word);
        i = i + 1;
    }
    proof {
        assert(words@.take(n as int) =~= words@);
    }
    out
}

} // verus!
