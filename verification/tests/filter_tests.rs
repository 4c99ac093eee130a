use wordlehelper::filter::words_with_common_letters;
use wordlehelper::filter::words_without_duplicate_letters;
use wordlehelper::filter::words_without_uncommon_letters;
use wordlehelper::Game;
use wordlehelper::GameLanguage;
use wordlehelper::GameLength;
use wordlehelper::Slot;

fn owned(words: &[&str]) -> Vec<String> {
    words.iter().map(|w| w.to_string()).collect()
}

#[test]
fn test_words_without_duplicate_letters() {
    let words = vec!["spade".to_string(), "ribba".to_string()];
    let returned = words_without_duplicate_letters(&words);
    assert_eq!(returned, ["spade"]);
}

#[test]
fn test_words_with_common_letters() {
    let game: &Game = &Game {
        language: GameLanguage::Swedish,
        length: GameLength::Five,
        playfield: vec![
            Slot::Misplaced('a'),
            Slot::Unknown,
            Slot::Misplaced('k'),
            Slot::Unknown,
            Slot::Unknown,
        ],
        wrong_letters: vec!['g'],
    };
    let words = &owned(&["aktie"]);
    let returned = words_with_common_letters(words, game);
    assert_eq!(returned, ["aktie"])
}

#[test]
fn duplicate_filter_keeps_order_and_may_empty() {
    let words = owned(&["ankor", "ribba", "bokeh", "lull"]);
    let returned = words_without_duplicate_letters(&words);
    assert_eq!(returned, ["ankor", "bokeh"]);

    let all_repeats = owned(&["ribba", "lull"]);
    assert_eq!(words_without_duplicate_letters(&all_repeats), Vec::<String>::new());
}

#[test]
fn uncommon_filter_drops_low_value_letters() {
    let game = Game::new(GameLanguage::Swedish, GameLength::Five);
    // Swedish uncommon letters: q z w x j y
    let words = owned(&["pizza", "hobby", "stark"]);
    let returned = words_without_uncommon_letters(&words, &game);
    assert_eq!(returned, ["stark"]);
}

#[test]
fn uncommon_letter_confirmed_by_playfield_is_no_longer_excluded() {
    let mut game = Game::new(GameLanguage::Swedish, GameLength::Five);
    // 'y' named by a slot: it is confirmed relevant, so words with 'y' stay.
    game.playfield = vec![
        Slot::Misplaced('y'),
        Slot::Unknown,
        Slot::Unknown,
        Slot::Unknown,
        Slot::Unknown,
    ];
    let words = owned(&["hobby", "pizza"]);
    let returned = words_without_uncommon_letters(&words, &game);
    assert_eq!(returned, ["hobby"]);
}

#[test]
fn common_filter_keeps_all_maximum_scorers() {
    let game = Game::new(GameLanguage::Swedish, GameLength::Five);
    // against e a n r t s i l d: anser and tiled each hit five, rosta four,
    // guppy none.
    let words = owned(&["anser", "rosta", "tiled", "guppy"]);
    let returned = words_with_common_letters(&words, &game);
    assert_eq!(returned, ["anser", "tiled"]);
}

#[test]
fn common_filter_falls_back_when_every_word_scores_zero() {
    let game = Game::new(GameLanguage::Swedish, GameLength::Five);
    // none of these contain a Swedish high-frequency letter
    let words = owned(&["bocko", "gummy"]);
    let returned = words_with_common_letters(&words, &game);
    assert_eq!(returned, ["bocko", "gummy"]);
}

#[test]
fn common_filter_ignores_letters_already_locked() {
    // with 'e' locked, a word whose only common letters are 'e' scores zero
    let game = Game {
        language: GameLanguage::English,
        length: GameLength::Five,
        playfield: vec![
            Slot::Locked('e'),
            Slot::Unknown,
            Slot::Unknown,
            Slot::Unknown,
            Slot::Unknown,
        ],
        wrong_letters: vec![],
    };
    // English common letters: e t a o i n s h l; with 'e' tested, "emcee"
    // scores zero but "eaten" still hits t, a and n.
    let words = owned(&["emcee", "eaten"]);
    let returned = words_with_common_letters(&words, &game);
    assert_eq!(returned, ["eaten"]);
}

#[test]
fn filters_accept_empty_input() {
    let game = Game::new(GameLanguage::English, GameLength::Five);
    let none: Vec<String> = vec![];
    assert_eq!(words_without_duplicate_letters(&none), Vec::<String>::new());
    assert_eq!(words_without_uncommon_letters(&none, &game), Vec::<String>::new());
    assert_eq!(words_with_common_letters(&none, &game), Vec::<String>::new());
}
