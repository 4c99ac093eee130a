use wordlehelper::solver::solve;
use wordlehelper::Game;
use wordlehelper::GameLanguage;
use wordlehelper::GameLength;
use wordlehelper::Slot;

fn owned(words: &[&str]) -> Vec<String> {
    words.iter().map(|w| w.to_string()).collect()
}

#[test]
fn fresh_session_has_empty_feedback() {
    let game = Game::new(GameLanguage::Swedish, GameLength::Six);
    assert_eq!(game.playfield, vec![Slot::Unknown; 6]);
    assert_eq!(game.wrong_letters, Vec::<char>::new());
    assert_eq!(game.length.slots(), 6);
    assert_eq!(GameLength::Five.slots(), 5);
}

#[test]
fn all_unknown_playfield_keeps_everything() {
    let game = Game::new(GameLanguage::English, GameLength::Five);
    let words = owned(&["apple", "mango", "amber"]);
    let returned = solve(&game, &words);
    assert_eq!(returned, ["apple", "mango", "amber"]);
}

#[test]
fn locked_slot_drops_words_with_another_letter_there() {
    let mut game = Game::new(GameLanguage::English, GameLength::Five);
    game.playfield = vec![
        Slot::Locked('a'),
        Slot::Unknown,
        Slot::Unknown,
        Slot::Unknown,
        Slot::Unknown,
    ];
    let words = owned(&["apple", "mango", "amber"]);
    let returned = solve(&game, &words);
    assert_eq!(returned, ["apple", "amber"]);
}

#[test]
fn misplaced_slot_needs_the_letter_elsewhere() {
    let mut game = Game::new(GameLanguage::English, GameLength::Five);
    game.playfield = vec![
        Slot::Unknown,
        Slot::Misplaced('m'),
        Slot::Unknown,
        Slot::Unknown,
        Slot::Unknown,
    ];
    // apple has no m; amber has m exactly in the forbidden slot; mango has m
    // elsewhere.
    let words = owned(&["apple", "mango", "amber"]);
    let returned = solve(&game, &words);
    assert_eq!(returned, ["mango"]);
}

#[test]
fn wrong_letter_rejects_unless_slot_feedback_confirms_it() {
    let mut game = Game::new(GameLanguage::English, GameLength::Five);
    game.wrong_letters = vec!['m'];
    let words = owned(&["apple", "mango", "amber"]);
    assert_eq!(solve(&game, &words), ["apple"]);

    // the same wrong letter is tolerated once a slot names it
    game.playfield = vec![
        Slot::Unknown,
        Slot::Misplaced('m'),
        Slot::Unknown,
        Slot::Unknown,
        Slot::Unknown,
    ];
    assert_eq!(solve(&game, &words), ["mango"]);
}

#[test]
fn solving_twice_with_same_feedback_is_a_fixed_point() {
    let mut game = Game::new(GameLanguage::English, GameLength::Five);
    game.playfield = vec![
        Slot::Locked('a'),
        Slot::Unknown,
        Slot::Unknown,
        Slot::Unknown,
        Slot::Unknown,
    ];
    game.wrong_letters = vec!['o'];
    let words = owned(&["apple", "mango", "amber", "aorta"]);
    let once = solve(&game, &words);
    let twice = solve(&game, &once);
    assert_eq!(once, twice);
}

#[test]
fn no_candidate_may_survive() {
    let mut game = Game::new(GameLanguage::English, GameLength::Five);
    game.playfield = vec![
        Slot::Locked('z'),
        Slot::Unknown,
        Slot::Unknown,
        Slot::Unknown,
        Slot::Unknown,
    ];
    let words = owned(&["apple", "mango"]);
    assert_eq!(solve(&game, &words), Vec::<String>::new());
}

#[test]
fn wrong_letters_are_replaced_not_merged() {
    // the session keeps only the latest wrong-letter entry: a letter marked
    // wrong in one round and not re-entered in the next is forgotten
    let mut game = Game::new(GameLanguage::English, GameLength::Five);
    let words = owned(&["apple", "mango", "amber"]);

    game.wrong_letters = vec!['m'];
    assert_eq!(solve(&game, &words), ["apple"]);

    game.wrong_letters = vec!['p'];
    assert_eq!(solve(&game, &words), ["mango", "amber"]);
}

#[test]
fn six_letter_playfield_is_supported() {
    let mut game = Game::new(GameLanguage::Swedish, GameLength::Six);
    game.playfield = vec![
        Slot::Locked('s'),
        Slot::Unknown,
        Slot::Unknown,
        Slot::Unknown,
        Slot::Unknown,
        Slot::Unknown,
    ];
    let words = owned(&["stolar", "tallar"]);
    assert_eq!(solve(&game, &words), ["stolar"]);
}

#[test]
fn empty_candidate_list_stays_empty() {
    let game = Game::new(GameLanguage::English, GameLength::Five);
    assert_eq!(solve(&game, &vec![]), Vec::<String>::new());
}
