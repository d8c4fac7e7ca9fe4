use hangman::session::{menu_origin, Effect, Input, Session, State};

#[test]
fn menu_then_game_then_menu() {
    let mut s = Session::new("cat\n").unwrap();
    assert!(matches!(s.state(), State::MainMenu));
    assert_eq!(s.handle(Input::Char('1')), Effect::ShowGame);
    let g = s.game().unwrap();
    assert_eq!(g.word(), "cat");
    assert!(g.guesses().is_empty());
    assert_eq!(s.handle(Input::Char('a')), Effect::ShowGame);
    assert_eq!(s.game().unwrap().guesses(), &vec!['a']);
    assert_eq!(s.handle(Input::Interrupt), Effect::ShowMenu);
    assert!(matches!(s.state(), State::MainMenu));
    assert!(s.game().is_none());
    assert_eq!(s.handle(Input::Char('1')), Effect::ShowGame);
    assert!(s.game().unwrap().guesses().is_empty());
}

#[test]
fn quitting_from_the_menu() {
    let mut s = Session::new("cat").unwrap();
    assert_eq!(s.handle(Input::Char('2')), Effect::Quit);
    assert_eq!(s.handle(Input::Interrupt), Effect::Quit);
}

#[test]
fn other_keys_are_ignored() {
    let mut s = Session::new("cat").unwrap();
    assert_eq!(s.handle(Input::Char('x')), Effect::Nothing);
    assert_eq!(s.handle(Input::Other), Effect::Nothing);
    assert!(matches!(s.state(), State::MainMenu));
    s.handle(Input::Char('1'));
    assert_eq!(s.handle(Input::Char('c')), Effect::ShowGame);
    assert_eq!(s.handle(Input::Char('c')), Effect::Nothing);
    assert_eq!(s.handle(Input::Char('2')), Effect::Nothing);
    assert_eq!(s.handle(Input::Other), Effect::Nothing);
    assert_eq!(s.game().unwrap().guesses(), &vec!['c']);
}

#[test]
fn word_list_without_words_is_refused() {
    assert!(Session::new("").is_none());
    assert!(Session::new("\n\n").is_none());
}

#[test]
fn menu_is_centred() {
    assert_eq!(menu_origin((80, 24)), Some((21, 8)));
    assert_eq!(menu_origin((38, 8)), Some((0, 0)));
    assert_eq!(menu_origin((37, 24)), None);
    assert_eq!(menu_origin((80, 7)), None);
}
