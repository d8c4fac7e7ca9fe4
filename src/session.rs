use vstd::prelude::*;
use crate::game::{candidates, registered, word_choices, Game};
use crate::text::{lines_of, lower_of};

verus! {

/// A key pressed by the player, as far as the game tells keys apart.
#[derive(PartialEq, Eq, Structural, Clone, Copy, Debug)]
pub enum Input {
    /// Ctrl-C.
    Interrupt,
    /// A character key.
    Char(char),
    /// Any other key.
    Other,
}

/// What the screen should do after a key.
#[derive(PartialEq, Eq, Structural, Clone, Copy, Debug)]
pub enum Effect {
    /// Clear the screen and draw the main menu.
    ShowMenu,
    /// Clear the screen and draw the current game.
    ShowGame,
    /// Show the cursor, clear the screen and end the program.
    Quit,
    /// Leave the screen as it is.
    Nothing,
}

/// Where the player is: in the main menu or in a game.
pub enum State {
    MainMenu,
    InGame(Game),
}

/// The state of the whole program: the candidate words and the current screen.
pub struct Session {
    choices: Vec<String>,
    state: State,
}

/// Half the width of the main menu box.
pub const MENU_HALF_WIDTH: u16 = 19;

/// Half the height of the main menu box.
pub const MENU_HALF_HEIGHT: u16 = 4;

/// Where the main menu box starts on a terminal of `size` (columns, rows), so
/// that it stands in the middle; `None` where the terminal is too small.
pub fn menu_origin(size: (u16, u16)) -> (r: Option<(u16, u16)>)
    ensures
        size.0 / 2 >= 19 && size.1 / 2 >= 4 ==> r == Some(
            ((size.0 / 2 - 19) as u16, (size.1 / 2 - 4) as u16),
        ),
        !(size.0 / 2 >= 19 && size.1 / 2 >= 4) ==> r is None,
{
    if size.0 / 2 < MENU_HALF_WIDTH || size.1 / 2 < MENU_HALF_HEIGHT {
        None
    } else {
        Some((size.0 / 2 - MENU_HALF_WIDTH, size.1 / 2 - MENU_HALF_HEIGHT))
    }
}

impl Session {
    /// The candidate words.
    pub closed spec fn words(&self) -> Seq<Seq<char>> {
        self.choices@.map_values(|s: String| s@)
    }

    /// The current screen.
    pub closed spec fn current(&self) -> State {
        self.state
    }

    pub open spec fn wf(&self) -> bool {
        &&& self.words().len() > 0
        &&& self.current() matches State::InGame(g) ==> g.wf()
    }

    /// A session in the main menu over the non-empty lines of `list`; `None`
    /// where `list` has no non-empty line, so that no word can be chosen.
    pub fn new(list: &str) -> (r: Option<Session>)
        ensures
            candidates(lines_of(list@)).len() == 0 ==> r is None,
            candidates(lines_of(list@)).len() > 0 ==> (r matches Some(s) && s.wf()
                && s.current() is MainMenu && s.words() == candidates(lines_of(list@))),
    {
        let choices = word_choices(list);
        if choices.len() == 0 {
            None
        } else {
            Some(Session { choices, state: State::MainMenu })
        }
    }

    /// The current screen.
    pub fn state(&self) -> (r: &State)
        ensures
            *r == self.current(),
    {
        &self.state
    }

    /// The game in progress, if any.
    pub fn game(&self) -> (r: Option<&Game>)
        ensures
            self.current() is MainMenu ==> r is None,
            self.current() matches State::InGame(g) ==> r == Some(&g),
    {
        match &self.state {
            State::MainMenu => None,
            State::InGame(g) => Some(g),
        }
    }

    /// Acts on one key. In the main menu `1` starts a game on a word picked at
    /// random, `2` and Ctrl-C quit; in a game Ctrl-C goes back to the menu and
    /// a character key is a guess. Every other key is ignored.
    pub fn handle(&mut self, input: Input) -> (r: Effect)
        requires
            old(self).wf(),
        ensures
            final(self).wf(),
            final(self).words() == old(self).words(),
            old(self).current() is MainMenu && input == Input::Char('1') ==> (r == Effect::ShowGame
                && (final(self).current() matches State::InGame(g) && g.guessed()
                == Seq::<char>::empty() && exists|k: int|
                0 <= k < old(self).words().len() && g.secret() == lower_of(old(self).words()[k]))),
            old(self).current() is MainMenu && (input == Input::Char('2') || input
                == Input::Interrupt) ==> r == Effect::Quit && final(self).current() is MainMenu,
            old(self).current() is MainMenu && input != Input::Char('1') && input != Input::Char('2') && input != Input::Interrupt ==> r == Effect::Nothing && final(self).current() is MainMenu,
            old(self).current() is InGame && input == Input::Interrupt ==> r == Effect::ShowMenu
                && final(self).current() is MainMenu,
            old(self).current() is InGame && input is Char ==> ({
                let before = old(self).current()->InGame_0;
                let guesses = registered(before.guessed(), input->Char_0);
                &&& (final(self).current() matches State::InGame(g) && g.secret() == before.secret()
                    && g.guessed() == guesses)
                &&& r == if guesses != before.guessed() {
                    Effect::ShowGame
                } else {
                    Effect::Nothing
                }
            }),
            old(self).current() is InGame && input is Other ==> r == Effect::Nothing && final(self).current() == old(self).current(),
    {
        match input {
            Input::Interrupt => {
                match self.state {
                    State::MainMenu => Effect::Quit,
                    State::InGame(_) => {
                        self.state = State::MainMenu;
                        Effect::ShowMenu
                    },
                }
            },
            Input::Char(c) => {
                match &mut self.state {
                    State::MainMenu => {
                        if c == '1' {
                            let g = Game::new(&self.choices);
                            proof {
                                let k = choose|k: int|
                                    0 <= k < self.choices.len() && g.secret() == lower_of(
                                        self.choices@[k]@,
                                    );
                                assert(self.words()[k] == self.choices@[k]@);
                            }
                            self.state = State::InGame(g);
                            Effect::ShowGame
                        } else if c == '2' {
                            Effect::Quit
                        } else {
                            Effect::Nothing
                        }
                    },
                    State::InGame(g) => {
                        if g.register_guess(c) {
                            Effect::ShowGame
                        } else {
                            Effect::Nothing
                        }
                    },
                }
            },
            Input::Other => Effect::Nothing,
        }
    }
}

} // verus!
