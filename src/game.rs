use vstd::prelude::*;
use crate::layout::framed;
use crate::layout::boxed;
use crate::text::{
    alphabetic, char_lower_of, chars_of, is_alphabetic, lines_of, lower_char, lower_of, lowercase,
    string_of, views,
};

verus! {

/// Whether some character of `s` has the same lower-case form as `c`.
pub open spec fn matches_any(s: Seq<char>, c: char) -> bool {
    exists|k: int| 0 <= k < s.len() && char_lower_of(#[trigger] s[k]) == char_lower_of(c)
}

/// Whether a character of the word is shown: a character that is not a letter
/// always is, a letter once a key of the same lower-case form has been guessed.
pub open spec fn revealed(c: char, guesses: Seq<char>) -> bool {
    !alphabetic(c) || matches_any(guesses, c)
}

/// Whether every character of the word is shown.
pub open spec fn won(word: Seq<char>, guesses: Seq<char>) -> bool {
    forall|i: int| 0 <= i < word.len() ==> revealed(#[trigger] word[i], guesses)
}

/// The guesses after the player presses `c`: an alphabetic key whose
/// lower-case form matches no guess yet is added; anything else changes
/// nothing.
pub open spec fn registered(guesses: Seq<char>, c: char) -> Seq<char> {
    if alphabetic(c) && !matches_any(guesses, c) {
        guesses.push(c)
    } else {
        guesses
    }
}

/// The guesses of a fresh game after the keys `keys` are pressed in turn.
pub open spec fn guesses_after(keys: Seq<char>) -> Seq<char>
    decreases keys.len(),
{
    if keys.len() == 0 {
        Seq::empty()
    } else {
        registered(guesses_after(keys.drop_last()), keys.last())
    }
}

/// Guesses are letters, no two of them with the same lower-case form.
pub open spec fn guesses_valid(guesses: Seq<char>) -> bool {
    &&& forall|i: int| 0 <= i < guesses.len() ==> alphabetic(#[trigger] guesses[i])
    &&& forall|i: int, j: int|
        0 <= i < j < guesses.len() ==> char_lower_of(#[trigger] guesses[i]) != char_lower_of(
            #[trigger] guesses[j],
        )
}

/// How a character of the word is displayed.
pub open spec fn shown(c: char, guesses: Seq<char>) -> char {
    if revealed(c, guesses) {
        c
    } else {
        '_'
    }
}

/// The characters of `s` with one space between each two of them.
pub open spec fn spaced(s: Seq<char>) -> Seq<char>
    decreases s.len(),
{
    if s.len() <= 1 {
        s
    } else {
        spaced(s.drop_last()).push(' ').push(s.last())
    }
}

/// The word as displayed: hidden characters as underscores, spaced out.
pub open spec fn masked(word: Seq<char>, guesses: Seq<char>) -> Seq<char> {
    spaced(word.map_values(|c: char| shown(c, guesses)))
}

/// The guesses that match no character of the word, in the order guessed.
pub open spec fn incorrect(word: Seq<char>, guesses: Seq<char>) -> Seq<char>
    decreases guesses.len(),
{
    if guesses.len() == 0 {
        Seq::empty()
    } else {
        let prev = incorrect(word, guesses.drop_last());
        if matches_any(word, guesses.last()) {
            prev
        } else {
            prev.push(guesses.last())
        }
    }
}

/// The lines of the game screen.
pub open spec fn screen_lines(word: Seq<char>, guesses: Seq<char>) -> Seq<Seq<char>> {
    if won(word, guesses) {
        seq![
            "     YOU WIN!     "@,
            Seq::empty(),
            masked(word, guesses),
            Seq::empty(),
            "Incorrect letters:"@,
            incorrect(word, guesses),
            Seq::empty(),
            Seq::empty(),
            "Ctrl-C to go back to main menu"@,
        ]
    } else {
        seq![
            "Guess the word:"@,
            Seq::empty(),
            masked(word, guesses),
            Seq::empty(),
            "Incorrect letters:"@,
            incorrect(word, guesses),
        ]
    }
}

/// Horizontal margin of the game box.
pub const SIDE_MARGIN: usize = 5;

/// Vertical margin of the game box.
pub const VERTICAL_MARGIN: usize = 2;

/// One game: the secret word and the letters guessed so far.
pub struct Game {
    word: String,
    guesses: Vec<char>,
}

impl Game {
    /// The secret word.
    pub closed spec fn secret(&self) -> Seq<char> {
        self.word@
    }

    /// The guesses, in the order they were made.
    pub closed spec fn guessed(&self) -> Seq<char> {
        self.guesses@
    }

    pub open spec fn wf(&self) -> bool {
        guesses_valid(self.guessed())
    }

    /// A game on `word` in lower case, with nothing guessed.
    pub fn with_word(word: &str) -> (g: Game)
        ensures
            g.wf(),
            g.secret() == lower_of(word@),
            g.guessed() == Seq::<char>::empty(),
    {
        Game { word: lowercase(word), guesses: Vec::new() }
    }

    /// A game on the candidate at index `pick`.
    pub fn from_choices(choices: &Vec<String>, pick: usize) -> (g: Game)
        requires
            pick < choices.len(),
        ensures
            g.wf(),
            g.secret() == lower_of(choices@[pick as int]@),
            g.guessed() == Seq::<char>::empty(),
    {
        Game::with_word(choices[pick].as_str())
    }

    /// A game on a candidate picked at random.
    pub fn new(choices: &Vec<String>) -> (g: Game)
        requires
            choices.len() > 0,
        ensures
            g.wf(),
            exists|k: int| 0 <= k < choices.len() && g.secret() == lower_of(choices@[k]@),
            g.guessed() == Seq::<char>::empty(),
    {
        let pick = random_below(choices.len());
        Game::from_choices(choices, pick)
    }

    /// The secret word.
    pub fn word(&self) -> (r: &String)
        ensures
            r@ == self.secret(),
    {
        &self.word
    }

    /// The guesses, in the order they were made.
    pub fn guesses(&self) -> (r: &Vec<char>)
        ensures
            r@ == self.guessed(),
    {
        &self.guesses
    }

    /// Whether a key of the same lower-case form as `c` has been guessed.
    pub fn has_guessed(&self, c: char) -> (r: bool)
        ensures
            r == matches_any(self.guessed(), c),
    {
        matches_lower(&self.guesses, c)
    }

    /// Registers the key `c` as a guess; returns whether the guesses changed.
    pub fn register_guess(&mut self, c: char) -> (changed: bool)
        requires
            old(self).wf(),
        ensures
            final(self).wf(),
            final(self).secret() == old(self).secret(),
            final(self).guessed() == registered(old(self).guessed(), c),
            changed == (final(self).guessed() != old(self).guessed()),
    {
        if !is_alphabetic(c) || matches_lower(&self.guesses, c) {
            return false;
        }
        self.guesses.push(c);
        proof {
            let g = self.guesses@;
            let n = g.len() - 1;
            assert(g.len() != old(self).guesses@.len());
            assert forall|i: int| 0 <= i < g.len() implies alphabetic(#[trigger] g[i]) by {
                if i < n {
                    assert(old(self).guesses@[i] == g[i]);
                }
            }
            assert forall|i: int, j: int| 0 <= i < j < g.len() implies char_lower_of(
                #[trigger] g[i],
            ) != char_lower_of(#[trigger] g[j]) by {
                assert(old(self).guesses@[i] == g[i]);
                if j < n {
                    assert(old(self).guesses@[j] == g[j]);
                } else {
                    assert(g[j] == c);
                }
            }
        }
        true
    }

    /// Whether every character of the word is shown.
    pub fn is_won(&self) -> (r: bool)
        ensures
            r == won(self.secret(), self.guessed()),
    {
        let word = chars_of(self.word.as_str());
        let mut i: usize = 0;
        while i < word.len()
            invariant
                i <= word.len(),
                word@ == self.secret(),
                forall|j: int| 0 <= j < i ==> revealed(#[trigger] word@[j], self.guessed()),
            decreases word.len() - i,
        {
            if !self.shows(word[i]) {
                return false;
            }
            i += 1;
        }
        true
    }

    fn shows(&self, c: char) -> (r: bool)
        ensures
            r == revealed(c, self.guessed()),
    {
        !is_alphabetic(c) || matches_lower(&self.guesses, c)
    }

    /// The word as displayed, e.g. `c _ t` once `c` and `t` are guessed.
    pub fn masked_word(&self) -> (r: String)
        ensures
            r@ == masked(self.secret(), self.guessed()),
    {
        string_of(&self.masked_chars())
    }

    fn masked_chars(&self) -> (r: Vec<char>)
        ensures
            r@ == masked(self.secret(), self.guessed()),
    {
        let word = chars_of(self.word.as_str());
        let ghost shown_all = word@.map_values(|c: char| shown(c, self.guessed()));
        let mut out: Vec<char> = Vec::new();
        let mut i: usize = 0;
        while i < word.len()
            invariant
                i <= word.len(),
                word@ == self.secret(),
                shown_all == word@.map_values(|c: char| shown(c, self.guessed())),
                out@ == spaced(shown_all.subrange(0, i as int)),
            decreases word.len() - i,
        {
            let c = word[i];
            let d = if self.shows(c) {
                c
            } else {
                '_'
            };
            let ghost prev = out@;
            if i > 0 {
                out.push(' ');
            }
            out.push(d);
            proof {
                let sub = shown_all.subrange(0, i + 1);
                assert(sub.drop_last() =~= shown_all.subrange(0, i as int));
                assert(sub.last() == d);
                if i == 0 {
                    assert(out@ =~= sub);
                } else {
                    assert(out@ =~= prev.push(' ').push(d));
                }
            }
            i += 1;
        }
        assert(shown_all.subrange(0, word.len() as int) =~= shown_all);
        out
    }

    /// The guesses that match no character of the word, in the order guessed.
    pub fn incorrect_letters(&self) -> (r: String)
        ensures
            r@ == incorrect(self.secret(), self.guessed()),
    {
        string_of(&self.incorrect_chars())
    }

    fn incorrect_chars(&self) -> (r: Vec<char>)
        ensures
            r@ == incorrect(self.secret(), self.guessed()),
    {
        let word = chars_of(self.word.as_str());
        let mut out: Vec<char> = Vec::new();
        let mut i: usize = 0;
        while i < self.guesses.len()
            invariant
                i <= self.guesses.len(),
                word@ == self.secret(),
                out@ == incorrect(word@, self.guesses@.subrange(0, i as int)),
            decreases self.guesses.len() - i,
        {
            let g = self.guesses[i];
            assert(self.guesses@.subrange(0, i + 1).drop_last() =~= self.guesses@.subrange(
                0,
                i as int,
            ));
            if !matches_lower(&word, g) {
                out.push(g);
            }
            i += 1;
        }
        assert(self.guesses@.subrange(0, self.guesses.len() as int) =~= self.guesses@);
        out
    }

    /// The lines of the game screen: a prompt or the winning banner, the
    /// word as displayed and the incorrect letters.
    pub fn display_lines(&self) -> (r: Vec<Vec<char>>)
        ensures
            views(r@) == screen_lines(self.secret(), self.guessed()),
    {
        let won = self.is_won();
        let mut lines: Vec<Vec<char>> = Vec::new();
        if won {
            lines.push(chars_of("     YOU WIN!     "));
        } else {
            lines.push(chars_of("Guess the word:"));
        }
        lines.push(Vec::new());
        lines.push(self.masked_chars());
        lines.push(Vec::new());
        lines.push(chars_of("Incorrect letters:"));
        lines.push(self.incorrect_chars());
        if won {
            lines.push(Vec::new());
            lines.push(Vec::new());
            lines.push(chars_of("Ctrl-C to go back to main menu"));
        }
        assert(views(lines@) =~= screen_lines(self.secret(), self.guessed()));
        lines
    }

    /// The game screen as a box centred on a terminal of `size` (columns,
    /// rows); `None` where the box does not fit.
    pub fn display(&self, size: (u16, u16)) -> (r: Option<String>)
        ensures
            ({
                let lines = screen_lines(self.secret(), self.guessed());
                let x = (size.0 / 2) as nat;
                let y = (size.1 / 2) as nat;
                &&& crate::layout::box_fits(lines, x, y, 5, 2) ==> (r matches Some(s) && s@
                    == boxed(lines, x, y, 5, 2))
                &&& !crate::layout::box_fits(lines, x, y, 5, 2) ==> r is None
            }),
    {
        let lines = self.display_lines();
        framed(&lines, (size.0 / 2, size.1 / 2), SIDE_MARGIN, VERTICAL_MARGIN)
    }
}

/// Whether `a` and `b` hold the same characters.
pub fn same_chars(a: &Vec<char>, b: &Vec<char>) -> (r: bool)
    ensures
        r == (a@ == b@),
{
    if a.len() != b.len() {
        return false;
    }
    let mut i: usize = 0;
    while i < a.len()
        invariant
            i <= a.len(),
            a.len() == b.len(),
            forall|j: int| 0 <= j < i ==> a@[j] == b@[j],
        decreases a.len() - i,
    {
        if a[i] != b[i] {
            return false;
        }
        i += 1;
    }
    assert(a@ =~= b@);
    true
}

/// Whether some character of `v` has the same lower-case form as `c`.
pub fn matches_lower(v: &Vec<char>, c: char) -> (r: bool)
    ensures
        r == matches_any(v@, c),
{
    let target = lower_char(c);
    let mut i: usize = 0;
    while i < v.len()
        invariant
            i <= v.len(),
            target@ == char_lower_of(c),
            forall|j: int| 0 <= j < i ==> char_lower_of(#[trigger] v@[j]) != char_lower_of(c),
        decreases v.len() - i,
    {
        if same_chars(&lower_char(v[i]), &target) {
            return true;
        }
        i += 1;
    }
    false
}

/// The non-empty lines of a word list.
pub open spec fn candidates(lines: Seq<Seq<char>>) -> Seq<Seq<char>>
    decreases lines.len(),
{
    if lines.len() == 0 {
        Seq::empty()
    } else {
        let prev = candidates(lines.drop_last());
        if lines.last().len() == 0 {
            prev
        } else {
            prev.push(lines.last())
        }
    }
}

/// The candidate words of `list`: its non-empty lines, in order.
pub fn word_choices(list: &str) -> (r: Vec<String>)
    ensures
        r@.map_values(|s: String| s@) == candidates(lines_of(list@)),
{
    let lines = crate::text::split_lines(&chars_of(list));
    let ghost ls = views(lines@);
    let mut out: Vec<String> = Vec::new();
    let mut i: usize = 0;
    while i < lines.len()
        invariant
            i <= lines.len(),
            ls == views(lines@),
            out@.map_values(|s: String| s@) == candidates(ls.subrange(0, i as int)),
        decreases lines.len() - i,
    {
        assert(ls.subrange(0, i + 1).drop_last() =~= ls.subrange(0, i as int));
        assert(ls[i as int] == lines@[i as int]@);
        if lines[i].len() > 0 {
            let ghost before = out@.map_values(|s: String| s@);
            out.push(string_of(&lines[i]));
            assert(out@.map_values(|s: String| s@) =~= before.push(ls[i as int]));
        }
        i += 1;
    }
    assert(ls.subrange(0, lines.len() as int) =~= ls);
    out
}

/// Relies on rand's `Rng::gen_range` on the thread-local generator: a number
/// below `n` (it panics only on an empty range).
#[verifier::external_body]
fn random_below(n: usize) -> (r: usize)
    requires
        n > 0,
    ensures
        r < n,
{
    rand::Rng::gen_range(&mut rand::thread_rng(), 0..n)
}

/// A game is won exactly when each letter of the word matches, in its
/// lower-case form, some alphabetic key pressed.
pub proof fn lemma_won_iff_all_guessed(word: Seq<char>, keys: Seq<char>)
    ensures
        won(word, guesses_after(keys)) <==> forall|i: int|
            0 <= i < word.len() && alphabetic(#[trigger] word[i]) ==> exists|j: int|
                0 <= j < keys.len() && alphabetic(#[trigger] keys[j]) && char_lower_of(keys[j])
                    == char_lower_of(word[i]),
{
    let g = guesses_after(keys);
    assert forall|i: int| 0 <= i < word.len() implies revealed(#[trigger] word[i], g) <==> (
    !alphabetic(word[i]) || exists|j: int|
        0 <= j < keys.len() && alphabetic(#[trigger] keys[j]) && char_lower_of(keys[j])
            == char_lower_of(word[i])) by {
        lemma_guesses_after_matches(keys, word[i]);
    }
}

/// The guesses hold a key of the same lower-case form as `x` exactly when an
/// alphabetic key of that form was pressed.
pub proof fn lemma_guesses_after_matches(keys: Seq<char>, x: char)
    ensures
        matches_any(guesses_after(keys), x) <==> exists|j: int|
            0 <= j < keys.len() && alphabetic(#[trigger] keys[j]) && char_lower_of(keys[j])
                == char_lower_of(x),
    decreases keys.len(),
{
    if keys.len() > 0 {
        let rest = keys.drop_last();
        let k = keys.last();
        let p = guesses_after(rest);
        let q = guesses_after(keys);
        lemma_guesses_after_matches(rest, x);
        lemma_guesses_after_matches(rest, k);
        assert(keys[keys.len() - 1] == k);
        if exists|j: int|
            0 <= j < keys.len() && alphabetic(#[trigger] keys[j]) && char_lower_of(keys[j])
                == char_lower_of(x) {
            let j = choose|j: int|
                0 <= j < keys.len() && alphabetic(#[trigger] keys[j]) && char_lower_of(keys[j])
                    == char_lower_of(x);
            if j < rest.len() {
                assert(rest[j] == keys[j]);
                let n = choose|n: int|
                    0 <= n < p.len() && char_lower_of(#[trigger] p[n]) == char_lower_of(x);
                assert(q[n] == p[n]);
            } else if !matches_any(p, k) {
                assert(q[p.len() as int] == k);
            } else {
                let n = choose|n: int|
                    0 <= n < p.len() && char_lower_of(#[trigger] p[n]) == char_lower_of(k);
                assert(q[n] == p[n]);
            }
            assert(matches_any(q, x));
        }
        if matches_any(q, x) {
            let n = choose|n: int|
                0 <= n < q.len() && char_lower_of(#[trigger] q[n]) == char_lower_of(x);
            if n < p.len() {
                assert(q[n] == p[n]);
                let j = choose|j: int|
                    0 <= j < rest.len() && alphabetic(#[trigger] rest[j]) && char_lower_of(
                        rest[j],
                    ) == char_lower_of(x);
                assert(keys[j] == rest[j]);
            } else {
                assert(q[n] == k);
            }
        }
    }
}

/// Pressing the same key a second time leaves the guesses as the first press
/// left them.
pub proof fn lemma_register_idempotent(guesses: Seq<char>, c: char)
    ensures
        registered(registered(guesses, c), c) == registered(guesses, c),
{
    let once = registered(guesses, c);
    if alphabetic(c) && !matches_any(guesses, c) {
        assert(once[once.len() - 1] == c);
        assert(matches_any(once, c));
    }
}

/// No incorrect letter is a character of the word.
pub proof fn lemma_incorrect_not_in_word(word: Seq<char>, guesses: Seq<char>)
    ensures
        forall|k: int, i: int|
            0 <= k < incorrect(word, guesses).len() && 0 <= i < word.len() ==> #[trigger] incorrect(
                word,
                guesses,
            )[k] != #[trigger] word[i],
{
    lemma_incorrect_members(word, guesses);
    let inc = incorrect(word, guesses);
    assert forall|k: int, i: int| 0 <= k < inc.len() && 0 <= i < word.len() implies #[trigger] inc[k]
        != #[trigger] word[i] by {
        if inc[k] == word[i] {
            assert(matches_any(word, inc[k]));
        }
    }
}

/// Each incorrect letter matches no character of the word, in lower case.
pub proof fn lemma_incorrect_members(word: Seq<char>, guesses: Seq<char>)
    ensures
        forall|k: int|
            0 <= k < incorrect(word, guesses).len() ==> !matches_any(
                word,
                #[trigger] incorrect(word, guesses)[k],
            ),
    decreases guesses.len(),
{
    if guesses.len() > 0 {
        let rest = guesses.drop_last();
        lemma_incorrect_members(word, rest);
        let inc = incorrect(word, guesses);
        let prev = incorrect(word, rest);
        assert forall|k: int| 0 <= k < inc.len() implies !matches_any(word, #[trigger] inc[k]) by {
            if k < prev.len() {
                assert(inc[k] == prev[k]);
            }
        }
    }
}

} // verus!
