//! The guessing session itself: a secret target drawn from an inclusive
//! range, a three-way comparison of each parsed guess against it, and the
//! two-state machine that feeds raw input lines through the parser until a
//! guess hits the target.

use vstd::prelude::*;

use crate::parse::{guess_value, is_valid_guess, parse_guess};

verus! {

/// What one comparison of a guess against the target reports.
#[derive(Clone, Copy, PartialEq, Eq, Debug)]
pub enum Outcome {
    TooSmall,
    TooBig,
    Win,
}

/// The two states of a session: waiting for the next input line, or won.
/// `Won` is terminal.
#[derive(Clone, Copy, PartialEq, Eq, Debug)]
pub enum Phase {
    AwaitingInput,
    Won,
}

/// The three-way ordering of a guess against the target: too small below it,
/// too big above it, a win exactly on it.
pub open spec fn outcome_of(guess: int, target: int) -> Outcome {
    if guess < target {
        Outcome::TooSmall
    } else if guess > target {
        Outcome::TooBig
    } else {
        Outcome::Win
    }
}

/// Compare one parsed guess against the target.
pub fn compare_guess(guess: u32, target: u32) -> (r: Outcome)
    ensures
        r == outcome_of(guess as int, target as int),
        r is Win <==> guess == target,
{
    if guess < target {
        Outcome::TooSmall
    } else if guess > target {
        Outcome::TooBig
    } else {
        Outcome::Win
    }
}

/// Every comparison reports exactly one of the three outcomes: a win exactly
/// when guess and target are equal, too small exactly below, too big exactly
/// above.
pub proof fn lemma_outcome_trichotomy(guess: int, target: int)
    ensures
        outcome_of(guess, target) is Win <==> guess == target,
        outcome_of(guess, target) is TooSmall <==> guess < target,
        outcome_of(guess, target) is TooBig <==> guess > target,
{
}

/// A line wins against `target` when it is a well-formed guess of exactly
/// that value.
pub open spec fn line_wins(line: Seq<u8>, target: u32) -> bool {
    is_valid_guess(line) && guess_value(line) == target as int
}

/// Relies on rand's `thread_rng` and `Rng::gen_range`: a sample from the
/// inclusive range `lo..=hi` always lies within that range. The range is
/// nonempty by the `requires`, so the call cannot panic.
#[verifier::external_body]
fn random_in_range(lo: u32, hi: u32) -> (r: u32)
    requires
        lo <= hi,
    ensures
        lo <= r <= hi,
{
    rand::Rng::gen_range(&mut rand::thread_rng(), lo..=hi)
}

/// One guessing session: a secret target, fixed for its whole lifetime, and
/// the phase of play.
pub struct Game {
    pub target: u32,
    pub phase: Phase,
}

impl Game {
    /// A well-formed session: the target lies in the inclusive guessing range.
    pub open spec fn wf(self) -> bool {
        1 <= self.target <= 100
    }

    /// How one input line moves the session: the phase becomes `Won` exactly
    /// when the line wins; nothing else ever changes, the target least of all.
    pub open spec fn step(self, line: Seq<u8>) -> Game {
        if line_wins(line, self.target) {
            Game { phase: Phase::Won, ..self }
        } else {
            self
        }
    }

    /// What one input line reports: nothing for a malformed line, else the
    /// three-way comparison of its value against the target.
    pub open spec fn report(self, line: Seq<u8>) -> Option<Outcome> {
        if is_valid_guess(line) {
            Some(outcome_of(guess_value(line), self.target as int))
        } else {
            None
        }
    }

    /// Start a session on a fixed target from the guessing range.
    pub fn new(target: u32) -> (g: Game)
        requires
            1 <= target <= 100,
        ensures
            g.target == target,
            g.phase is AwaitingInput,
            g.wf(),
    {
        Game { target, phase: Phase::AwaitingInput }
    }

    /// Start a session on a random target drawn from the guessing range.
    pub fn new_random() -> (g: Game)
        ensures
            g.wf(),
            g.phase is AwaitingInput,
    {
        Game::new(random_in_range(1, 100))
    }

    /// Feed one raw line to the session. A malformed line is discarded and
    /// changes nothing; a well-formed one is compared against the target and
    /// wins the session exactly when it hits it.
    pub fn submit_line(&mut self, line: &[u8]) -> (r: Option<Outcome>)
        requires
            old(self).phase is AwaitingInput,
        ensures
            *final(self) == old(self).step(line@),
            r == old(self).report(line@),
            final(self).target == old(self).target,
            final(self).phase is Won <==> r == Some(Outcome::Win),
    {
        match parse_guess(line) {
            None => None,
            Some(g) => {
                proof {
                    crate::parse::lemma_guess_value_bounds(line@);
                    assert(g as int == guess_value(line@));
                }
                let r = compare_guess(g, self.target);
                match r {
                    Outcome::Win => {
                        self.phase = Phase::Won;
                    },
                    _ => {},
                }
                Some(r)
            },
        }
    }

    /// A whole session, folded through `step` over a script of input lines.
    pub open spec fn run(self, lines: Seq<Seq<u8>>) -> Game
        decreases lines.len(),
    {
        if lines.len() == 0 {
            self
        } else {
            self.step(lines[0]).run(lines.drop_first())
        }
    }
}

/// A malformed line is silently discarded: the step on it is the identity,
/// and nothing is reported.
pub proof fn lemma_malformed_is_discarded(g: Game, line: Seq<u8>)
    requires
        !is_valid_guess(line),
    ensures
        g.step(line) == g,
        g.report(line) is None,
{
}

/// No input line, well-formed or not, ever moves the target.
pub proof fn lemma_target_fixed(g: Game, line: Seq<u8>)
    ensures
        g.step(line).target == g.target,
{
}

/// Repeated malformed input never changes the session: a script of malformed
/// lines, however long, leaves it exactly where it began.
pub proof fn lemma_malformed_script_is_discarded(g: Game, lines: Seq<Seq<u8>>)
    requires
        forall|i: int| 0 <= i < lines.len() ==> !is_valid_guess(lines[i]),
    ensures
        g.run(lines) == g,
    decreases lines.len(),
{
    if lines.len() > 0 {
        assert(g.step(lines[0]) == g);
        let rest = lines.drop_first();
        assert forall|i: int| 0 <= i < rest.len() implies !is_valid_guess(rest[i]) by {
            assert(rest[i] == lines[i + 1]);
        }
        lemma_malformed_script_is_discarded(g, rest);
    }
}

/// Play a whole session against a fixed script of input lines, stopping at
/// the first winning line. The session always ends, after at most one
/// iteration per line, and it ends early exactly on a win: `Some(i)` names
/// the first winning line, `None` says the script holds none.
pub fn play_script(target: u32, lines: &Vec<Vec<u8>>) -> (r: Option<usize>)
    requires
        1 <= target <= 100,
    ensures
        r matches Some(i) ==> i < lines@.len() && line_wins(lines@[i as int]@, target)
            && (forall|j: int| 0 <= j < i ==> !line_wins(lines@[j]@, target)),
        r is None ==> forall|j: int| 0 <= j < lines@.len() ==> !line_wins(lines@[j]@, target),
    {
    let mut game = Game::new(target);
    let n = lines.len();
    let mut i: usize = 0;
    while i < n
        invariant
            n == lines@.len(),
            0 <= i <= n,
            game.target == target,
            game.phase is AwaitingInput,
            forall|j: int| 0 <= j < i ==> !line_wins(lines@[j]@, target),
        decreases n - i,
    {
        let line: &Vec<u8> = &lines[i];
        let r = game.submit_line(line.as_slice());
        match r {
            Some(Outcome::Win) => {
                return Some(i);
            },
            _ => {},
        }
        i += 1;
    }
    None
}

} // verus!
