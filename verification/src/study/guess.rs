//! A game of guessing a number, one line of input at a time.

use crate::decimal::{number_in, parse_number};
use rand::Rng;
use vstd::prelude::*;
use vstd::utf8::encode_utf8;

verus! {

/// The smallest number that the game thinks of.
pub const LOWEST: u32 = 1;

/// The largest number that the game thinks of.
pub const HIGHEST: u32 = 100;

/// What the game makes of a line of input.
#[derive(Clone, Copy, Debug, PartialEq, Eq)]
pub enum Answer {
    /// The line holds no number: the game asks again and says nothing.
    NotANumber,
    /// The number is below the secret one.
    TooSmall,
    /// The number is above the secret one.
    TooBig,
    /// The number is the secret one: the game is over.
    YouWin,
}

impl Answer {
    /// What the game says with this answer.
    pub open spec fn says(self) -> Seq<char> {
        match self {
            Answer::NotANumber => Seq::empty(),
            Answer::TooSmall => "Too small!"@,
            Answer::TooBig => "Too big"@,
            Answer::YouWin => "You Win"@,
        }
    }

    /// The words to print for this answer, if it has any.
    pub fn message(self) -> (text: Option<&'static str>)
        ensures
            text is None <==> self == Answer::NotANumber,
            text matches Some(words) ==> words@ == self.says(),
    {
        match self {
            Answer::NotANumber => None,
            Answer::TooSmall => Some("Too small!"),
            Answer::TooBig => Some("Too big"),
            Answer::YouWin => Some("You Win"),
        }
    }

    /// Whether the game is over with this answer.
    pub fn ends_game(self) -> (over: bool)
        ensures
            over <==> self == Answer::YouWin,
    {
        match self {
            Answer::YouWin => true,
            _ => false,
        }
    }
}

/// The answer to a number, or to the lack of one, when `secret` is the number
/// to be found.
pub open spec fn verdict(secret: u32, number: Option<u32>) -> Answer {
    match number {
        None => Answer::NotANumber,
        Some(n) => if n < secret {
            Answer::TooSmall
        } else if n > secret {
            Answer::TooBig
        } else {
            Answer::YouWin
        },
    }
}

/// A line of input without the white space at its two ends, as `str::trim`
/// returns it.
pub uninterp spec fn trimmed(line: Seq<char>) -> Seq<char>;

/// Calls `str::trim`, which returns the part of `line` between its leading
/// and its trailing white space. What counts as white space is Unicode's
/// business, so the contract only gives the result its name: the same line
/// trims to the same text.
#[verifier::external_body]
fn trim<'a>(line: &'a str) -> (text: &'a str)
    ensures
        text@ == trimmed(line@),
{
    line.trim()
}

/// Calls `Rng::gen_range` of the `rand` crate on the generator that
/// `rand::thread_rng` returns. The call picks a number at random that is at
/// least `low` and less than `high`, and panics where no such number exists.
/// Which number it picks is not said, and two calls may differ.
#[verifier::external_body]
fn draw(low: u32, high: u32) -> (number: u32)
    requires
        low < high,
    ensures
        low <= number < high,
{
    rand::thread_rng().gen_range(low, high)
}

/// Thinks of the number to be found.
pub fn secret_number() -> (secret: u32)
    ensures
        LOWEST <= secret <= HIGHEST,
{
    draw(LOWEST, HIGHEST + 1)
}

/// Answers a text that has no white space around it.
pub fn judge(secret: u32, text: &str) -> (answer: Answer)
    ensures
        answer == verdict(secret, number_in(encode_utf8(text@))),
{
    match parse_number(text.as_bytes()) {
        None => Answer::NotANumber,
        Some(number) => if number < secret {
            Answer::TooSmall
        } else if number > secret {
            Answer::TooBig
        } else {
            Answer::YouWin
        },
    }
}

/// Answers one line of input: the line is trimmed, read as a number and
/// held against `secret`.
pub fn guess(secret: u32, line: &str) -> (answer: Answer)
    ensures
        answer == verdict(secret, number_in(encode_utf8(trimmed(line@)))),
{
    judge(secret, trim(line))
}

} // verus!
