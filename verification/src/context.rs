//! What the user chooses before a run begins.

use vstd::prelude::*;
use vstd::string::*;

use crate::digits::{
    decimal, decimal_reads_back, is_digit, lemma_decimal, parse_usize, parsed, write_usize,
};
use crate::text::{
    eq_ignore_ascii_case, same_ignoring_case, trim, trimmed, white_space,
    white_space_around_is_taken_away,
};

verus! {

/// A line of the menu of context files, counted from one.
pub fn menu_line(position: usize, label: &str) -> (r: String)
    requires
        position < usize::MAX,
    ensures
        r@ == "  "@ + decimal((position + 1) as nat) + ") "@ + label@,
{
    let mut out = "  ".to_owned();
    out.append(write_usize(position + 1).as_str());
    out.append(") ");
    out.append(label);
    out
}

/// Why there is nothing to choose.
pub fn no_files(dir: &str) -> (r: String)
    ensures
        r@ == "no .md files found under "@ + dir@ + " (including subfolders)"@,
{
    let mut out = "no .md files found under ".to_owned();
    out.append(dir);
    out.append(" (including subfolders)");
    out
}

/// Why a choice is refused.
#[derive(Clone, Copy, Debug, PartialEq, Eq, Structural)]
pub enum ChoiceError {
    Invalid,
    OutOfRange,
}

impl ChoiceError {
    /// The message of this error.
    pub fn message(self) -> (r: &'static str)
        ensures
            r@ == match self {
                ChoiceError::Invalid => "invalid selection"@,
                ChoiceError::OutOfRange => "selection out of range"@,
            },
    {
        match self {
            ChoiceError::Invalid => "invalid selection",
            ChoiceError::OutOfRange => "selection out of range",
        }
    }
}

/// What an input chooses out of `count`, counted from one; zero chooses the
/// first.
pub open spec fn choice(input: Seq<char>, count: nat) -> Result<nat, ChoiceError> {
    match parsed(trimmed(input), usize::MAX as nat) {
        None => Err(ChoiceError::Invalid),
        Some(n) => {
            let i = if n == 0 {
                0
            } else {
                (n - 1) as nat
            };
            if i < count {
                Ok(i)
            } else {
                Err(ChoiceError::OutOfRange)
            }
        },
    }
}

/// Reads what an input chooses out of `count`.
pub fn choose_file(input: &str, count: usize) -> (r: Result<usize, ChoiceError>)
    ensures
        match r {
            Ok(i) => choice(input@, count as nat) == Ok::<nat, ChoiceError>(i as nat),
            Err(e) => choice(input@, count as nat) == Err::<nat, ChoiceError>(e),
        },
{
    match parse_usize(trim(input)) {
        None => Err(ChoiceError::Invalid),
        Some(n) => {
            let i: usize = if n == 0 {
                0
            } else {
                n - 1
            };
            if i < count {
                Ok(i)
            } else {
                Err(ChoiceError::OutOfRange)
            }
        },
    }
}

/// Whether an answer is yes.
pub fn is_yes(input: &str) -> (r: bool)
    ensures
        r == same_ignoring_case(trimmed(input@), "y"@),
{
    eq_ignore_ascii_case(trim(input), "y")
}

/// How many agents an answer asks for; one where it is no number.
pub fn read_agent_count(input: &str) -> (r: usize)
    ensures
        r == match parsed(trimmed(input@), usize::MAX as nat) {
            Some(n) => n,
            None => 1,
        },
{
    match parse_usize(trim(input)) {
        Some(n) => n,
        None => 1,
    }
}

/// Entries are chosen by their number in the menu, with white space around it or
/// not: one is the first, and so is zero; a number beyond the last is refused, and
/// what is no number too.
pub proof fn entries_are_chosen_by_number(
    before: Seq<char>,
    k: nat,
    behind: Seq<char>,
    count: nat,
    input: Seq<char>,
)
    requires
        forall|i: int| 0 <= i < before.len() ==> white_space(#[trigger] before[i]),
        forall|i: int| 0 <= i < behind.len() ==> white_space(#[trigger] behind[i]),
        k <= usize::MAX,
    ensures
        1 <= k <= count ==> choice(before + decimal(k) + behind, count) == Ok::<nat, ChoiceError>(
            (k - 1) as nat,
        ),
        k > count && k > 1 ==> choice(before + decimal(k) + behind, count) == Err::<
            nat,
            ChoiceError,
        >(ChoiceError::OutOfRange),
        count > 0 ==> choice(before + decimal(0) + behind, count) == Ok::<nat, ChoiceError>(0),
        count == 0 ==> choice(input, count) is Err,
        parsed(trimmed(input), usize::MAX as nat) is None ==> choice(input, count) == Err::<
            nat,
            ChoiceError,
        >(ChoiceError::Invalid),
{
    lemma_decimal(k);
    lemma_decimal(0);
    decimal_reads_back(k, usize::MAX as nat);
    decimal_reads_back(0, usize::MAX as nat);
    assert(is_digit(decimal(k)[0]) && is_digit(decimal(k).last()));
    assert(is_digit(decimal(0)[0]) && is_digit(decimal(0).last()));
    white_space_around_is_taken_away(before, decimal(k), behind);
    white_space_around_is_taken_away(before, decimal(0), behind);
}

} // verus!
