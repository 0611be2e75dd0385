//! Mode selection, commands, and the entry point that serves both notations.

use crate::constants::{Mode, EXIT_COMMAND, MODE_COMMON, MODE_POLISH};
use crate::error::Error;
use crate::infix::{evaluate_infix_expression, infix_progress, infix_value};
use crate::operation::Numerics;
use crate::polish::{evaluate_polish_expression, prefix_value, words_of};
use crate::progress::{
    lemma_postfix_outcome, lemma_prefix_outcome, prefix_progress, Progress, ProgressView,
};
use crate::shunting_yard::to_postfix;
use crate::tokenizer::tokens_of;
use vstd::prelude::*;

verus! {

/// The value of the expression `text` read in `mode`.
pub open spec fn expression_value(numerics: Numerics, text: Seq<char>, mode: Mode) -> Result<
    u64,
    Error,
> {
    match mode {
        Mode::Common => infix_value(numerics, text),
        Mode::Polish => prefix_value(numerics, text),
    }
}

/// Where the evaluation of `text` in `mode` stands at its first request or
/// its end.
pub open spec fn expression_progress(text: Seq<char>, mode: Mode) -> ProgressView {
    match mode {
        Mode::Common => infix_progress(text),
        Mode::Polish => prefix_progress(Seq::empty(), words_of(text)),
    }
}

/// Starts the evaluation of `expr` in the notation of `mode` and runs it up
/// to its first request or its end.
pub fn evaluate_expression(expr: &str, mode: &Mode) -> (progress: Progress)
    ensures
        progress@ == expression_progress(expr@, *mode),
        forall|numerics: Numerics| #[trigger]
            progress@.outcome(numerics) == expression_value(numerics, expr@, *mode),
{
    match mode {
        Mode::Common => evaluate_infix_expression(expr),
        Mode::Polish => evaluate_polish_expression(expr),
    }
}

/// Evaluating the same text in the same mode again runs into the same
/// requests and, answered in the same way, ends with the same result: the
/// value of the expression.
pub proof fn lemma_evaluation_repeats(
    numerics: Numerics,
    text: Seq<char>,
    mode: Mode,
    first: ProgressView,
    second: ProgressView,
)
    requires
        first == expression_progress(text, mode),
        second == expression_progress(text, mode),
    ensures
        first == second,
        first.outcome(numerics) == second.outcome(numerics),
        first.outcome(numerics) == expression_value(numerics, text, mode),
{
    match mode {
        Mode::Common => {
            if let Ok(tokens) = tokens_of(text) {
                lemma_postfix_outcome(numerics, Seq::empty(), to_postfix(tokens));
            }
        },
        Mode::Polish => {
            lemma_prefix_outcome(numerics, Seq::empty(), words_of(text));
        },
    }
}

/// The name under which a mode, or the lack of one, is shown.
pub fn mode_to_string(mode: &Option<Mode>) -> (name: &'static str)
    ensures
        name@ == match *mode {
            Some(Mode::Common) => "Common"@,
            Some(Mode::Polish) => "Polish notation"@,
            None => "No mode selected"@,
        },
{
    match mode {
        Some(Mode::Common) => "Common",
        Some(Mode::Polish) => "Polish notation",
        _ => "No mode selected",
    }
}

/// The lower-case form of an ASCII letter; any other character is kept.
pub open spec fn ascii_lowercase(c: char) -> char {
    if 'A' <= c <= 'Z' {
        ((c as u8) + 32) as char
    } else {
        c
    }
}

/// `a` and `b` are the same text but for the case of their ASCII letters.
pub open spec fn same_ignoring_ascii_case(a: Seq<char>, b: Seq<char>) -> bool {
    &&& a.len() == b.len()
    &&& forall|i: int| 0 <= i < a.len() ==> ascii_lowercase(#[trigger] a[i]) == ascii_lowercase(b[i])
}

/// `str::eq_ignore_ascii_case` of the standard library: whether the two
/// texts are equal once the ASCII letters `A` to `Z` of both are replaced by
/// `a` to `z`, every other character being compared as it is.
#[verifier::external_body]
fn eq_ignore_ascii_case(a: &str, b: &str) -> (same: bool)
    ensures
        same == same_ignoring_ascii_case(a@, b@),
{
    a.eq_ignore_ascii_case(b)
}

/// Whether `input` is the command that ends the session, in either case.
pub fn check_exit_command(input: &str) -> (exit: bool)
    ensures
        exit == same_ignoring_ascii_case(input@, EXIT_COMMAND@),
        exit == (input@ == seq!['q'] || input@ == seq!['Q']),
{
    proof {
        reveal_strlit("q");
        assert(EXIT_COMMAND@ =~= seq!['q']);
        if same_ignoring_ascii_case(input@, seq!['q']) {
            assert(ascii_lowercase(input@[0]) == ascii_lowercase(seq!['q'][0]));
            assert(input@ =~= seq!['q'] || input@ =~= seq!['Q']);
        }
        if input@ == seq!['Q'] {
            assert(ascii_lowercase('Q') == 'q');
        }
    }
    eq_ignore_ascii_case(input, EXIT_COMMAND)
}

/// The text that `str::to_lowercase` of the standard library returns for a
/// text: its lower-case form by the Unicode case mapping.
pub uninterp spec fn lowercase_of(text: Seq<char>) -> Seq<char>;

/// `str::to_lowercase` of the standard library. Nothing is claimed of the
/// result but that it is the one the name above stands for.
#[verifier::external_body]
fn to_lowercase(text: &str) -> (lowered: String)
    ensures
        lowered@ == lowercase_of(text@),
{
    text.to_lowercase()
}

/// The mode that a command, given in lower case, selects.
pub open spec fn mode_of_command(command: Seq<char>) -> Option<Mode> {
    if command == MODE_COMMON@ {
        Some(Mode::Common)
    } else if command == MODE_POLISH@ {
        Some(Mode::Polish)
    } else {
        None
    }
}

/// The mode that `command` selects, if it is one of the two mode commands,
/// letter for letter.
pub fn mode_for_command(command: &str) -> (mode: Option<Mode>)
    ensures
        mode == mode_of_command(command@),
{
    let given = command.to_owned();
    if given == MODE_COMMON.to_owned() {
        Some(Mode::Common)
    } else if given == MODE_POLISH.to_owned() {
        Some(Mode::Polish)
    } else {
        None
    }
}

/// The mode that `input` selects, if its lower-case form is one of the two
/// mode commands.
pub fn choose_mode(input: &str) -> (mode: Option<Mode>)
    ensures
        mode == mode_of_command(lowercase_of(input@)),
{
    let lowered = to_lowercase(input);
    mode_for_command(lowered.as_str())
}

} // verus!
