//! Reading the settings that a stage is started with.

use crate::text::same_text;
use vstd::prelude::*;

verus! {

/// The lower-case form of a text, as `str::to_lowercase` gives it.
pub uninterp spec fn lowercase(s: Seq<char>) -> Seq<char>;

/// `str::to_lowercase` of the standard library: the lower-case equivalent of
/// the text, by the rules of Unicode. The result depends on the text alone.
#[verifier::external_body]
fn to_lowercase(s: &str) -> (lower: String)
    ensures
        lower@ == lowercase(s@),
{
    s.to_lowercase()
}

/// Whether a word in lower case says yes: `true`, `t`, `yes`, `y` or `1`.
pub open spec fn is_truthy(word: Seq<char>) -> bool {
    ||| word == "true"@
    ||| word == "t"@
    ||| word == "yes"@
    ||| word == "y"@
    ||| word == "1"@
}

/// Whether a word that is already in lower case says yes. Every other word,
/// `false`, `f`, `no`, `n` and `0` among them, says no.
pub fn truthy(word: &str) -> (b: bool)
    ensures
        b == is_truthy(word@),
{
    same_text(word, "true") || same_text(word, "t") || same_text(word, "yes") || same_text(
        word,
        "y",
    ) || same_text(word, "1")
}

/// Whether a setting says yes, whatever its case: `TRUE`, `true`, `T`, `t`,
/// `YES`, `yes`, `Y`, `y` and `1` do, and nothing else does.
pub fn boolify(s: &str) -> (b: bool)
    ensures
        b == is_truthy(lowercase(s@)),
{
    let value = to_lowercase(s);
    truthy(value.as_str())
}

/// What a stage does once it has gone through its inbox.
#[derive(Clone, Copy, Debug, PartialEq, Eq, Structural)]
pub enum AfterCycle {
    /// leave the process cleanly
    Exit,
    /// wait for that many seconds, then go through the inbox again
    Sleep { seconds: u64 },
}

/// A stage that runs once exits after its cycle; any other stage sleeps for
/// the configured time.
pub fn after_cycle(run_once: bool, sleep_seconds: u64) -> (next: AfterCycle)
    ensures
        next == if run_once {
            AfterCycle::Exit
        } else {
            (AfterCycle::Sleep { seconds: sleep_seconds })
        },
{
    if run_once {
        AfterCycle::Exit
    } else {
        AfterCycle::Sleep { seconds: sleep_seconds }
    }
}

} // verus!
