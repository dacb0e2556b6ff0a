//! Settings read from the user's configuration text.
use vstd::prelude::*;
use crate::text::{contains_seq, contains_text};

verus! {

/// The configuration line that selects Czech messages.
pub open spec fn czech_setting() -> Seq<char> {
    "language-of-aether=cs"@
}

/// The message in the language that `config` selects: `cs` when the configuration text
/// holds `language-of-aether=cs`, else `en`.
pub fn localized(config: &str, en: &str, cs: &str) -> (r: String)
    ensures
        contains_seq(config@, czech_setting()) ==> r@ == cs@,
        !contains_seq(config@, czech_setting()) ==> r@ == en@,
{
    if contains_text(config, "language-of-aether=cs") {
        String::from_str(cs)
    } else {
        String::from_str(en)
    }
}

} // verus!
