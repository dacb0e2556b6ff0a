//! A scan of source text for shell commands that a script must not run.
use vstd::prelude::*;
use crate::text::{contains_seq, contains_text};

verus! {

/// The forbidden command prefixes, in the order in which they are looked for.
pub open spec fn forbidden_commands() -> Seq<Seq<char>> {
    seq![
        "cmd(\"rm"@,
        "cmd('rm"@,
        "cmd(\"del"@,
        "cmd('del"@,
        "cmd(\"mkfs"@,
        "cmd(\"format"@,
    ]
}

/// Rejects `code` that contains a forbidden command. The error is `label`, a space, and
/// the first forbidden command (in list order) that occurs in `code`.
pub fn security_check(code: &str, label: &str) -> (r: Result<(), String>)
    ensures
        r is Ok <==> forall|i: int|
            0 <= i < forbidden_commands().len() ==> !contains_seq(
                code@,
                #[trigger] forbidden_commands()[i],
            ),
        r matches Err(msg) ==> exists|i: int|
            0 <= i < forbidden_commands().len() && contains_seq(code@, forbidden_commands()[i])
                && (forall|j: int| 0 <= j < i ==> !contains_seq(code@, #[trigger] forbidden_commands()[j]))
                && msg@ == label@ + " "@ + forbidden_commands()[i],
{
    let patterns = ["cmd(\"rm", "cmd('rm", "cmd(\"del", "cmd('del", "cmd(\"mkfs", "cmd(\"format"];
    assert(patterns@.map_values(|p: &str| p@) =~= forbidden_commands());
    let mut k: usize = 0;
    while k < 6
        invariant
            k <= 6,
            patterns@.map_values(|p: &str| p@) == forbidden_commands(),
            forall|j: int| 0 <= j < k ==> !contains_seq(code@, #[trigger] forbidden_commands()[j]),
        decreases 6 - k,
    {
        let bad = patterns[k];
        assert(bad@ == forbidden_commands()[k as int]);
        if contains_text(code, bad) {
            let mut msg = String::from_str(label);
            msg.append(" ");
            msg.append(bad);
            return Err(msg);
        }
        k = k + 1;
    }
    Ok(())
}

} // verus!
