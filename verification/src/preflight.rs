//! Checks made before a disk is wiped.

use vstd::prelude::*;
use crate::text::{chars_of, contains, has_part, lines, same_chars, split_lines, trim, trimmed};

verus! {

/// Some line of the mount table names the device.
pub open spec fn is_mounted(mounts: Seq<char>, device: Seq<char>) -> bool {
    exists|i: int| 0 <= i < lines(mounts).len() && has_part(#[trigger] lines(mounts)[i], device)
}

/// Whether some line of the mount table names the device.
pub fn check_mounts(mounts: &str, device: &str) -> (mounted: bool)
    ensures
        mounted == is_mounted(mounts@, device@),
{
    let table = chars_of(mounts);
    let name = chars_of(device);
    let ls = split_lines(&table);
    let mut i: usize = 0;
    while i < ls.len()
        invariant
            i <= ls.len(),
            ls.len() == lines(mounts@).len(),
            table@ == mounts@,
            name@ == device@,
            forall|k: int| 0 <= k < ls.len() ==> (#[trigger] ls@[k])@ == lines(mounts@)[k],
            forall|k: int| 0 <= k < i ==> !has_part(#[trigger] lines(mounts@)[k], device@),
        decreases ls.len() - i,
    {
        if contains(&ls[i], &name) {
            assert(has_part(lines(mounts@)[i as int], device@));
            return true;
        }
        i += 1;
    }
    false
}

/// Whether what was typed, but for white space around it, is the name of
/// the device: the consent to wipe it.
pub fn confirm_destruction(input: &str, device: &str) -> (confirmed: bool)
    ensures
        confirmed == (trimmed(input@) == device@),
{
    let typed = chars_of(input);
    let name = chars_of(device);
    let stripped = trim(&typed);
    same_chars(&stripped, &name)
}

} // verus!
