//! Helpers for setting up a disk: the names of its partitions, and the list
//! of what is mounted and has to be unmounted again.

use vstd::prelude::*;
use crate::text::{
    chars_of, contains, decimal, has_part, push_natural, same_text, text_of, texts,
};

verus! {

/// A whole number in decimal, with a `-` before a negative one.
pub open spec fn signed_decimal(n: int) -> Seq<char> {
    if n < 0 {
        seq!['-'] + decimal((-n) as nat)
    } else {
        decimal(n as nat)
    }
}

/// The path of a partition of a device: the number follows the device, with
/// a `p` between them where the name of the device holds `nvme` or
/// `mmcblk`.
pub open spec fn partition_path(device: Seq<char>, part_num: int) -> Seq<char> {
    if has_part(device, "nvme"@) || has_part(device, "mmcblk"@) {
        device + seq!['p'] + signed_decimal(part_num)
    } else {
        device + signed_decimal(part_num)
    }
}

/// The path of a partition of a device.
pub fn resolve_partition(device: &str, part_num: i32) -> (r: String)
    ensures
        r@ == partition_path(device@, part_num as int),
{
    let mut out = chars_of(device);
    let nvme = chars_of("nvme");
    let mmc = chars_of("mmcblk");
    if contains(&out, &nvme) || contains(&out, &mmc) {
        out.push('p');
    }
    if part_num < 0 {
        out.push('-');
        let wide: i64 = part_num as i64;
        push_natural(&mut out, (-wide) as u64);
    } else {
        push_natural(&mut out, part_num as u64);
    }
    text_of(&out)
}

/// Why the list of mounts was not changed.
#[derive(Clone, Copy, Debug, PartialEq, Eq, Structural)]
pub enum MountError {
    /// The mount command failed.
    MountFailed,
    /// The unmount command failed.
    UnmountFailed,
}

/// The targets that are mounted, oldest first, so that they can be
/// unmounted in reverse when the work ends, however it ends.
pub struct MountGuard {
    mounts: Vec<String>,
}

/// A list without the last occurrence of a target, if it holds one.
pub open spec fn without_last(targets: Seq<Seq<char>>, target: Seq<char>) -> Seq<Seq<char>>
    decreases targets.len(),
{
    if targets.len() == 0 {
        targets
    } else if targets.last() == target {
        targets.drop_last()
    } else {
        without_last(targets.drop_last(), target).push(targets.last())
    }
}

proof fn lemma_without_last_absent(targets: Seq<Seq<char>>, target: Seq<char>)
    requires
        forall|i: int| 0 <= i < targets.len() ==> targets[i] != target,
    ensures
        without_last(targets, target) == targets,
    decreases targets.len(),
{
    if targets.len() > 0 {
        lemma_without_last_absent(targets.drop_last(), target);
        assert(targets.drop_last().push(targets.last()) =~= targets);
    }
}

proof fn lemma_without_last_at(targets: Seq<Seq<char>>, target: Seq<char>, at: int)
    requires
        0 <= at < targets.len(),
        targets[at] == target,
        forall|i: int| at < i < targets.len() ==> targets[i] != target,
    ensures
        without_last(targets, target) == targets.remove(at),
    decreases targets.len(),
{
    if at == targets.len() - 1 {
        assert(targets.remove(at) =~= targets.drop_last());
    } else {
        lemma_without_last_at(targets.drop_last(), target, at);
        assert(targets.drop_last().remove(at).push(targets.last()) =~= targets.remove(at));
    }
}

impl View for MountGuard {
    type V = Seq<Seq<char>>;

    closed spec fn view(&self) -> Seq<Seq<char>> {
        texts(self.mounts@)
    }
}

impl MountGuard {
    /// A guard over nothing.
    pub fn new() -> (r: MountGuard)
        ensures
            r@ == Seq::<Seq<char>>::empty(),
    {
        let r = MountGuard { mounts: Vec::new() };
        assert(r@ =~= Seq::<Seq<char>>::empty());
        r
    }

    /// Takes note of a mount command for `target` that has run: where it
    /// succeeded, the target is now the newest of the list.
    pub fn mount(&mut self, target: &str, succeeded: bool) -> (r: Result<(), MountError>)
        ensures
            succeeded ==> r is Ok && final(self)@ == old(self)@.push(target@),
            !succeeded ==> r == Err::<(), MountError>(MountError::MountFailed) && final(self)@
                == old(self)@,
    {
        if !succeeded {
            return Err(MountError::MountFailed);
        }
        let ghost before = self.mounts@;
        self.mounts.push(target.to_owned());
        assert(texts(self.mounts@) =~= texts(before).push(target@));
        Ok(())
    }

    /// Takes note of an unmount command for `target` that has run: where it
    /// succeeded, the newest entry for the target leaves the list.
    pub fn unmount(&mut self, target: &str, succeeded: bool) -> (r: Result<(), MountError>)
        ensures
            succeeded ==> r is Ok && final(self)@ == without_last(old(self)@, target@),
            !succeeded ==> r == Err::<(), MountError>(MountError::UnmountFailed) && final(self)@
                == old(self)@,
    {
        if !succeeded {
            return Err(MountError::UnmountFailed);
        }
        let ghost before = self.mounts@;
        let mut i: usize = self.mounts.len();
        while i > 0
            invariant
                i <= self.mounts.len(),
                succeeded,
                self.mounts@ == before,
                texts(before) == old(self)@,
                forall|k: int| i <= k < before.len() ==> texts(before)[k] != target@,
            decreases i,
        {
            if same_text(self.mounts[i - 1].as_str(), target) {
                proof {
                    lemma_without_last_at(texts(before), target@, i - 1);
                }
                let _ = self.mounts.remove(i - 1);
                assert(texts(self.mounts@) =~= texts(before).remove(i - 1));
                return Ok(());
            }
            i -= 1;
        }
        proof {
            lemma_without_last_absent(texts(before), target@);
        }
        Ok(())
    }

    /// The targets to unmount when the work ends: all that are mounted, the
    /// newest first.
    pub fn release_order(&self) -> (r: Vec<String>)
        ensures
            texts(r@) == self@.reverse(),
    {
        let mut out: Vec<String> = Vec::new();
        let mut i: usize = self.mounts.len();
        while i > 0
            invariant
                i <= self.mounts.len(),
                out.len() == self.mounts.len() - i,
                forall|k: int|
                    0 <= k < out.len() ==> (#[trigger] out@[k])@ == self.mounts@[self.mounts.len() - 1
                        - k]@,
            decreases i,
        {
            out.push(self.mounts[i - 1].clone());
            i -= 1;
        }
        assert(texts(out@) =~= self@.reverse());
        out
    }
}

} // verus!
