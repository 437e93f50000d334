//! What to do when a file's destination already exists.
use vstd::prelude::*;
use crate::text::{candidate_name, rename_candidate, lemma_candidate_differs};

verus! {

/// How many numbered names are tried before a rename gives up and overwrites.
pub const RENAME_ATTEMPTS: u64 = 10000;

/// The configured answer to an existing destination.
#[derive(Clone, Copy, Debug, PartialEq, Eq, Structural)]
pub enum CollisionPolicy {
    Overwrite,
    Skip,
    Rename,
}

/// What to do with one file whose destination is known to exist or not.
#[derive(Clone, Copy, Debug, PartialEq, Eq, Structural)]
pub enum Resolution {
    /// Copy to the destination, replacing what is there.
    Write,
    /// Leave the destination alone and count the file as skipped.
    Skip,
    /// Copy under the first free numbered name beside the destination.
    Rename,
}

fn text_equals(a: &str, b: &str) -> (r: bool)
    ensures
        r == (a@ == b@),
{
    let n = a.unicode_len();
    if n != b.unicode_len() {
        return false;
    }
    let mut i: usize = 0;
    while i < n
        invariant
            n == a@.len() == b@.len(),
            i <= n,
            forall|j: int| 0 <= j < i ==> a@[j] == b@[j],
        decreases n - i,
    {
        if a.get_char(i) != b.get_char(i) {
            return false;
        }
        i = i + 1;
    }
    assert(a@ =~= b@);
    true
}

/// The policy a setting names: `skip`, `rename`, and anything else overwrites.
pub open spec fn policy_of(s: Seq<char>) -> CollisionPolicy {
    if s == "skip"@ {
        CollisionPolicy::Skip
    } else if s == "rename"@ {
        CollisionPolicy::Rename
    } else {
        CollisionPolicy::Overwrite
    }
}

/// Reads a collision setting.
pub fn parse_policy(s: &str) -> (p: CollisionPolicy)
    ensures
        p == policy_of(s@),
{
    if text_equals(s, "skip") {
        CollisionPolicy::Skip
    } else if text_equals(s, "rename") {
        CollisionPolicy::Rename
    } else {
        CollisionPolicy::Overwrite
    }
}

pub open spec fn resolution_of(dest_exists: bool, policy: CollisionPolicy) -> Resolution {
    if !dest_exists {
        Resolution::Write
    } else {
        match policy {
            CollisionPolicy::Overwrite => Resolution::Write,
            CollisionPolicy::Skip => Resolution::Skip,
            CollisionPolicy::Rename => Resolution::Rename,
        }
    }
}

/// A free destination is written; an existing one is overwritten, skipped or
/// renamed as the policy says.
pub fn resolve(dest_exists: bool, policy: CollisionPolicy) -> (r: Resolution)
    ensures
        r == resolution_of(dest_exists, policy),
{
    if !dest_exists {
        Resolution::Write
    } else {
        match policy {
            CollisionPolicy::Overwrite => Resolution::Write,
            CollisionPolicy::Skip => Resolution::Skip,
            CollisionPolicy::Rename => Resolution::Rename,
        }
    }
}

/// The probe answered `b` for some text equal to `s`.
pub open spec fn probed<F: Fn(&str) -> bool>(probe: F, s: Seq<char>, b: bool) -> bool {
    exists|x: &str| x@ == s && #[trigger] probe.ensures((x,), b)
}

/// The path itself when the probe says it is free; else the first numbered name
/// `stem_k.ext` (k from 1 up to the attempt limit) that the probe says is free;
/// else, as a last resort, the path itself.
pub fn find_available_name<F: Fn(&str) -> bool>(path: &str, is_taken: F) -> (r: String)
    requires
        forall|s: &str| #[trigger] is_taken.requires((s,)),
    ensures
        r@ == path@ ==> probed(is_taken, path@, false) || forall|k: nat|
            1 <= k <= RENAME_ATTEMPTS ==> #[trigger] probed(is_taken, candidate_name(path@, k), true),
        r@ != path@ ==> probed(is_taken, path@, true) && exists|k: nat|
            1 <= k <= RENAME_ATTEMPTS && r@ == candidate_name(path@, k) && probed(
                is_taken,
                #[trigger] candidate_name(path@, k),
                false,
            ) && forall|j: nat|
                1 <= j < k ==> #[trigger] probed(is_taken, candidate_name(path@, j), true),
{
    if !is_taken(path) {
        return String::from_str(path);
    }
    let mut counter: u64 = 1;
    while counter <= RENAME_ATTEMPTS
        invariant
            1 <= counter <= RENAME_ATTEMPTS + 1,
            probed(is_taken, path@, true),
            forall|j: nat| 1 <= j < counter ==> #[trigger] probed(is_taken, candidate_name(path@, j), true),
            forall|s: &str| #[trigger] is_taken.requires((s,)),
        decreases RENAME_ATTEMPTS + 1 - counter,
    {
        let candidate = rename_candidate(path, counter);
        let taken = is_taken(candidate.as_str());
        if !taken {
            proof {
                lemma_candidate_differs(path@, counter as nat);
                assert(probed(is_taken, candidate_name(path@, counter as nat), false));
            }
            return candidate;
        }
        assert(probed(is_taken, candidate_name(path@, counter as nat), true));
        counter = counter + 1;
    }
    String::from_str(path)
}

} // verus!
