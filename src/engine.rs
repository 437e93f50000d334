//! The decisions of a backup run: request checks, what happens to each walked
//! entry, the count that progress is measured against, and the final tally.
use vstd::prelude::*;
use vstd::string::*;
use crate::matcher::{PathMatcher, is_blacklisted, is_excluded, has_plain_component, path_components};
use crate::glob::is_plain_pattern;
use crate::text::{decimal, decimal_text, join, join_path};
use crate::collision::{CollisionPolicy, Resolution, resolution_of, resolve};

verus! {

/// Why a request is refused before any file is touched.
#[derive(Clone, Debug, PartialEq, Eq)]
pub enum RequestError {
    /// The list of sources is empty.
    NoSources,
    /// A source path does not exist.
    MissingSource(String),
    /// The target directory could not be created; the reason as the system gave it.
    TargetNotCreated(String),
}

pub open spec fn request_error_text(e: RequestError) -> Seq<char> {
    match e {
        RequestError::NoSources => "No source paths provided"@,
        RequestError::MissingSource(p) => "Source path does not exist: "@ + p@,
        RequestError::TargetNotCreated(why) => "Failed to create target directory: "@ + why@,
    }
}

impl RequestError {
    /// The message reported to the caller.
    pub fn message(&self) -> (r: String)
        ensures
            r@ == request_error_text(*self),
    {
        match self {
            RequestError::NoSources => String::from_str("No source paths provided"),
            RequestError::MissingSource(p) => {
                let mut r = String::from_str("Source path does not exist: ");
                r.append(p.as_str());
                r
            },
            RequestError::TargetNotCreated(why) => {
                let mut r = String::from_str("Failed to create target directory: ");
                r.append(why.as_str());
                r
            },
        }
    }
}

/// Checks the sources of a request, given whether each one exists: there must be
/// at least one, and the first that is missing is reported.
pub fn validate_sources(source_paths: &Vec<String>, exists: &Vec<bool>) -> (r: Result<
    (),
    RequestError,
>)
    requires
        exists@.len() == source_paths@.len(),
    ensures
        r == Err::<(), RequestError>(RequestError::NoSources) <==> source_paths@.len() == 0,
        source_paths@.len() > 0 && (forall|i: int| 0 <= i < exists@.len() ==> #[trigger] exists@[i])
            ==> r is Ok,
        r matches Err(RequestError::MissingSource(p)) ==> exists|i: int|
            0 <= i < exists@.len() && !#[trigger] exists@[i] && p@ == source_paths@[i]@ && (forall|
                j: int,
            | 0 <= j < i ==> #[trigger] exists@[j]),
        r is Err ==> r == Err::<(), RequestError>(RequestError::NoSources) || r->Err_0 is MissingSource,
        r is Ok ==> source_paths@.len() > 0 && forall|i: int| 0 <= i < exists@.len() ==> #[trigger] exists@[i],
{
    if source_paths.len() == 0 {
        return Err(RequestError::NoSources);
    }
    let mut i: usize = 0;
    while i < source_paths.len()
        invariant
            exists@.len() == source_paths@.len(),
            i <= source_paths@.len(),
            forall|j: int| 0 <= j < i ==> #[trigger] exists@[j],
        decreases source_paths@.len() - i,
    {
        if !exists[i] {
            return Err(RequestError::MissingSource(String::from_str(source_paths[i].as_str())));
        }
        i = i + 1;
    }
    Ok(())
}

/// Where a directory source is mirrored: under its own name when asked and when
/// it has one, else straight into the target.
pub open spec fn effective_target_of(target: Seq<char>, source_name: Seq<char>, include_source_name: bool) -> Seq<char> {
    if include_source_name && source_name.len() > 0 {
        join_path(target, source_name)
    } else {
        target
    }
}

/// The root a directory source is copied into.
pub fn effective_target(target: &str, source_name: &str, include_source_name: bool) -> (r: String)
    ensures
        r@ == effective_target_of(target@, source_name@, include_source_name),
{
    if include_source_name && source_name.unicode_len() > 0 {
        join(target, source_name)
    } else {
        String::from_str(target)
    }
}

/// What a walked path turned out to be.
#[derive(Clone, Copy, Debug, PartialEq, Eq, Structural)]
pub enum EntryKind {
    Dir,
    File,
    /// Neither a directory nor a regular file (a dangling link, a device).
    Other,
}

/// One entry of a source walk, by its path relative to the source root.
#[derive(Clone, Debug)]
pub struct WalkEntry {
    pub relative_path: String,
    pub kind: EntryKind,
}

/// What the run does with one walked entry.
#[derive(Clone, Copy, Debug, PartialEq, Eq, Structural)]
pub enum EntryAction {
    /// The blacklist excludes it: nothing happens.
    Excluded,
    /// Create the destination directory.
    MakeDir,
    /// Copy the file to the destination, after collision handling.
    CopyFile,
    /// Neither a directory nor a file: nothing happens.
    Ignored,
}

/// An entry's action and the destination it maps to.
#[derive(Clone, Debug)]
pub struct EntryPlan {
    pub action: EntryAction,
    pub destination: String,
}

pub open spec fn action_of(globs: Seq<Seq<char>>, rel: Seq<char>, kind: EntryKind) -> EntryAction {
    if is_excluded(globs, rel) {
        EntryAction::Excluded
    } else {
        match kind {
            EntryKind::Dir => EntryAction::MakeDir,
            EntryKind::File => EntryAction::CopyFile,
            EntryKind::Other => EntryAction::Ignored,
        }
    }
}

/// Plans one entry of a directory source copied into `root`: excluded entries are
/// left alone, the others map to `root` joined with their relative path.
pub fn plan_entry(matcher: &PathMatcher, root: &str, entry: &WalkEntry) -> (r: EntryPlan)
    ensures
        r.action == action_of(matcher@, entry.relative_path@, entry.kind),
        r.destination@ == join_path(root@, entry.relative_path@),
        has_plain_component(matcher@, entry.relative_path@) ==> r.action == EntryAction::Excluded,
{
    let destination = join(root, entry.relative_path.as_str());
    let action = if is_blacklisted(entry.relative_path.as_str(), matcher) {
        EntryAction::Excluded
    } else {
        match entry.kind {
            EntryKind::Dir => EntryAction::MakeDir,
            EntryKind::File => EntryAction::CopyFile,
            EntryKind::Other => EntryAction::Ignored,
        }
    };
    EntryPlan { action, destination }
}

/// Plans a source that is a single file: it goes straight into the target under
/// its own name, unless the blacklist excludes that name.
pub fn plan_single_file(matcher: &PathMatcher, target: &str, file_name: &str) -> (r: EntryPlan)
    ensures
        r.action == action_of(matcher@, file_name@, EntryKind::File),
        r.destination@ == join_path(target@, file_name@),
        has_plain_component(matcher@, file_name@) ==> r.action == EntryAction::Excluded,
{
    let entry = WalkEntry { relative_path: String::from_str(file_name), kind: EntryKind::File };
    plan_entry(matcher, target, &entry)
}

/// Whether an entry is a file that the blacklist lets through.
pub open spec fn is_counted(globs: Seq<Seq<char>>, e: WalkEntry) -> bool {
    e.kind == EntryKind::File && !is_excluded(globs, e.relative_path@)
}

/// How many entries are files that the blacklist lets through.
pub open spec fn counted_files(globs: Seq<Seq<char>>, entries: Seq<WalkEntry>) -> nat
    decreases entries.len(),
{
    if entries.len() == 0 {
        0
    } else {
        counted_files(globs, entries.drop_last()) + if is_counted(globs, entries.last()) {
            1nat
        } else {
            0nat
        }
    }
}

proof fn lemma_counted_bound(globs: Seq<Seq<char>>, entries: Seq<WalkEntry>)
    ensures
        counted_files(globs, entries) <= entries.len(),
    decreases entries.len(),
{
    if entries.len() > 0 {
        lemma_counted_bound(globs, entries.drop_last());
    }
}

/// The number of files a run will copy, over the entries of every source (a
/// single-file source is one entry named by its file name); directories are not
/// counted.
pub fn count_files_multi(entries: &Vec<WalkEntry>, matcher: &PathMatcher) -> (r: u64)
    ensures
        r == counted_files(matcher@, entries@),
{
    let mut count: u64 = 0;
    let mut i: usize = 0;
    while i < entries.len()
        invariant
            i <= entries@.len(),
            count == counted_files(matcher@, entries@.subrange(0, i as int)),
        decreases entries@.len() - i,
    {
        proof {
            assert(entries@.subrange(0, i + 1).drop_last() =~= entries@.subrange(0, i as int));
            lemma_counted_bound(matcher@, entries@.subrange(0, i as int));
        }
        let e = &entries[i];
        if e.kind == EntryKind::File && !is_blacklisted(e.relative_path.as_str(), matcher) {
            count = count + 1;
        }
        i = i + 1;
    }
    assert(entries@.subrange(0, entries@.len() as int) =~= entries@);
    count
}

/// The closing message of a run: the copy count, then the skip count when there
/// were no errors, or the error count when there were.
pub open spec fn summary_text(copied: nat, skipped: nat, errors: nat) -> Seq<char> {
    if errors == 0 {
        if skipped > 0 {
            "Copied "@ + decimal(copied) + " files, skipped "@ + decimal(skipped)
        } else {
            "Successfully copied "@ + decimal(copied) + " files"@
        }
    } else {
        "Copied "@ + decimal(copied) + " files with "@ + decimal(errors) + " errors"@
    }
}

/// Builds the closing message of a run.
pub fn summary_message(copied: u64, skipped: u64, errors: u64) -> (r: String)
    ensures
        r@ == summary_text(copied as nat, skipped as nat, errors as nat),
{
    if errors == 0 {
        if skipped > 0 {
            let mut r = String::from_str("Copied ");
            r.append(decimal_text(copied).as_str());
            r.append(" files, skipped ");
            r.append(decimal_text(skipped).as_str());
            r
        } else {
            let mut r = String::from_str("Successfully copied ");
            r.append(decimal_text(copied).as_str());
            r.append(" files");
            r
        }
    } else {
        let mut r = String::from_str("Copied ");
        r.append(decimal_text(copied).as_str());
        r.append(" files with ");
        r.append(decimal_text(errors).as_str());
        r.append(" errors");
        r
    }
}

/// Sent after each file copied.
#[derive(Clone, Debug)]
pub struct ProgressEvent {
    pub current_file: String,
    pub copied_count: u64,
    pub skipped_count: u64,
    pub total_count: u64,
}

/// The outcome of a whole run.
#[derive(Clone, Debug)]
pub struct BackupResult {
    pub success: bool,
    pub copied_count: u64,
    pub skipped_count: u64,
    pub message: String,
}

/// The running counts of a backup, shared by all its sources, with the entries
/// settled so far.
pub struct BackupTally {
    pub copied: u64,
    pub skipped: u64,
    /// One message for each failed operation.
    pub errors: Vec<String>,
    /// The number of files the counting pass found.
    pub total: u64,
    /// The policy for existing destinations, fixed for the run.
    pub policy: CollisionPolicy,
    /// The glob texts of the matcher the run uses.
    pub globs: Ghost<Seq<Seq<char>>>,
    /// The walked entries settled so far, in order.
    pub walked: Ghost<Seq<WalkEntry>>,
    /// For each settled entry, whether its destination existed.
    pub found: Ghost<Seq<bool>>,
}

impl BackupTally {
    /// While nothing has failed, the counts are those of a clean run over the
    /// entries settled so far.
    pub open spec fn counts_follow_entries(&self) -> bool {
        &&& self.walked@.len() == self.found@.len()
        &&& self.errors@.len() == 0 ==> (self.copied as nat, self.skipped as nat)
            == clean_run_counts(self.globs@, self.walked@, self.found@, self.policy)
    }

    /// Nothing done yet, against the given total, policy and matcher.
    pub fn new(total: u64, policy: CollisionPolicy, matcher: &PathMatcher) -> (t: BackupTally)
        ensures
            t.copied == 0,
            t.skipped == 0,
            t.errors@.len() == 0,
            t.total == total,
            t.policy == policy,
            t.globs@ == matcher@,
            t.walked@.len() == 0,
            t.counts_follow_entries(),
    {
        BackupTally {
            copied: 0,
            skipped: 0,
            errors: Vec::new(),
            total,
            policy,
            globs: Ghost(matcher@),
            walked: Ghost(Seq::empty()),
            found: Ghost(Seq::empty()),
        }
    }

    /// Records a failed operation that belongs to no single walked file (a
    /// directory that could not be created, an unreadable entry); the run goes on.
    pub fn record_error(&mut self, message: String)
        ensures
            final(self).errors@ == old(self).errors@.push(message),
            final(self).copied == old(self).copied,
            final(self).skipped == old(self).skipped,
            final(self).total == old(self).total,
            final(self).policy == old(self).policy,
            final(self).globs == old(self).globs,
            final(self).walked == old(self).walked,
            final(self).found == old(self).found,
            old(self).counts_follow_entries() ==> final(self).counts_follow_entries(),
    {
        self.errors.push(message);
    }

    /// Settles one walked entry once its copy, if any, was attempted. A file that
    /// the blacklist lets through is skipped when its destination existed and the
    /// policy says so; otherwise it is counted as copied and reported by a progress
    /// event, or, when the copy failed, its failure is kept. Other entries change
    /// no count.
    pub fn settle_entry(
        &mut self,
        matcher: &PathMatcher,
        entry: &WalkEntry,
        dest_exists: bool,
        failure: Option<String>,
    ) -> (ev: Option<ProgressEvent>)
        requires
            old(self).globs@ == matcher@,
            old(self).copied < u64::MAX,
            old(self).skipped < u64::MAX,
        ensures
            final(self).walked@ == old(self).walked@.push(*entry),
            final(self).found@ == old(self).found@.push(dest_exists),
            final(self).globs == old(self).globs,
            final(self).policy == old(self).policy,
            final(self).total == old(self).total,
            old(self).counts_follow_entries() ==> final(self).counts_follow_entries(),
            !is_counted(matcher@, *entry) ==> final(self).copied == old(self).copied,
            !is_counted(matcher@, *entry) ==> final(self).skipped == old(self).skipped,
            !is_counted(matcher@, *entry) ==> final(self).errors@ == old(self).errors@,
            !is_counted(matcher@, *entry) ==> ev is None,
            is_counted(matcher@, *entry) && resolution_of(dest_exists, old(self).policy)
                == Resolution::Skip ==> final(self).copied == old(self).copied,
            is_counted(matcher@, *entry) && resolution_of(dest_exists, old(self).policy)
                == Resolution::Skip ==> final(self).skipped == old(self).skipped + 1,
            is_counted(matcher@, *entry) && resolution_of(dest_exists, old(self).policy)
                == Resolution::Skip ==> final(self).errors@ == old(self).errors@,
            is_counted(matcher@, *entry) && resolution_of(dest_exists, old(self).policy)
                == Resolution::Skip ==> ev is None,
            is_counted(matcher@, *entry) && resolution_of(dest_exists, old(self).policy)
                != Resolution::Skip && failure is None ==> final(self).copied == old(self).copied + 1,
            is_counted(matcher@, *entry) && resolution_of(dest_exists, old(self).policy)
                != Resolution::Skip && failure is None ==> final(self).skipped == old(self).skipped,
            is_counted(matcher@, *entry) && resolution_of(dest_exists, old(self).policy)
                != Resolution::Skip && failure is None ==> final(self).errors@ == old(self).errors@,
            is_counted(matcher@, *entry) && resolution_of(dest_exists, old(self).policy)
                != Resolution::Skip && failure is None ==> ev is Some,
            is_counted(matcher@, *entry) && resolution_of(dest_exists, old(self).policy)
                != Resolution::Skip && failure is Some ==> final(self).copied == old(self).copied,
            is_counted(matcher@, *entry) && resolution_of(dest_exists, old(self).policy)
                != Resolution::Skip && failure is Some ==> final(self).skipped == old(self).skipped,
            is_counted(matcher@, *entry) && resolution_of(dest_exists, old(self).policy)
                != Resolution::Skip && failure is Some ==> final(self).errors@ == old(self).errors@.push(failure->0),
            is_counted(matcher@, *entry) && resolution_of(dest_exists, old(self).policy)
                != Resolution::Skip && failure is Some ==> ev is None,
            ev is Some ==> ev->0.current_file@ == entry.relative_path@,
            ev is Some ==> ev->0.copied_count == final(self).copied,
            ev is Some ==> ev->0.skipped_count == final(self).skipped,
            ev is Some ==> ev->0.total_count == final(self).total,
    {
        let ghost walked0 = self.walked@;
        let ghost found0 = self.found@;
        self.walked = Ghost(self.walked@.push(*entry));
        self.found = Ghost(self.found@.push(dest_exists));
        proof {
            assert(self.walked@.drop_last() =~= walked0);
            if walked0.len() == found0.len() {
                assert(self.found@.take(walked0.len() as int) =~= found0);
            }
        }
        let counted = entry.kind == EntryKind::File && !is_blacklisted(
            entry.relative_path.as_str(),
            matcher,
        );
        if !counted {
            return None;
        }
        if resolve(dest_exists, self.policy) == Resolution::Skip {
            self.skipped = self.skipped + 1;
            return None;
        }
        match failure {
            None => {
                self.copied = self.copied + 1;
                Some(
                    ProgressEvent {
                        current_file: String::from_str(entry.relative_path.as_str()),
                        copied_count: self.copied,
                        skipped_count: self.skipped,
                        total_count: self.total,
                    },
                )
            },
            Some(message) => {
                self.errors.push(message);
                None
            },
        }
    }

    /// The result of the run: successful exactly when nothing failed.
    pub fn finish(&self) -> (r: BackupResult)
        ensures
            r.success == (self.errors@.len() == 0),
            r.copied_count == self.copied,
            r.skipped_count == self.skipped,
            r.message@ == summary_text(
                self.copied as nat,
                self.skipped as nat,
                self.errors@.len() as nat,
            ),
    {
        let n = self.errors.len() as u64;
        BackupResult {
            success: self.errors.len() == 0,
            copied_count: self.copied,
            skipped_count: self.skipped,
            message: summary_message(self.copied, self.skipped, n),
        }
    }
}

/// The copy and skip counts of a run in which no operation fails: every counted
/// file is skipped when its destination exists and the policy is to skip, and
/// copied otherwise. `dest_exists[i]` says whether entry `i`'s destination existed.
pub open spec fn clean_run_counts(
    globs: Seq<Seq<char>>,
    entries: Seq<WalkEntry>,
    dest_exists: Seq<bool>,
    policy: CollisionPolicy,
) -> (nat, nat)
    decreases entries.len(),
{
    if entries.len() == 0 {
        (0, 0)
    } else {
        let n = entries.len() - 1;
        let (c, s) = clean_run_counts(globs, entries.drop_last(), dest_exists.take(n), policy);
        if !is_counted(globs, entries.last()) {
            (c, s)
        } else if resolution_of(dest_exists[n], policy) == Resolution::Skip {
            (c, s + 1)
        } else {
            (c + 1, s)
        }
    }
}

proof fn lemma_clean_run_meets_total(
    globs: Seq<Seq<char>>,
    entries: Seq<WalkEntry>,
    dest_exists: Seq<bool>,
    policy: CollisionPolicy,
)
    requires
        dest_exists.len() == entries.len(),
    ensures
        clean_run_counts(globs, entries, dest_exists, policy).0 + clean_run_counts(
            globs,
            entries,
            dest_exists,
            policy,
        ).1 == counted_files(globs, entries),
    decreases entries.len(),
{
    if entries.len() > 0 {
        let n = entries.len() - 1;
        lemma_clean_run_meets_total(globs, entries.drop_last(), dest_exists.take(n), policy);
    }
}

proof fn lemma_skip_rerun(
    globs: Seq<Seq<char>>,
    entries: Seq<WalkEntry>,
    dest_exists: Seq<bool>,
)
    requires
        dest_exists.len() == entries.len(),
        forall|i: int| 0 <= i < dest_exists.len() ==> #[trigger] dest_exists[i],
    ensures
        clean_run_counts(globs, entries, dest_exists, CollisionPolicy::Skip) == (
        0nat,
        counted_files(globs, entries),
        ),
    decreases entries.len(),
{
    if entries.len() > 0 {
        let n = entries.len() - 1;
        let d = dest_exists.take(n);
        assert forall|i: int| 0 <= i < d.len() implies #[trigger] d[i] by {
            assert(d[i] == dest_exists[i]);
        }
        lemma_skip_rerun(globs, entries.drop_last(), d);
    }
}

/// When the tree does not change between the counting pass and the copy pass
/// (the settled entries are those the total was counted over) and nothing fails,
/// the files copied and skipped add up to the total.
pub proof fn lemma_tally_meets_total(t: BackupTally)
    requires
        t.counts_follow_entries(),
        t.errors@.len() == 0,
        t.total == counted_files(t.globs@, t.walked@),
    ensures
        t.copied + t.skipped == t.total,
{
    lemma_clean_run_meets_total(t.globs@, t.walked@, t.found@, t.policy);
}

/// Re-running a backup with the skip policy into a target where every destination
/// already exists copies nothing and skips every file the blacklist lets through.
pub proof fn lemma_tally_skip_rerun(t: BackupTally)
    requires
        t.counts_follow_entries(),
        t.errors@.len() == 0,
        t.policy == CollisionPolicy::Skip,
        forall|i: int| 0 <= i < t.found@.len() ==> #[trigger] t.found@[i],
    ensures
        t.copied == 0,
        t.skipped == counted_files(t.globs@, t.walked@),
{
    lemma_skip_rerun(t.globs@, t.walked@, t.found@);
}

/// A blacklist that holds a name without glob syntax excludes every path with a
/// component of that name, at any depth.
pub proof fn lemma_named_component_excluded(globs: Seq<Seq<char>>, rel: Seq<char>, name: Seq<char>)
    requires
        globs.contains(name),
        is_plain_pattern(name),
        path_components(rel).contains(name),
    ensures
        has_plain_component(globs, rel),
{
    let k = choose|k: int| 0 <= k < globs.len() && globs[k] == name;
    let j = choose|j: int| 0 <= j < path_components(rel).len() && path_components(rel)[j] == name;
    assert(is_plain_pattern(globs[k]) && globs[k] == path_components(rel)[j]);
}

} // verus!
