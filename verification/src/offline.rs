//! Closed-network asset seeding: the maintenance argument, the overlap rule
//! between source and destination, and what each source entry leads to.
//! Reading directories and copying bytes is left to the caller.
use vstd::prelude::*;
use crate::text::{chars_eq, to_chars};

verus! {

// ------------------------------------------------------------ the argument

/// The maintenance flag that names an asset source directory.
pub open spec fn seed_flag() -> Seq<char> {
    "--seed-resources"@
}

/// The error for a flag that occurs twice.
pub open spec fn repeated_flag_message() -> Seq<char> {
    "--seed-resources may be specified only once"@
}

/// The error for a flag without a usable value.
pub open spec fn missing_value_message() -> Seq<char> {
    "--seed-resources requires a source directory"@
}

/// A usable source directory: not empty and not starting with `-`.
pub open spec fn is_seed_value(v: Seq<char>) -> bool {
    v.len() > 0 && v[0] != '-'
}

/// Scans `args` from position `i` with `source` found so far: other arguments
/// are passed over, the flag takes the next argument as its value, a second
/// flag or a flag without a usable value is an error.
pub open spec fn seed_scan(
    args: Seq<Seq<char>>,
    i: int,
    source: Option<Seq<char>>,
) -> Result<Option<Seq<char>>, Seq<char>>
    decreases args.len() - i,
{
    if i >= args.len() {
        Ok(source)
    } else if args[i] != seed_flag() {
        seed_scan(args, i + 1, source)
    } else if source is Some {
        Err(repeated_flag_message())
    } else if i + 1 < args.len() && is_seed_value(args[i + 1]) {
        seed_scan(args, i + 2, Some(args[i + 1]))
    } else {
        Err(missing_value_message())
    }
}

/// The source directory named on a command line whose first argument is the
/// program itself.
pub open spec fn seed_argument(args: Seq<Seq<char>>) -> Result<Option<Seq<char>>, Seq<char>> {
    seed_scan(args, 1, None)
}

/// The characters of each string.
pub open spec fn string_views(v: Seq<String>) -> Seq<Seq<char>> {
    v.map_values(|s: String| s@)
}

/// An optional string taken by its characters.
pub open spec fn option_view(o: Option<String>) -> Option<Seq<char>> {
    match o {
        Some(s) => Some(s@),
        None => None,
    }
}

/// A parse result taken by the characters of its strings.
pub open spec fn argument_view(r: Result<Option<String>, String>) -> Result<Option<Seq<char>>, Seq<char>> {
    match r {
        Ok(Some(s)) => Ok(Some(s@)),
        Ok(None) => Ok(None),
        Err(e) => Err(e@),
    }
}

/// Parses the optional `--seed-resources <dir>` argument; `args[0]` is the
/// program and is never read as the flag.
pub fn seed_resources_argument(args: &[String]) -> (res: Result<Option<String>, String>)
    ensures
        argument_view(res) == seed_argument(string_views(args@)),
{
    let ghost view = string_views(args@);
    let flag = to_chars("--seed-resources");
    let mut source: Option<String> = None;
    let mut i: usize = 1;
    while i < args.len()
        invariant
            1 <= i <= args@.len() + 1,
            view == string_views(args@),
            flag@ == seed_flag(),
            seed_scan(view, i as int, option_view(source)) == seed_argument(view),
        decreases args@.len() + 1 - i,
    {
        let current = to_chars(args[i].as_str());
        proof {
            assert(current@ == view[i as int]);
        }
        if !chars_eq(&current, &flag) {
            i = i + 1;
        } else {
            if source.is_some() {
                return Err(String::from_str("--seed-resources may be specified only once"));
            }
            if i + 1 >= args.len() {
                return Err(String::from_str("--seed-resources requires a source directory"));
            }
            let value = to_chars(args[i + 1].as_str());
            proof {
                assert(value@ == view[i + 1]);
            }
            if value.len() == 0 || value[0] == '-' {
                return Err(String::from_str("--seed-resources requires a source directory"));
            }
            source = Some(args[i + 1].clone());
            i = i + 2;
        }
    }
    Ok(source)
}

// ------------------------------------------------------------------ report

/// How many files a seeding pass copied and how many it left in place.
#[derive(Debug, PartialEq, Eq)]
pub struct SeedReport {
    pub copied: usize,
    pub skipped: usize,
}

impl Default for SeedReport {
    fn default() -> (r: Self)
        ensures
            r.copied == 0,
            r.skipped == 0,
    {
        SeedReport { copied: 0, skipped: 0 }
    }
}

impl SeedReport {
    /// Counts one file written to the destination.
    pub fn note_copied(&mut self)
        requires
            old(self).copied < usize::MAX,
        ensures
            final(self).copied == old(self).copied + 1,
            final(self).skipped == old(self).skipped,
    {
        self.copied = self.copied + 1;
    }

    /// Counts one file left as it was because the destination already held it.
    pub fn note_skipped(&mut self)
        requires
            old(self).skipped < usize::MAX,
        ensures
            final(self).skipped == old(self).skipped + 1,
            final(self).copied == old(self).copied,
    {
        self.skipped = self.skipped + 1;
    }
}

// ----------------------------------------------------------------- overlap

/// `prefix` is a leading run of components of `path`.
pub open spec fn starts_with(path: Seq<Seq<char>>, prefix: Seq<Seq<char>>) -> bool {
    prefix.len() <= path.len() && path.take(prefix.len() as int) == prefix
}

/// Two canonical paths, given by their components, are equal or one lies
/// inside the other.
pub open spec fn paths_overlap(source: Seq<Seq<char>>, destination: Seq<Seq<char>>) -> bool {
    source == destination || starts_with(source, destination) || starts_with(destination, source)
}

fn components_start_with(path: &Vec<String>, prefix: &Vec<String>) -> (res: bool)
    ensures
        res == starts_with(string_views(path@), string_views(prefix@)),
{
    let ghost p = string_views(path@);
    let ghost q = string_views(prefix@);
    if prefix.len() > path.len() {
        return false;
    }
    let mut i: usize = 0;
    while i < prefix.len()
        invariant
            prefix@.len() <= path@.len(),
            i <= prefix@.len(),
            p == string_views(path@),
            q == string_views(prefix@),
            forall|k: int| 0 <= k < i ==> p[k] == q[k],
        decreases prefix@.len() - i,
    {
        if path[i] != prefix[i] {
            proof {
                assert(p[i as int] != q[i as int]);
                assert(p.take(q.len() as int)[i as int] == p[i as int]);
            }
            return false;
        }
        i = i + 1;
    }
    proof {
        assert(p.take(q.len() as int) =~= q);
    }
    true
}

/// Whether the canonical asset source and destination overlap, which makes a
/// seeding pass refuse to copy anything.
pub fn seed_paths_overlap(source: &Vec<String>, destination: &Vec<String>) -> (res: bool)
    ensures
        res == paths_overlap(string_views(source@), string_views(destination@)),
{
    let inner = components_start_with(source, destination);
    let outer = components_start_with(destination, source);
    proof {
        let s = string_views(source@);
        let d = string_views(destination@);
        assert(s.take(s.len() as int) =~= s);
        if inner && outer {
            assert(s =~= d);
        }
    }
    inner || outer
}

// ------------------------------------------------------------------- steps

/// What a directory entry of the asset source is.
#[derive(Debug, Clone, Copy, PartialEq, Eq)]
pub enum SourceEntry {
    Directory,
    File,
    Symlink,
    Other,
}

/// What stands at the matching destination path, as its own metadata (not
/// following a link) shows it.
#[derive(Debug, Clone, Copy, PartialEq, Eq)]
pub enum DestinationEntry {
    Missing,
    Directory,
    File,
    Other,
}

/// What seeding does with one source entry.
#[derive(Debug, Clone, Copy, PartialEq, Eq)]
pub enum SeedStep {
    /// Descend into a directory that already exists at the destination.
    EnterDirectory,
    /// Create the destination directory, then descend into it.
    CreateDirectory,
    /// Copy the file to a destination path that holds nothing yet.
    CopyFile,
    /// Leave the destination file as it is and count it as skipped.
    SkipExisting,
    /// Links are not offline assets (an invalid-input error).
    RejectSymlink,
    /// Neither file, directory nor link (an invalid-input error).
    RejectUnsupported,
    /// A directory whose destination is something else (an already-exists error).
    RejectDirectoryTarget,
    /// A file whose destination is something else (an already-exists error).
    RejectFileTarget,
}

/// The step for a source entry and what its destination holds.
pub open spec fn seed_step_spec(source: SourceEntry, destination: DestinationEntry) -> SeedStep {
    match source {
        SourceEntry::Symlink => SeedStep::RejectSymlink,
        SourceEntry::Other => SeedStep::RejectUnsupported,
        SourceEntry::Directory => match destination {
            DestinationEntry::Directory => SeedStep::EnterDirectory,
            DestinationEntry::Missing => SeedStep::CreateDirectory,
            _ => SeedStep::RejectDirectoryTarget,
        },
        SourceEntry::File => match destination {
            DestinationEntry::File => SeedStep::SkipExisting,
            DestinationEntry::Missing => SeedStep::CopyFile,
            _ => SeedStep::RejectFileTarget,
        },
    }
}

/// Decides what seeding does with one source entry. A file is copied only to
/// a destination path that holds nothing, so seeding never replaces anything;
/// for links and other entries the destination is not consulted.
pub fn seed_step(source: SourceEntry, destination: DestinationEntry) -> (step: SeedStep)
    ensures
        step == seed_step_spec(source, destination),
        step == SeedStep::CopyFile ==> destination == DestinationEntry::Missing,
        step == SeedStep::CreateDirectory ==> destination == DestinationEntry::Missing,
        (source == SourceEntry::Symlink || source == SourceEntry::Other) ==> forall|d: DestinationEntry|
            #[trigger] seed_step_spec(source, d) == step,
{
    match source {
        SourceEntry::Symlink => SeedStep::RejectSymlink,
        SourceEntry::Other => SeedStep::RejectUnsupported,
        SourceEntry::Directory => match destination {
            DestinationEntry::Directory => SeedStep::EnterDirectory,
            DestinationEntry::Missing => SeedStep::CreateDirectory,
            _ => SeedStep::RejectDirectoryTarget,
        },
        SourceEntry::File => match destination {
            DestinationEntry::File => SeedStep::SkipExisting,
            DestinationEntry::Missing => SeedStep::CopyFile,
            _ => SeedStep::RejectFileTarget,
        },
    }
}

} // verus!
