use vstd::prelude::*;
use vstd::string::StringExecFns;
use vstd::utf8::encode_scalar;
use vstd::utf8::encode_utf8;
use vstd::utf8::has_width_1_encoding;
use crate::commit::commit_bytes;
use crate::commit::commit_id;
use crate::commit::is_commit_id;
use crate::language::Language;
use crate::language::LanguageView;
use crate::registry::merged;
use crate::registry::Registry;

verus! {

/// One unit of synchronisation: a language and the directory that its working
/// copy occupies.
#[derive(Debug)]
pub struct SyncJob {
    pub language: Language,
    pub destination: String,
}

/// Why the synchronisation of one entry failed.
#[derive(Debug)]
pub enum SyncFailure {
    /// The clone failed, with the underlying message.
    CloneFailed(String),
    /// The pinned commit is no commit identifier; the clone stays at its
    /// default tip.
    InvalidCommit(String),
    /// Detaching the head at the pinned commit failed, with the underlying
    /// message; the clone stays at its default tip.
    CheckoutFailed(String),
}

/// The result of synchronising one entry.
#[derive(Debug)]
pub enum SyncOutcome {
    Succeeded,
    Failed(SyncFailure),
}

/// What the caller saw happen, handed back to `next_action`.
#[derive(Debug)]
pub enum SyncEvent {
    /// Nothing has been done yet.
    Start,
    /// The old working copy was removed.
    DirectoryRemoved,
    /// There was no old working copy.
    DirectoryAbsent,
    /// Removing the old working copy failed for another reason; this is
    /// reported and the clone is tried all the same.
    RemovalFailed(String),
    /// The clone succeeded.
    Cloned,
    /// The clone failed, with the underlying message.
    CloneFailed(String),
    /// The head is detached at the pinned commit.
    HeadDetached,
    /// Detaching the head failed, with the underlying message.
    CheckoutFailed(String),
}

/// What the caller is to do next.
#[derive(Debug)]
pub enum SyncAction {
    /// Remove this directory recursively.
    RemoveDirectory(String),
    /// Clone `source` into `destination`.
    Clone { source: String, destination: String },
    /// Detach the head of the fresh clone at the object id with these bytes.
    DetachHead(Vec<u8>),
    /// The entry is done.
    Finish(SyncOutcome),
}

/// The step of one entry's synchronisation that follows `event`: remove the
/// old copy, clone whether or not the removal worked, then either finish or,
/// for a pinned commit, detach the head there. Every failure ends this entry
/// alone.
pub fn next_action(job: &SyncJob, event: SyncEvent) -> (r: SyncAction)
    ensures
        match event {
            SyncEvent::Start => r matches SyncAction::RemoveDirectory(d) && d@
                == job.destination@,
            SyncEvent::DirectoryRemoved | SyncEvent::DirectoryAbsent | SyncEvent::RemovalFailed(
                _,
            ) => r matches SyncAction::Clone { source, destination } && source@
                == job.language.git@ && destination@ == job.destination@,
            SyncEvent::Cloned => match job.language.hash {
                None => r matches SyncAction::Finish(SyncOutcome::Succeeded),
                Some(h) => if is_commit_id(h@) {
                    r matches SyncAction::DetachHead(b) && b@ == commit_bytes(h@)
                } else {
                    r matches SyncAction::Finish(SyncOutcome::Failed(SyncFailure::InvalidCommit(c)))
                        && c@ == h@
                },
            },
            SyncEvent::CloneFailed(m) => r matches SyncAction::Finish(
                SyncOutcome::Failed(SyncFailure::CloneFailed(m2)),
            ) && m2@ == m@,
            SyncEvent::HeadDetached => r matches SyncAction::Finish(SyncOutcome::Succeeded),
            SyncEvent::CheckoutFailed(m) => r matches SyncAction::Finish(
                SyncOutcome::Failed(SyncFailure::CheckoutFailed(m2)),
            ) && m2@ == m@,
        },
{
    match event {
        SyncEvent::Start => SyncAction::RemoveDirectory(job.destination.clone()),
        SyncEvent::DirectoryRemoved | SyncEvent::DirectoryAbsent | SyncEvent::RemovalFailed(_) => {
            SyncAction::Clone {
                source: job.language.git.clone(),
                destination: job.destination.clone(),
            }
        },
        SyncEvent::Cloned => match &job.language.hash {
            None => SyncAction::Finish(SyncOutcome::Succeeded),
            Some(h) => match commit_id(h) {
                Some(bytes) => SyncAction::DetachHead(bytes),
                None => SyncAction::Finish(
                    SyncOutcome::Failed(SyncFailure::InvalidCommit(h.clone())),
                ),
            },
        },
        SyncEvent::CloneFailed(m) => SyncAction::Finish(
            SyncOutcome::Failed(SyncFailure::CloneFailed(m)),
        ),
        SyncEvent::HeadDetached => SyncAction::Finish(SyncOutcome::Succeeded),
        SyncEvent::CheckoutFailed(m) => SyncAction::Finish(
            SyncOutcome::Failed(SyncFailure::CheckoutFailed(m)),
        ),
    }
}

/// Why an update request selects nothing.
#[derive(Debug)]
pub enum UpdateError {
    /// No entry has this key; nothing is synchronised.
    EntryNotFound(String),
    /// Neither a key nor "all" was asked for.
    NoSelection,
}

/// Whether a separator must stand between `base` and a name joined to it.
pub open spec fn needs_separator(base: Seq<char>) -> bool {
    base.len() > 0 && base.last() != '/'
}

/// The working copy of a language lies in the base directory, under the
/// language's name.
pub open spec fn destination_of(base: Seq<char>, l: LanguageView) -> Seq<char> {
    if needs_separator(base) {
        base + seq!['/'] + l.name
    } else {
        base + l.name
    }
}

proof fn lemma_scalar_last_byte(c: char)
    ensures
        encode_scalar(c as u32).len() > 0,
        (encode_scalar(c as u32).last() == 0x2Fu8) == (c == '/'),
{
    let v = c as u32;
    if has_width_1_encoding(v) {
        assert((v & 0x7F) == v) by (bit_vector)
            requires
                v <= 0x7F,
        ;
    } else {
        let x = (v & 0x3F) as u8;
        assert(0x80u8 | x != 0x2Fu8) by (bit_vector);
    }
}

proof fn lemma_encode_last(s: Seq<char>)
    requires
        s.len() > 0,
    ensures
        encode_utf8(s).len() > 0,
        encode_utf8(s).last() == encode_scalar(s.last() as u32).last(),
    decreases s.len(),
{
    lemma_scalar_last_byte(s[0]);
    let head = encode_scalar(s[0] as u32);
    let tail = encode_utf8(s.drop_first());
    assert(encode_utf8(s) == head + tail);
    if s.len() > 1 {
        lemma_encode_last(s.drop_first());
        assert(s.drop_first().last() == s.last());
        assert((head + tail).last() == tail.last());
    } else {
        assert(tail.len() == 0);
        assert(head + tail =~= head);
    }
}

/// Tells whether a separator must follow `base` before a name.
fn separator_needed(base: &String) -> (r: bool)
    ensures
        r == needs_separator(base@),
{
    let b = base.as_str().as_bytes();
    proof {
        if base@.len() > 0 {
            lemma_encode_last(base@);
            lemma_scalar_last_byte(base@.last());
        }
    }
    if b.len() == 0 {
        false
    } else {
        b[b.len() - 1] != 47
    }
}

pub open spec fn job_for(j: SyncJob, l: LanguageView, base: Seq<char>) -> bool {
    j.language@ == l && j.destination@ == destination_of(base, l)
}

/// The name under which a grammar registered as `name` is cloned.
pub open spec fn grammar_name(name: Seq<char>) -> Seq<char> {
    "tree-sitter-"@ + name
}

fn copy_language(l: &Language) -> (r: Language)
    ensures
        r@ == l@,
{
    let hash = match &l.hash {
        Some(h) => Some(h.clone()),
        None => None,
    };
    Language::new(l.name.clone(), l.git.clone(), hash)
}

fn job_of(l: &Language, directory: &String) -> (r: SyncJob)
    ensures
        job_for(r, l@, directory@),
{
    let mut destination = directory.clone();
    if separator_needed(directory) {
        destination.append("/");
        proof {
            reveal_strlit("/");
        }
    }
    destination.append(l.name.as_str());
    proof {
        assert(destination@ =~= destination_of(directory@, l@));
    }
    SyncJob { language: copy_language(l), destination }
}

/// Selects what an update request synchronises: the entry under `name` where
/// one is given, else every entry in key order where `all` is set.
pub fn plan_update(registry: &Registry, name: Option<String>, all: bool, directory: &String) -> (r:
    Result<Vec<SyncJob>, UpdateError>)
    requires
        registry.wf(),
    ensures
        match name {
            Some(n) => if registry@.contains_key(n@) {
                r matches Ok(jobs) && jobs@.len() == 1 && job_for(
                    jobs@[0],
                    registry@[n@],
                    directory@,
                )
            } else {
                r matches Err(UpdateError::EntryNotFound(m)) && m@ == n@
            },
            None => if all {
                r matches Ok(jobs) && jobs@.len() == registry.entries_view().len() && forall|
                    i: int,
                | 0 <= i < jobs@.len() ==> job_for(
                    #[trigger] jobs@[i],
                    registry.entries_view()[i].1,
                    directory@,
                )
            } else {
                r matches Err(UpdateError::NoSelection)
            },
        },
{
    match name {
        Some(n) => match registry.get(&n) {
            Some(l) => {
                let mut jobs: Vec<SyncJob> = Vec::new();
                jobs.push(job_of(l, directory));
                Ok(jobs)
            },
            None => Err(UpdateError::EntryNotFound(n)),
        },
        None => {
            if !all {
                return Err(UpdateError::NoSelection);
            }
            let entries = registry.entries();
            let mut jobs: Vec<SyncJob> = Vec::new();
            let mut i: usize = 0;
            while i < entries.len()
                invariant
                    i <= entries@.len(),
                    entries@.map_values(|e: (String, Language)| crate::registry::entry_view(e))
                        == registry.entries_view(),
                    jobs@.len() == i,
                    forall|j: int| 0 <= j < i ==> job_for(
                        #[trigger] jobs@[j],
                        registry.entries_view()[j].1,
                        directory@,
                    ),
                decreases entries@.len() - i,
            {
                jobs.push(job_of(&entries[i].1, directory));
                i = i + 1;
            }
            Ok(jobs)
        },
    }
}

/// Registers a grammar: merges under the key `name` a language named
/// `tree-sitter-<name>` with the given source and pinned commit, and returns
/// the job that synchronises that entry at once.
pub fn register(
    registry: &mut Registry,
    name: String,
    git: String,
    hash: Option<String>,
    directory: &String,
) -> (r: SyncJob)
    requires
        old(registry).wf(),
    ensures
        final(registry).wf(),
        final(registry)@ == merged(
            old(registry)@,
            name@,
            LanguageView { name: grammar_name(name@), git: git@, hash: crate::language::opt_view(hash) },
        ),
        job_for(r, final(registry)@[name@], directory@),
{
    let prefix = String::from_str("tree-sitter-");
    let language = Language::new(prefix.concat(name.as_str()), git, hash);
    let fallback = copy_language(&language);
    registry.merge(name.clone(), language);
    match registry.get(&name) {
        Some(l) => job_of(l, directory),
        // Never taken: the merge has just put `name` in.
        None => job_of(&fallback, directory),
    }
}

} // verus!
