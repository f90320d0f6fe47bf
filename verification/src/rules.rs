//! Decisions taken on the rules of the prompt store: how a rule is listed,
//! which rules a removal request selects, and which rules a sync creates,
//! updates or prunes. Reading and writing the store is left to the caller.

use vstd::prelude::*;
use crate::ids::{
    PromptId, PromptMetadata, BuiltInPrompt, managed, uuid_text, is_managed, opt_chars,
    user_id_for, is_v5_user,
};
use crate::text::{eq_ignoring_ascii_case, eq_ignore_ascii_case};
use crate::types::{
    filename_of, title_to_filename, title_of, slug_filename, is_slug_word,
    lemma_slug_filename_round_trip,
};

verus! {

broadcast use vstd::string::group_string_axioms;

/// A rule as read from the prompt store.
#[derive(Clone, Debug)]
pub struct RuleEntry {
    pub id: PromptId,
    pub metadata: PromptMetadata,
}

/// The characters of an optional owned string.
pub open spec fn opt_string_chars(s: Option<String>) -> Option<Seq<char>> {
    match s {
        Some(t) => Some(t@),
        None => None,
    }
}

/// The title of a stored rule, as characters.
pub open spec fn entry_title(e: RuleEntry) -> Option<Seq<char>> {
    opt_string_chars(e.metadata.title)
}

/// The stored rule `e` was created by this tool.
pub open spec fn entry_managed(e: RuleEntry) -> bool {
    managed(e.id, entry_title(e))
}

/// The title of a rule as a string slice, if it has one.
pub fn title_str(e: &RuleEntry) -> (t: Option<&str>)
    ensures
        opt_chars(t) == entry_title(*e),
{
    match &e.metadata.title {
        Some(s) => Some(s.as_str()),
        None => None,
    }
}

/// Whether the stored rule `e` was created by this tool.
pub fn entry_is_managed(e: &RuleEntry) -> (r: bool)
    ensures
        r == entry_managed(*e),
        r ==> is_v5_user(e.id),
{
    is_managed(&e.id, title_str(e))
}

/// The text that identifies a rule in a listing: the hyphenated UUID of a
/// user rule, the variant name of a built-in prompt.
pub open spec fn id_text(id: PromptId) -> Seq<char> {
    match id {
        PromptId::User { uuid } => uuid_text(uuid.0),
        PromptId::BuiltIn(BuiltInPrompt::CommitMessage) => "CommitMessage"@,
    }
}

/// The title shown for a rule: its own, or `Untitled` where it has none.
pub open spec fn shown_title(e: RuleEntry) -> Seq<char> {
    match entry_title(e) {
        Some(t) => t,
        None => "Untitled"@,
    }
}

/// One line of the rule listing, before column formatting.
pub struct ListRow {
    pub title: String,
    pub default: bool,
    pub managed: bool,
    pub id: String,
}

/// The identifying text of a rule key (see [`id_text`]).
pub fn prompt_id_text(id: &PromptId) -> (s: String)
    ensures
        s@ == id_text(*id),
{
    match id {
        PromptId::User { uuid } => uuid.to_uuid_string(),
        PromptId::BuiltIn(BuiltInPrompt::CommitMessage) => String::from_str("CommitMessage"),
    }
}

/// What the listing shows of a stored rule: its title (or `Untitled`),
/// whether it is a default rule, whether this tool created it, and its key.
pub fn list_row(entry: &RuleEntry) -> (row: ListRow)
    ensures
        row.title@ == shown_title(*entry),
        row.default == entry.metadata.default,
        row.managed == entry_managed(*entry),
        row.id@ == id_text(entry.id),
{
    let title = match &entry.metadata.title {
        Some(t) => t.clone(),
        None => String::from_str("Untitled"),
    };
    ListRow {
        title,
        default: entry.metadata.default,
        managed: entry_is_managed(entry),
        id: prompt_id_text(&entry.id),
    }
}

/// What a removal request asks for.
#[derive(Debug)]
pub enum RemoveRequest {
    /// Every rule this tool created.
    AllManaged,
    /// The first rule whose title (ignoring ASCII case) or UUID text matches.
    Matching(String),
}

/// Why a removal request was refused.
#[derive(Clone, Copy, Debug, PartialEq, Eq, Structural)]
pub enum RemoveError {
    /// Neither a rule nor `--managed` was given.
    NothingSpecified,
}

/// Reads the command-line choice of what to remove: `--managed` wins over a
/// title or UUID; with neither, the request is refused.
pub fn remove_request(title_or_uuid: Option<String>, managed: bool) -> (r: Result<
    RemoveRequest,
    RemoveError,
>)
    ensures
        managed ==> r matches Ok(RemoveRequest::AllManaged),
        !managed ==> match title_or_uuid {
            Some(n) => r matches Ok(RemoveRequest::Matching(m)) && m@ == n@,
            None => r == Err::<RemoveRequest, RemoveError>(RemoveError::NothingSpecified),
        },
{
    if managed {
        Ok(RemoveRequest::AllManaged)
    } else {
        match title_or_uuid {
            Some(n) => Ok(RemoveRequest::Matching(n)),
            None => Err(RemoveError::NothingSpecified),
        }
    }
}

/// The indices of the rules this tool created, in store order.
pub fn managed_entries(entries: &Vec<RuleEntry>) -> (idx: Vec<usize>)
    ensures
        forall|a: int, b: int| 0 <= a < b < idx.len() ==> idx[a] < idx[b],
        forall|a: int| 0 <= a < idx.len() ==> idx[a] < entries.len() && entry_managed(entries[idx[a] as int]),
        forall|a: int| 0 <= a < idx.len() ==> is_v5_user((#[trigger] entries[idx[a] as int]).id),
        forall|i: int| 0 <= i < entries.len() && entry_managed(#[trigger] entries[i]) ==> idx@.contains(i as usize),
{
    let mut idx: Vec<usize> = Vec::new();
    let n = entries.len();
    for i in 0..n
        invariant
            n == entries.len(),
            forall|a: int, b: int| 0 <= a < b < idx.len() ==> idx[a] < idx[b],
            forall|a: int| 0 <= a < idx.len() ==> idx[a] < i && entry_managed(entries[idx[a] as int]),
            forall|a: int| 0 <= a < idx.len() ==> is_v5_user((#[trigger] entries[idx[a] as int]).id),
            forall|j: int| 0 <= j < i && entry_managed(#[trigger] entries[j]) ==> idx@.contains(j as usize),
    {
        let ghost prev = idx@;
        if entry_is_managed(&entries[i]) {
            idx.push(i);
            assert(idx@[idx.len() - 1] == i);
        }
        assert forall|j: int| 0 <= j < i + 1 && entry_managed(#[trigger] entries[j]) implies idx@.contains(j as usize) by {
            if j < i {
                assert(prev.contains(j as usize));
                let k = choose|k: int| 0 <= k < prev.len() && prev[k] == j as usize;
                assert(idx@[k] == j as usize);
            } else {
                assert(idx@[idx.len() - 1] == j as usize);
            }
        }
    }
    idx
}

/// The rule `e` is the one named by `needle`: its title equals the needle up
/// to ASCII case, or it is a user rule whose UUID text is the needle.
pub open spec fn matches_needle(e: RuleEntry, needle: Seq<char>) -> bool {
    (entry_title(e) matches Some(t) && eq_ignoring_ascii_case(t, needle)) || (e.id matches PromptId::User { uuid } && uuid_text(uuid.0) == needle)
}

/// Finds the first rule named by `needle` (see [`matches_needle`]).
pub fn find_rule(entries: &Vec<RuleEntry>, needle: &String) -> (r: Option<usize>)
    ensures
        match r {
            Some(i) => i < entries.len() && matches_needle(entries[i as int], needle@) && forall|j: int|
                0 <= j < i ==> !matches_needle(#[trigger] entries[j], needle@),
            None => forall|j: int| 0 <= j < entries.len() ==> !matches_needle(#[trigger] entries[j], needle@),
        },
{
    let n = entries.len();
    for i in 0..n
        invariant
            n == entries.len(),
            forall|j: int| 0 <= j < i ==> !matches_needle(#[trigger] entries[j], needle@),
    {
        let e = &entries[i];
        let by_title = match &e.metadata.title {
            Some(t) => eq_ignore_ascii_case(t.as_str(), needle.as_str()),
            None => false,
        };
        if by_title {
            return Some(i);
        }
        let by_uuid = match &e.id {
            PromptId::User { uuid } => uuid.to_uuid_string() == *needle,
            PromptId::BuiltIn(_) => false,
        };
        if by_uuid {
            return Some(i);
        }
    }
    None
}

/// What syncing a file does to the store: create a new rule or update the
/// existing one.
#[derive(Clone, Copy, Debug, PartialEq, Eq, Structural)]
pub enum FileAction {
    Create,
    Update,
}

/// A managed rule with title `title` is to be pruned when the file its title
/// maps to was not among the files synced (`synced`).
pub open spec fn prune_wanted(synced: Seq<Seq<char>>, id: PromptId, title: Option<Seq<char>>) -> bool {
    managed(id, title) && !synced.contains(filename_of(title.unwrap()))
}

/// Running record of a sync: how many rules were created, updated and
/// pruned, and the filenames synced so far.
pub struct SyncTally {
    created: u32,
    updated: u32,
    pruned: u32,
    synced: Vec<String>,
}

impl SyncTally {
    /// The filenames synced so far, in order.
    pub closed spec fn synced_names(&self) -> Seq<Seq<char>> {
        self.synced@.map_values(|s: String| s@)
    }

    pub closed spec fn created_count(&self) -> nat {
        self.created as nat
    }

    pub closed spec fn updated_count(&self) -> nat {
        self.updated as nat
    }

    pub closed spec fn pruned_count(&self) -> nat {
        self.pruned as nat
    }

    /// Every synced file was counted once, as created or as updated.
    pub closed spec fn wf(&self) -> bool {
        self.created + self.updated == self.synced@.len()
    }

    /// An empty record.
    pub fn new() -> (t: Self)
        ensures
            t.wf(),
            t.created_count() == 0,
            t.updated_count() == 0,
            t.pruned_count() == 0,
            t.synced_names() == Seq::<Seq<char>>::empty(),
    {
        let t = SyncTally { created: 0, updated: 0, pruned: 0, synced: Vec::new() };
        assert(t.synced_names() =~= Seq::<Seq<char>>::empty());
        t
    }

    /// Rules created so far.
    pub fn created(&self) -> (n: u32)
        ensures
            n == self.created_count(),
    {
        self.created
    }

    /// Rules updated so far.
    pub fn updated(&self) -> (n: u32)
        ensures
            n == self.updated_count(),
    {
        self.updated
    }

    /// Rules pruned so far.
    pub fn pruned(&self) -> (n: u32)
        ensures
            n == self.pruned_count(),
    {
        self.pruned
    }

    /// Records that `filename` was synced; its rule already existed in the
    /// store exactly when `exists`. An existing rule is updated, a missing
    /// one created.
    pub fn record_file(&mut self, filename: &str, exists: bool) -> (action: FileAction)
        requires
            old(self).wf(),
            exists ==> old(self).updated_count() < u32::MAX,
            !exists ==> old(self).created_count() < u32::MAX,
        ensures
            final(self).wf(),
            action == (if exists {
                FileAction::Update
            } else {
                FileAction::Create
            }),
            final(self).synced_names() == old(self).synced_names().push(filename@),
            final(self).created_count() == old(self).created_count() + (if exists {
                0nat
            } else {
                1nat
            }),
            final(self).updated_count() == old(self).updated_count() + (if exists {
                1nat
            } else {
                0nat
            }),
            final(self).pruned_count() == old(self).pruned_count(),
    {
        let name = filename.to_owned();
        self.synced.push(name);
        assert(self.synced_names() =~= old(self).synced_names().push(filename@));
        if exists {
            self.updated = self.updated + 1;
            FileAction::Update
        } else {
            self.created = self.created + 1;
            FileAction::Create
        }
    }

    /// Whether `filename` is among the files synced so far.
    pub fn was_synced(&self, filename: &String) -> (r: bool)
        ensures
            r == self.synced_names().contains(filename@),
    {
        let n = self.synced.len();
        for i in 0..n
            invariant
                n == self.synced.len(),
                forall|j: int| 0 <= j < i ==> self.synced@[j]@ != filename@,
        {
            if self.synced[i] == *filename {
                assert(self.synced_names()[i as int] == filename@);
                return true;
            }
        }
        assert forall|j: int| 0 <= j < self.synced_names().len() implies self.synced_names()[j] != filename@ by {
            assert(self.synced_names()[j] == self.synced@[j]@);
        }
        false
    }

    /// Whether the stored rule `entry` is to be pruned: only a rule this tool
    /// created, and only when the file its title maps to was not synced.
    pub fn should_prune(&self, entry: &RuleEntry) -> (r: bool)
        ensures
            r == prune_wanted(self.synced_names(), entry.id, entry_title(*entry)),
            r ==> entry_managed(*entry),
            r ==> is_v5_user(entry.id),
    {
        if !entry_is_managed(entry) {
            return false;
        }
        let t = match title_str(entry) {
            Some(t) => t,
            None => "",
        };
        let filename = title_to_filename(t);
        !self.was_synced(&filename)
    }

    /// Every synced file is counted exactly once, as created or as updated.
    pub proof fn lemma_counts_match_files(&self)
        requires
            self.wf(),
        ensures
            self.created_count() + self.updated_count() == self.synced_names().len(),
    {
    }

    /// Records that one more rule was pruned.
    pub fn record_prune(&mut self)
        requires
            old(self).wf(),
            old(self).pruned_count() < u32::MAX,
        ensures
            final(self).wf(),
            final(self).pruned_count() == old(self).pruned_count() + 1,
            final(self).created_count() == old(self).created_count(),
            final(self).updated_count() == old(self).updated_count(),
            final(self).synced_names() == old(self).synced_names(),
    {
        self.pruned = self.pruned + 1;
    }
}

/// A sync never prunes what it has just synced: when the slug-form file
/// `w1-...-wn.md` is among the synced files, the rule created from it (its
/// identifier and title derived from the filename) is not pruned.
pub proof fn lemma_synced_rule_not_pruned(synced: Seq<Seq<char>>, ws: Seq<Seq<char>>)
    requires
        forall|k: int| 0 <= k < ws.len() ==> is_slug_word(#[trigger] ws[k]),
        synced.contains(slug_filename(ws)),
    ensures
        !prune_wanted(synced, user_id_for(slug_filename(ws)), Some(title_of(slug_filename(ws)))),
{
    lemma_slug_filename_round_trip(ws);
}

/// Pruning only ever selects rules this tool created.
pub proof fn lemma_prune_only_managed(synced: Seq<Seq<char>>, id: PromptId, title: Option<Seq<char>>)
    ensures
        prune_wanted(synced, id, title) ==> managed(id, title),
{
}

} // verus!
