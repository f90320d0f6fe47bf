//! Rule identities: the deterministic UUID that names a rule created from a
//! file, the identifiers of the prompt store, and the test for rules this
//! tool created.

use vstd::prelude::*;
use vstd::utf8::{encode_utf8, encode_utf8_decode_utf8};
use crate::types::{
    filename_of, title_to_filename, title_of, slug_filename, is_slug_word,
    lemma_slug_filename_round_trip,
};

verus! {

/// Fixed namespace of the deterministic v5 UUIDs, as a big-endian 128-bit
/// value: the bytes `7a 65 64 2d 72 75 6c 65 73 2d 73 79 6e 63 00 01`.
pub const NAMESPACE: u128 = 0x7a65642d72756c65732d73796e630001u128;

/// The name-based (version 5) UUID of the bytes `name` in `namespace`, the
/// namespace and the result as big-endian 128-bit values: what
/// `uuid::Uuid::new_v5` computes from the namespace and the name's bytes.
pub uninterp spec fn uuid_v5(namespace: u128, name: Seq<u8>) -> u128;

/// The version number of a UUID held as a big-endian 128-bit value: the
/// high nibble of byte 6 (`Uuid::get_version_num`).
pub open spec fn uuid_version(v: u128) -> u128 {
    (v >> 76u128) & 0xfu128
}

/// `id` is a user rule whose UUID has version number 5, the kind of UUID
/// this tool derives; a rule made in Zed's UI gets a random (version 4) one.
pub open spec fn is_v5_user(id: PromptId) -> bool {
    id matches PromptId::User { uuid } && uuid_version(uuid.0) == 5
}

/// Calls `uuid::Uuid::new_v5` with `namespace` (converted by
/// `Uuid::from_u128`) and the bytes `name`, and returns the UUID
/// as a big-endian 128-bit value (`Uuid::as_u128`). Trusted: the result is
/// [`uuid_v5`] of the arguments, and its version number is 5 (the builder
/// writes the version nibble of byte 6); the SHA-1 based computation of the
/// other bits is not stated.
#[verifier::external_body]
fn new_v5_uuid(namespace: u128, name: &[u8]) -> (r: u128)
    ensures
        r == uuid_v5(namespace, name@),
        uuid_version(r) == 5,
{
    uuid::Uuid::new_v5(&uuid::Uuid::from_u128(namespace), name).as_u128()
}

/// The lowercase hexadecimal digit for `n` in `0..16`.
pub open spec fn hex_digit(n: int) -> char {
    if n < 10 {
        ('0' as int + n) as char
    } else {
        ('a' as int + n - 10) as char
    }
}

/// The `k`-th hexadecimal digit of `v`, counted from the most significant
/// (`k` in `0..32`).
pub open spec fn nibble(v: u128, k: int) -> int {
    (v as int / vstd::arithmetic::power::pow(16, (31 - k) as nat)) % 16
}

/// Positions of the hyphens in the hyphenated text form of a UUID.
pub open spec fn is_hyphen_position(i: int) -> bool {
    i == 8 || i == 13 || i == 18 || i == 23
}

/// Which hexadecimal digit stands at position `i` of the hyphenated form.
pub open spec fn digit_at(i: int) -> int {
    if i < 8 {
        i
    } else if i < 13 {
        i - 1
    } else if i < 18 {
        i - 2
    } else if i < 23 {
        i - 3
    } else {
        i - 4
    }
}

/// The hyphenated lowercase text form of a UUID, as in
/// `67e55044-10b1-426f-9247-bb680e5fe0c8`: its 32 hexadecimal digits, most
/// significant first, in groups of 8, 4, 4, 4 and 12 separated by `-`.
pub open spec fn uuid_text(v: u128) -> Seq<char> {
    Seq::new(
        36,
        |i: int|
            if is_hyphen_position(i) {
                '-'
            } else {
                hex_digit(nibble(v, digit_at(i)))
            },
    )
}

/// Formats the UUID with value `v` through `Display` for `uuid::Uuid`.
/// Trusted: the result is the hyphenated lowercase form [`uuid_text`], as
/// the crate documents and its `format_hyphenated` writes.
#[verifier::external_body]
fn format_uuid(v: u128) -> (s: String)
    ensures
        s@ == uuid_text(v),
{
    uuid::Uuid::from_u128(v).to_string()
}

/// Identifier of a rule created by a user (through Zed or this tool): a
/// UUID, held as its big-endian 128-bit value.
#[derive(Clone, Copy, Debug, PartialEq, Eq, Hash, Structural)]
pub struct UserPromptId(pub u128);

impl UserPromptId {
    /// The hyphenated lowercase text form of the UUID.
    pub fn to_uuid_string(&self) -> (s: String)
        ensures
            s@ == uuid_text(self.0),
    {
        format_uuid(self.0)
    }
}

/// Prompts that ship with Zed.
#[derive(Clone, Copy, Debug, PartialEq, Eq, Hash, Structural)]
pub enum BuiltInPrompt {
    CommitMessage,
}

/// Key of a rule in the prompt store.
#[derive(Clone, Copy, Debug, PartialEq, Eq, Hash, Structural)]
pub enum PromptId {
    User { uuid: UserPromptId },
    BuiltIn(BuiltInPrompt),
}

/// The identifier this tool gives the rule synced from the file `filename`.
pub open spec fn user_id_for(filename: Seq<char>) -> PromptId {
    PromptId::User { uuid: UserPromptId(uuid_v5(NAMESPACE, encode_utf8(filename))) }
}

/// The characters of an optional string slice.
pub open spec fn opt_chars(s: Option<&str>) -> Option<Seq<char>> {
    match s {
        Some(t) => Some(t@),
        None => None,
    }
}

/// A rule with identifier `id` and title `title` was created by this tool:
/// it is a user rule whose UUID is the one this tool derives from the
/// filename of its title.
pub open spec fn managed(id: PromptId, title: Option<Seq<char>>) -> bool {
    match (id, title) {
        (PromptId::User { uuid }, Some(t)) => uuid.0 == uuid_v5(NAMESPACE, encode_utf8(filename_of(t))),
        _ => false,
    }
}

/// Deterministic identifier of the rule synced from `filename`: the v5 UUID
/// of the filename in [`NAMESPACE`]. The same filename always gives the same
/// identifier.
pub fn prompt_id_for_filename(filename: &str) -> (id: PromptId)
    ensures
        id == user_id_for(filename@),
        is_v5_user(id),
{
    let uuid = new_v5_uuid(NAMESPACE, filename.as_bytes());
    PromptId::User { uuid: UserPromptId(uuid) }
}

/// Whether the rule `id` with title `title` was created by this tool: only a
/// user rule with a title qualifies, and only when its UUID is the one derived
/// from the filename of the title. A rule whose UUID is not of version 5 (such
/// as the random version-4 UUID of a rule made in Zed's UI) never qualifies.
pub fn is_managed(id: &PromptId, title: Option<&str>) -> (r: bool)
    ensures
        r == managed(*id, opt_chars(title)),
        r ==> id is User && title is Some,
        r ==> is_v5_user(*id),
{
    match id {
        PromptId::User { uuid } => match title {
            Some(t) => {
                let filename = title_to_filename(t);
                let expected = new_v5_uuid(NAMESPACE, filename.as_str().as_bytes());
                uuid.0 == expected
            },
            None => false,
        },
        PromptId::BuiltIn(_) => false,
    }
}

/// A point in time as seconds since the Unix epoch and the nanoseconds
/// within that second.
#[derive(Clone, Copy, Debug, PartialEq, Eq, Structural)]
pub struct Timestamp {
    pub secs: i64,
    pub nanos: u32,
}

/// What the prompt store keeps about a rule besides its body.
#[derive(Clone, Debug)]
pub struct PromptMetadata {
    pub id: PromptId,
    pub title: Option<String>,
    pub default: bool,
    pub saved_at: Timestamp,
}

impl PromptMetadata {
    /// Metadata of a rule written by this tool: it always carries a title.
    pub fn for_rule(id: PromptId, title: &str, default: bool, saved_at: Timestamp) -> (m: Self)
        ensures
            m.id == id,
            m.title matches Some(t) && t@ == title@,
            m.default == default,
            m.saved_at == saved_at,
    {
        PromptMetadata { id, title: Some(title.to_owned()), default, saved_at }
    }
}

/// Rules created from slug-form files are recognised as created by this
/// tool: for a filename `w1-...-wn.md` made of lowercase ASCII letter/digit
/// words, the rule with the identifier and title derived from that filename
/// is managed.
pub proof fn lemma_slug_rules_are_managed(ws: Seq<Seq<char>>)
    requires
        forall|k: int| 0 <= k < ws.len() ==> is_slug_word(#[trigger] ws[k]),
    ensures
        managed(user_id_for(slug_filename(ws)), Some(title_of(slug_filename(ws)))),
{
    lemma_slug_filename_round_trip(ws);
}

/// The identifier of a rule file is taken over the exact UTF-8 bytes of its
/// name: two different filenames (for example `AGENTS.md` and `agents.md`)
/// are always hashed as two different byte strings, and the identifier is
/// the v5 UUID of exactly those bytes.
pub proof fn lemma_ids_hash_exact_filename_bytes(a: Seq<char>, b: Seq<char>)
    ensures
        user_id_for(a) == (PromptId::User { uuid: UserPromptId(uuid_v5(NAMESPACE, encode_utf8(a))) }),
        a != b ==> encode_utf8(a) != encode_utf8(b),
{
    encode_utf8_decode_utf8(a);
    encode_utf8_decode_utf8(b);
}

} // verus!
