//! Per-player records kept beside the session: external-game identities,
//! team-name overrides and queue notes.

use std::collections::HashMap;
use vstd::prelude::*;

use crate::trusted::{find_quoted, has_quoted, is_steam_id, matches_steam_id, quoted_span};

verus! {

broadcast use vstd::std_specs::hash::group_hash_axioms;

/// Longest team name, in bytes of UTF-8.
pub const MAX_TEAM_NAME_BYTES: usize = 18;

/// Longest queue note, in characters.
pub const MAX_NOTE_CHARS: usize = 50;

/// Why a per-player record was refused. A refused record changes nothing.
#[derive(Clone, Copy, Debug, PartialEq, Eq, Structural)]
pub enum ProfileError {
    /// The identity does not have the expected form.
    MalformedIdentity,
    /// The team name is longer than allowed, by this many bytes.
    NameTooLong(usize),
}

/// Records `id` as the identity of `player` when `well_formed` says that it
/// has the expected form.
pub fn store_identity(
    identities: &mut HashMap<u64, String>,
    player: u64,
    id: &str,
    well_formed: bool,
) -> (r: Result<(), ProfileError>)
    ensures
        well_formed ==> r is Ok && final(identities)@ == old(identities)@.insert(
            player,
            final(identities)@[player],
        ) && final(identities)@[player]@ == id@,
        !well_formed ==> r == Err::<(), ProfileError>(ProfileError::MalformedIdentity) && final(identities)@ == old(identities)@,
{
    if !well_formed {
        return Err(ProfileError::MalformedIdentity);
    }
    identities.insert(player, String::from_str(id));
    Ok(())
}

/// Records `id` as the identity of `player` if it has the expected form.
pub fn set_identity(identities: &mut HashMap<u64, String>, player: u64, id: &str) -> (r: Result<
    (),
    ProfileError,
>)
    ensures
        r is Ok <==> is_steam_id(id@),
        r is Ok ==> final(identities)@ == old(identities)@.insert(
            player,
            final(identities)@[player],
        ) && final(identities)@[player]@ == id@,
        r is Err ==> r == Err::<(), ProfileError>(ProfileError::MalformedIdentity) && final(identities)@ == old(identities)@,
{
    let well_formed = matches_steam_id(id);
    store_identity(identities, player, id, well_formed)
}

/// Records `name` as the team name of the captain `player`, if it is short
/// enough.
pub fn set_team_name(names: &mut HashMap<u64, String>, player: u64, name: &str) -> (r: Result<
    (),
    ProfileError,
>)
    ensures
        name.len() > MAX_TEAM_NAME_BYTES ==> r == Err::<(), ProfileError>(
            ProfileError::NameTooLong((name.len() - MAX_TEAM_NAME_BYTES) as usize),
        ) && final(names)@ == old(names)@,
        name.len() <= MAX_TEAM_NAME_BYTES ==> r is Ok && final(names)@ == old(names)@.insert(player, final(names)@[player]) && final(names)@[player]@ == name@,
{
    let n = name.len();
    if n > MAX_TEAM_NAME_BYTES {
        return Err(ProfileError::NameTooLong(n - MAX_TEAM_NAME_BYTES));
    }
    names.insert(player, String::from_str(name));
    Ok(())
}

/// The note of a queue message: its leftmost quoted span, quotes included,
/// cut to [`MAX_NOTE_CHARS`] characters.
pub open spec fn note_of(content: Seq<char>) -> Seq<char> {
    let q = quoted_span(content);
    if q.len() > MAX_NOTE_CHARS {
        q.take(MAX_NOTE_CHARS as int)
    } else {
        q
    }
}

/// The note that a queue message carries, if it holds a quoted span.
pub fn note_of_message(content: &str) -> (r: Option<String>)
    ensures
        r is Some <==> has_quoted(content@),
        r matches Some(n) ==> n@ == note_of(content@),
{
    match find_quoted(content) {
        None => None,
        Some(span) => {
            let n = span.as_str().unicode_len();
            let keep = if n > MAX_NOTE_CHARS {
                MAX_NOTE_CHARS
            } else {
                n
            };
            let note = String::from_str(span.as_str().substring_char(0, keep));
            assert(span@.subrange(0, keep as int) =~= note_of(content@));
            Some(note)
        },
    }
}

} // verus!
