//! What the commands decide, apart from what they read, write and ask.
//!
//! A command that makes a profile active always activates it first and then
//! reconciles the registry with the whole store, so that the row of the active
//! profile is the one that activation wrote.

use vstd::prelude::*;
use vstd::string::*;
use vstd::seq_lib::to_multiset_contains;
use toml_edit::DocumentMut;
use crate::address::local_alias;
use crate::document::{doc_entries, text_at, Entries, Entry};
use crate::error::ProfileError;
use crate::order::{ascending, sort_names};
use crate::profile::{Listing, Profile, ProfileView, UserProfiles};
use crate::registry::{get_scalar, set_scalar};
use crate::select::{candidates_are, environment_profiles, filter_view};
use crate::text::{first_index_of, lemma_first_index_of_unique, str_equals, views};
use crate::settings::AppSettings;
use crate::sync::{
    activate, activated, default_host_key, reconciled, sync_server_configs_from_profiles,
    targeted, update_cli_server_target,
};

verus! {

/// The address of a new profile: the one that was given, else the environment
/// that the document is in, else `local`.
pub open spec fn address_for(given: Option<Seq<char>>, environment: Option<Seq<char>>) -> Seq<
    char,
> {
    match given {
        Some(address) => address,
        None => match environment {
            Some(address) => address,
            None => local_alias(),
        },
    }
}

/// The address of a new profile: the one that was given, else the environment
/// that the document is in, else `local`.
pub fn resolve_address(given: Option<&str>, environment: Option<&str>) -> (address: String)
    ensures
        address@ == address_for(filter_view(given), filter_view(environment)),
{
    proof {
        reveal_strlit("local");
        assert("local"@ =~= local_alias());
    }
    match given {
        Some(address) => String::from_str(address),
        None => match environment {
            Some(address) => String::from_str(address),
            None => String::from_str("local"),
        },
    }
}

/// Makes a profile the active one: activates it, then reconciles the registry
/// with the store.
pub fn apply_profile(
    doc: &mut DocumentMut,
    settings: &AppSettings,
    profile_name: &str,
    profile: &Profile,
    profiles: &UserProfiles,
)
    ensures
        doc_entries(*final(doc)) == reconciled(
            activated(doc_entries(*old(doc)), settings.cli_token_key@, profile_name@, profile@),
            profiles.listing(),
        ),
{
    activate(doc, settings.cli_token_key.as_str(), profile_name, profile);
    sync_server_configs_from_profiles(doc, profiles);
}

/// The profile that the active session of a document stands for: its
/// credential and its address. `None` where the document has no credential
/// under `token_key`, or an empty one, or no address under `default_host`; the
/// first of the two keys that fails is named beside it.
pub open spec fn session_of(entries: Entries, token_key: Seq<char>) -> Result<
    ProfileView,
    Seq<char>,
> {
    match text_at(entries, token_key) {
        Some(token) => if token.len() == 0 {
            Err(token_key)
        } else {
            match text_at(entries, default_host_key()) {
                Some(address) => Ok(ProfileView { token, address }),
                None => Err(default_host_key()),
            }
        },
        None => Err(token_key),
    }
}

/// Reads the active session of a document as a profile. Fails with
/// `NotLoggedIn` and the key that is missing, holds no string, or holds an empty
/// credential.
pub fn profile_from_session(doc: &DocumentMut, token_key: &str) -> (read: Result<
    Profile,
    ProfileError,
>)
    ensures
        match read {
            Ok(profile) => profile.wf() && session_of(doc_entries(*doc), token_key@) == Ok::<
                ProfileView,
                Seq<char>,
            >(profile@),
            Err(ProfileError::NotLoggedIn { key }) => session_of(doc_entries(*doc), token_key@)
                == Err::<ProfileView, Seq<char>>(key@),
            Err(_) => false,
        },
{
    proof {
        reveal_strlit("default_host");
        assert("default_host"@ =~= default_host_key());
    }
    let token = match get_scalar(doc, token_key) {
        Some(token) => token,
        None => {
            return Err(ProfileError::NotLoggedIn { key: String::from_str(token_key) });
        },
    };
    if token.as_str().unicode_len() == 0 {
        return Err(ProfileError::NotLoggedIn { key: String::from_str(token_key) });
    }
    match get_scalar(doc, "default_host") {
        Some(address) => Ok(Profile { token, address }),
        None => Err(ProfileError::NotLoggedIn { key: String::from_str("default_host") }),
    }
}

/// Stores a profile under a name that is still free. Fails with
/// `AlreadyExists` where the store holds the name, and then changes nothing.
pub fn add_profile(profiles: &mut UserProfiles, name: &str, profile: Profile) -> (added: Result<
    (),
    ProfileError,
>)
    requires
        old(profiles).wf(),
        profile.wf(),
    ensures
        final(profiles).wf(),
        match added {
            Ok(_) => !old(profiles)@.contains_key(name@) && final(profiles)@ == old(
                profiles,
            )@.insert(name@, profile@) && final(profiles).listing() == old(
                profiles,
            ).listing().push((name@, profile@)),
            Err(ProfileError::AlreadyExists { name: taken }) => old(profiles)@.contains_key(name@)
                && taken@ == name@ && final(profiles).listing() == old(profiles).listing(),
            Err(_) => false,
        },
{
    if profiles.contains_key(name) {
        Err(ProfileError::AlreadyExists { name: String::from_str(name) })
    } else {
        profiles.insert(name, profile);
        Ok(())
    }
}

/// Saves the active session of a document as a new profile. Fails with
/// `AlreadyExists` where the name is taken, else with `NotLoggedIn` where the
/// document holds no session; the store is then as it was.
pub fn save_session(
    profiles: &mut UserProfiles,
    name: &str,
    doc: &DocumentMut,
    token_key: &str,
) -> (saved: Result<(), ProfileError>)
    requires
        old(profiles).wf(),
    ensures
        final(profiles).wf(),
        match saved {
            Ok(_) => !old(profiles)@.contains_key(name@) && session_of(
                doc_entries(*doc),
                token_key@,
            ) is Ok && final(profiles)@ == old(profiles)@.insert(
                name@,
                session_of(doc_entries(*doc), token_key@)->Ok_0,
            ),
            Err(ProfileError::AlreadyExists { name: taken }) => old(profiles)@.contains_key(name@)
                && taken@ == name@ && final(profiles).listing() == old(profiles).listing(),
            Err(ProfileError::NotLoggedIn { key }) => !old(profiles)@.contains_key(name@)
                && session_of(doc_entries(*doc), token_key@) == Err::<ProfileView, Seq<char>>(
                key@,
            ) && final(profiles).listing() == old(profiles).listing(),
            Err(_) => false,
        },
{
    if profiles.contains_key(name) {
        return Err(ProfileError::AlreadyExists { name: String::from_str(name) });
    }
    match profile_from_session(doc, token_key) {
        Ok(profile) => {
            profiles.insert(name, profile);
            Ok(())
        },
        Err(error) => Err(error),
    }
}

/// Takes a profile out of the store and returns it. Fails with `NotFound`
/// where the store does not hold the name.
pub fn delete_profile(profiles: &mut UserProfiles, name: &str) -> (deleted: Result<
    Profile,
    ProfileError,
>)
    requires
        old(profiles).wf(),
    ensures
        final(profiles).wf(),
        final(profiles)@ == old(profiles)@.remove(name@),
        match deleted {
            Ok(profile) => old(profiles)@.contains_key(name@) && old(profiles)@[name@] == profile@,
            Err(ProfileError::NotFound { what }) => !old(profiles)@.contains_key(name@) && what@
                == name@ && final(profiles).listing() == old(profiles).listing(),
            Err(_) => false,
        },
{
    match profiles.remove(name) {
        Some(profile) => Ok(profile),
        None => Err(ProfileError::NotFound { what: String::from_str(name) }),
    }
}

/// The credentials of a listing, in its order.
pub open spec fn tokens_of(listing: Listing) -> Seq<Seq<char>> {
    listing.map_values(|entry: (Seq<char>, ProfileView)| entry.1.token)
}

/// The name of the first profile, in the store's order, that holds a
/// credential.
pub fn profile_of_token(profiles: &UserProfiles, token: &str) -> (owner: Option<String>)
    ensures
        match owner {
            Some(name) => first_index_of(tokens_of(profiles.listing()), token@)
                < profiles.listing().len() && name@ == profiles.listing()[first_index_of(
                tokens_of(profiles.listing()),
                token@,
            )].0,
            None => first_index_of(tokens_of(profiles.listing()), token@)
                == profiles.listing().len(),
        },
{
    let ghost tokens = tokens_of(profiles.listing());
    let count: usize = profiles.len();
    let mut index: usize = 0;
    while index < count
        invariant
            index <= count,
            count == profiles.listing().len(),
            tokens == tokens_of(profiles.listing()),
            forall|j: int| 0 <= j < index ==> tokens[j] != token@,
        decreases count - index,
    {
        if str_equals(profiles.profile_at(index).token.as_str(), token) {
            proof {
                lemma_first_index_of_unique(tokens, token@, index as int);
            }
            return Some(profiles.name_at(index).clone());
        }
        index += 1;
    }
    proof {
        lemma_first_index_of_unique(tokens, token@, count as int);
    }
    None
}

/// A change of a profile's address concerns the active session where the
/// document holds the profile's credential, or its former address as
/// `default_host`.
pub open spec fn session_follows(
    entries: Entries,
    token_key: Seq<char>,
    token: Seq<char>,
    previous_address: Seq<char>,
) -> bool {
    text_at(entries, token_key) == Some(token) || text_at(entries, default_host_key()) == Some(
        previous_address,
    )
}

/// Carries a profile's new address into the document, where the change
/// concerns the active session: `default_host` gets the new address, the
/// name's row gets its host and protocol, and the registry is reconciled with
/// the store.
/// Else the document stays as it is. Returns whether it was changed.
pub fn follow_address_change(
    doc: &mut DocumentMut,
    token_key: &str,
    profile_name: &str,
    token: &str,
    previous_address: &str,
    address: &str,
    profiles: &UserProfiles,
) -> (changed: bool)
    ensures
        changed == session_follows(doc_entries(*old(doc)), token_key@, token@, previous_address@),
        doc_entries(*final(doc)) == (if changed {
            reconciled(
                targeted(
                    doc_entries(*old(doc)).insert(default_host_key(), Entry::Text(address@)),
                    profile_name@,
                    address@,
                ),
                profiles.listing(),
            )
        } else {
            doc_entries(*old(doc))
        }),
{
    proof {
        reveal_strlit("default_host");
        assert("default_host"@ =~= default_host_key());
    }
    let token_matches = match get_scalar(doc, token_key) {
        Some(active) => str_equals(active.as_str(), token),
        None => false,
    };
    let host_matches = match get_scalar(doc, "default_host") {
        Some(host) => str_equals(host.as_str(), previous_address),
        None => false,
    };
    if token_matches || host_matches {
        set_scalar(doc, "default_host", address);
        update_cli_server_target(doc, profile_name, address);
        sync_server_configs_from_profiles(doc, profiles);
        true
    } else {
        false
    }
}

/// The credential that a server issued, where its answer is one: a status
/// from 200 to 299 and a credential that is not empty. It is taken as it
/// stands, white space and all.
pub open spec fn issued(status: u16, token: Option<Seq<char>>) -> Option<Seq<char>> {
    match token {
        Some(token) => if 200 <= status <= 299 && token.len() > 0 {
            Some(token)
        } else {
            None
        },
        None => None,
    }
}

/// Takes the credential out of a server's answer to a request for an
/// identity. `token` is `None` where the body held no credential. Any status
/// outside 200 to 299 and any empty credential is a `NetworkFailure`.
pub fn accept_identity(url: &str, status: u16, token: Option<&str>) -> (accepted: Result<
    String,
    ProfileError,
>)
    ensures
        match accepted {
            Ok(credential) => issued(status, filter_view(token)) == Some(credential@),
            Err(ProfileError::NetworkFailure { url: asked, status: answered }) => issued(
                status,
                filter_view(token),
            ) is None && asked@ == url@ && answered == Some(status),
            Err(_) => false,
        },
{
    if status < 200 || status > 299 {
        return Err(
            ProfileError::NetworkFailure { url: String::from_str(url), status: Some(status) },
        );
    }
    match token {
        Some(token) => {
            if token.unicode_len() == 0 {
                Err(
                    ProfileError::NetworkFailure {
                        url: String::from_str(url),
                        status: Some(status),
                    },
                )
            } else {
                Ok(String::from_str(token))
            }
        },
        None => Err(
            ProfileError::NetworkFailure { url: String::from_str(url), status: Some(status) },
        ),
    }
}

/// Judges how the command line's own program ended: only the exit code 0 is
/// a success. `None` stands for a program that was ended from outside.
pub fn check_exit(code: Option<i32>) -> (judged: Result<(), ProfileError>)
    ensures
        match judged {
            Ok(_) => code == Some(0i32),
            Err(ProfileError::SubprocessFailure { code: failed }) => code != Some(0i32) && failed
                == code,
            Err(_) => false,
        },
{
    match code {
        Some(0) => Ok(()),
        _ => Err(ProfileError::SubprocessFailure { code }),
    }
}

/// One line of the list of profiles.
#[derive(Debug)]
pub struct ListedProfile {
    pub name: String,
    pub address: String,
    /// Whether the profile holds the credential of the active session.
    pub current: bool,
}

/// The names of the lines of a list.
pub open spec fn listed_names(lines: Seq<ListedProfile>) -> Seq<Seq<char>> {
    lines.map_values(|line: ListedProfile| line.name@)
}

/// The profiles of an environment as they are listed: sorted by name, each
/// with its address, and marked where it holds the active credential.
pub fn list_profiles(
    profiles: &UserProfiles,
    environment: Option<&str>,
    active_token: Option<&str>,
) -> (lines: Vec<ListedProfile>)
    requires
        profiles.wf(),
    ensures
        candidates_are(listed_names(lines@), profiles@, filter_view(environment)),
        forall|i: int|
            0 <= i < lines@.len() ==> (#[trigger] lines@[i]).address@
                == profiles@[lines@[i].name@].address && lines@[i].current == (filter_view(
                active_token,
            ) == Some(profiles@[lines@[i].name@].token)),
{
    let names = environment_profiles(profiles, environment);
    let count: usize = names.len();
    let mut lines: Vec<ListedProfile> = Vec::new();
    let mut index: usize = 0;
    while index < count
        invariant
            index <= count,
            count == names@.len(),
            lines@.len() == index,
            candidates_are(views(names@), profiles@, filter_view(environment)),
            forall|i: int| 0 <= i < index ==> (#[trigger] lines@[i]).name@ == names@[i]@,
            forall|i: int|
                0 <= i < index ==> (#[trigger] lines@[i]).address@
                    == profiles@[lines@[i].name@].address && lines@[i].current == (filter_view(
                    active_token,
                ) == Some(profiles@[lines@[i].name@].token)),
        decreases count - index,
    {
        let name = names[index].clone();
        assert(views(names@)[index as int] == name@);
        assert(views(names@).contains(name@));
        let profile = profiles.get(name.as_str()).unwrap();
        let current = match active_token {
            Some(token) => str_equals(profile.token.as_str(), token),
            None => false,
        };
        lines.push(ListedProfile { name, address: profile.address.clone(), current });
        index += 1;
    }
    assert(listed_names(lines@) =~= views(names@));
    lines
}

/// The addresses of a listing, in its order.
pub open spec fn addresses_of(listing: Listing) -> Seq<Seq<char>> {
    listing.map_values(|entry: (Seq<char>, ProfileView)| entry.1.address)
}

/// Whether a list holds a text.
pub fn list_contains(list: &Vec<String>, text: &str) -> (found: bool)
    ensures
        found == views(list@).contains(text@),
{
    let count: usize = list.len();
    let mut index: usize = 0;
    while index < count
        invariant
            index <= count,
            count == list@.len(),
            forall|j: int| 0 <= j < index ==> views(list@)[j] != text@,
        decreases count - index,
    {
        if str_equals(list[index].as_str(), text) {
            assert(views(list@)[index as int] == text@);
            return true;
        }
        index += 1;
    }
    false
}

/// The environments that the store knows: the addresses of its profiles, as
/// they were written, each once, sorted.
pub fn known_environments(profiles: &UserProfiles) -> (environments: Vec<String>)
    ensures
        ascending(views(environments@)),
        views(environments@).no_duplicates(),
        forall|address: Seq<char>| #[trigger]
            views(environments@).contains(address) <==> addresses_of(profiles.listing()).contains(
                address,
            ),
{
    let ghost addresses = addresses_of(profiles.listing());
    let count: usize = profiles.len();
    let mut found: Vec<String> = Vec::new();
    let mut index: usize = 0;
    while index < count
        invariant
            index <= count,
            count == profiles.listing().len(),
            addresses == addresses_of(profiles.listing()),
            views(found@).no_duplicates(),
            forall|k: int|
                0 <= k < found@.len() ==> addresses.contains(#[trigger] views(found@)[k]),
            forall|j: int| 0 <= j < index ==> views(found@).contains(#[trigger] addresses[j]),
        decreases count - index,
    {
        let address = &profiles.profile_at(index).address;
        assert(addresses[index as int] == address@);
        if !list_contains(&found, address.as_str()) {
            let ghost before = views(found@);
            found.push(address.clone());
            proof {
                let after = views(found@);
                assert(after =~= before.push(address@));
                assert forall|j: int| 0 <= j < index + 1 implies after.contains(
                    #[trigger] addresses[j],
                ) by {
                    if j < index {
                        let k = choose|k: int| 0 <= k < before.len() && before[k] == addresses[j];
                        assert(after[k] == addresses[j]);
                    } else {
                        assert(after[before.len() as int] == address@);
                    }
                }
            }
        }
        index += 1;
    }
    let ghost unsorted = views(found@);
    let environments = sort_names(found);
    proof {
        let sorted = views(environments@);
        assert forall|address: Seq<char>| #[trigger]
            sorted.contains(address) <==> addresses.contains(address) by {
            to_multiset_contains(sorted, address);
            to_multiset_contains(unsorted, address);
            if addresses.contains(address) {
                let j = choose|j: int| 0 <= j < addresses.len() && addresses[j] == address;
                assert(unsorted.contains(addresses[j]));
            }
        }
        unsorted.lemma_multiset_has_no_duplicates();
        sorted.lemma_multiset_has_no_duplicates_conv();
    }
    environments
}

} // verus!
