//! Which profile a command is about.
//!
//! A command names its profile, or leaves the choice to the environment: the
//! profiles whose raw address equals a filter. Addresses are compared as they
//! were written, so `local` and `http://127.0.0.1:3000` are two environments.
//! Where several profiles fit, a person chooses from the sorted list; where
//! nobody is there to choose, that is an error and no profile is picked.

use vstd::prelude::*;
use vstd::string::*;
use vstd::seq_lib::to_multiset_contains;
use crate::error::ProfileError;
use crate::order::{ascending, sort_names};
use crate::profile::{
    lemma_mapping_holds_entries, names_of, position_of, Profile, ProfileView, UserProfiles,
};
use crate::text::{lemma_first_index_of, str_equals, views};

verus! {

/// The characters of a text that may be absent.
pub open spec fn filter_view(filter: Option<&str>) -> Option<Seq<char>> {
    match filter {
        Some(text) => Some(text@),
        None => None,
    }
}

/// A profile belongs to the environment of a filter where its address, as it
/// was written, is the filter; without a filter every profile belongs.
pub open spec fn in_environment(profile: ProfileView, filter: Option<Seq<char>>) -> bool {
    match filter {
        Some(address) => profile.address == address,
        None => true,
    }
}

/// The store holds a profile of that name in the environment.
pub open spec fn is_candidate(
    store: Map<Seq<char>, ProfileView>,
    filter: Option<Seq<char>>,
    name: Seq<char>,
) -> bool {
    store.contains_key(name) && in_environment(store[name], filter)
}

/// The list holds the names of the store's profiles in the environment, each
/// once, in ascending order.
pub open spec fn candidates_are(
    names: Seq<Seq<char>>,
    store: Map<Seq<char>, ProfileView>,
    filter: Option<Seq<char>>,
) -> bool {
    &&& ascending(names)
    &&& names.no_duplicates()
    &&& forall|name: Seq<char>| #[trigger]
        names.contains(name) <==> is_candidate(store, filter, name)
}

/// Whether a profile belongs to the environment of a filter.
pub fn profile_in_environment(profile: &Profile, filter: Option<&str>) -> (fits: bool)
    ensures
        fits == in_environment(profile@, filter_view(filter)),
{
    match filter {
        Some(address) => str_equals(profile.address.as_str(), address),
        None => true,
    }
}

/// The names of the profiles in the environment of a filter, sorted.
pub fn environment_profiles(profiles: &UserProfiles, filter: Option<&str>) -> (names: Vec<String>)
    requires
        profiles.wf(),
    ensures
        candidates_are(views(names@), profiles@, filter_view(filter)),
{
    let ghost listing = profiles.listing();
    let ghost store = profiles@;
    let ghost environment = filter_view(filter);
    let count: usize = profiles.len();
    let mut found: Vec<String> = Vec::new();
    let ghost mut picks: Seq<int> = Seq::empty();
    let mut index: usize = 0;
    while index < count
        invariant
            index <= count,
            count == listing.len(),
            listing == profiles.listing(),
            store == profiles@,
            profiles.wf(),
            environment == filter_view(filter),
            picks.len() == found@.len(),
            forall|k: int| 0 <= k < picks.len() ==> 0 <= #[trigger] picks[k] < index,
            forall|k: int, l: int| 0 <= k < l < picks.len() ==> picks[k] < picks[l],
            forall|k: int|
                0 <= k < picks.len() ==> (#[trigger] views(found@)[k]) == listing[picks[k]].0
                    && in_environment(listing[picks[k]].1, environment),
            forall|j: int|
                0 <= j < index && in_environment((#[trigger] listing[j]).1, environment)
                    ==> views(found@).contains(listing[j].0),
        decreases count - index,
    {
        if profile_in_environment(profiles.profile_at(index), filter) {
            let ghost before = views(found@);
            found.push(profiles.name_at(index).clone());
            proof {
                let after = views(found@);
                let name = listing[index as int].0;
                picks = picks.push(index as int);
                assert(after =~= before.push(name));
                assert forall|j: int|
                    0 <= j < index + 1 && in_environment(
                        (#[trigger] listing[j]).1,
                        environment,
                    ) implies after.contains(listing[j].0) by {
                    if j < index {
                        let k = choose|k: int| 0 <= k < before.len() && before[k] == listing[j].0;
                        assert(after[k] == listing[j].0);
                    } else {
                        assert(after[before.len() as int] == name);
                    }
                }
            }
        }
        index += 1;
    }
    let ghost unsorted = views(found@);
    let names = sort_names(found);
    proof {
        let sorted = views(names@);
        assert forall|name: Seq<char>| #[trigger]
            sorted.contains(name) <==> is_candidate(store, environment, name) by {
            to_multiset_contains(sorted, name);
            to_multiset_contains(unsorted, name);
            if unsorted.contains(name) {
                let k = choose|k: int| 0 <= k < unsorted.len() && unsorted[k] == name;
                lemma_mapping_holds_entries(listing, picks[k]);
            }
            if is_candidate(store, environment, name) {
                lemma_first_index_of(names_of(listing), name);
                let at = position_of(listing, name);
                assert(names_of(listing)[at] == name);
                assert(in_environment(listing[at].1, environment));
            }
        }
        assert forall|k: int, l: int| 0 <= k < l < unsorted.len() implies unsorted[k]
            != unsorted[l] by {
            assert(listing[picks[k]].0 != listing[picks[l]].0);
        }
        unsorted.lemma_multiset_has_no_duplicates();
        sorted.lemma_multiset_has_no_duplicates_conv();
    }
    names
}

/// What has been settled about the profile of a command.
#[derive(Debug)]
pub enum Selection {
    /// This profile, and no other, is meant.
    Chosen(String),
    /// A person has to choose from this list of the profiles that fit.
    Ask(Vec<String>),
}

/// Two different profiles of the store belong to the environment.
pub open spec fn ambiguous(store: Map<Seq<char>, ProfileView>, filter: Option<Seq<char>>) -> bool {
    exists|first: Seq<char>, second: Seq<char>|
        first != second && #[trigger] is_candidate(store, filter, first) && #[trigger] is_candidate(
            store,
            filter,
            second,
        )
}

/// Settles which profile a command is about.
///
/// A name that the command gives is taken, unless the store does not hold it
/// or its address is not the filter's. Without a name, the one profile of the
/// environment is taken; where there are several, they are handed back for a
/// person to choose from, or, where `interactive` is false, the command fails
/// with `AmbiguousSelection`. With `confirm_single`, a person who is there is
/// also asked where only one profile fits.
pub fn select_profile(
    profiles: &UserProfiles,
    explicit: Option<&str>,
    filter: Option<&str>,
    interactive: bool,
    confirm_single: bool,
) -> (settled: Result<Selection, ProfileError>)
    requires
        profiles.wf(),
    ensures
        match settled {
            Ok(Selection::Chosen(name)) => is_candidate(profiles@, filter_view(filter), name@) && (
            match explicit {
                Some(given) => name@ == given@,
                None => !ambiguous(profiles@, filter_view(filter)) && !(interactive
                    && confirm_single),
            }),
            Ok(Selection::Ask(names)) => explicit is None && interactive && names@.len() > 0 && (
            ambiguous(profiles@, filter_view(filter)) || confirm_single) && candidates_are(
                views(names@),
                profiles@,
                filter_view(filter),
            ),
            Err(ProfileError::AmbiguousSelection { candidates }) => explicit is None
                && !interactive && ambiguous(profiles@, filter_view(filter)) && candidates_are(
                views(candidates@),
                profiles@,
                filter_view(filter),
            ),
            Err(ProfileError::NotFound { what }) => match explicit {
                Some(given) => !profiles@.contains_key(given@) && what@ == given@,
                None => (forall|name: Seq<char>|
                    !is_candidate(profiles@, filter_view(filter), name)) && what@ == (
                match filter {
                    Some(address) => address@,
                    None => Seq::<char>::empty(),
                }),
            },
            Err(ProfileError::ConflictingAddress { name, address, requested }) => filter_view(
                explicit,
            ) == Some(name@) && profiles@.contains_key(name@) && address@
                == profiles@[name@].address && filter_view(filter) == Some(requested@)
                && address@ != requested@,
            Err(_) => false,
        },
        explicit is None && !interactive && ambiguous(profiles@, filter_view(filter))
            ==> settled is Err && settled->Err_0 is AmbiguousSelection,
{
    match explicit {
        Some(given) => match profiles.get(given) {
            Some(profile) => {
                if profile_in_environment(profile, filter) {
                    Ok(Selection::Chosen(String::from_str(given)))
                } else {
                    Err(
                        ProfileError::ConflictingAddress {
                            name: String::from_str(given),
                            address: profile.address.clone(),
                            requested: String::from_str(filter.unwrap()),
                        },
                    )
                }
            },
            None => Err(ProfileError::NotFound { what: String::from_str(given) }),
        },
        None => {
            let mut names = environment_profiles(profiles, filter);
            let ghost listed = views(names@);
            if names.len() == 0 {
                assert forall|name: Seq<char>|
                    !is_candidate(profiles@, filter_view(filter), name) by {
                    assert(!listed.contains(name));
                }
                let what = match filter {
                    Some(address) => String::from_str(address),
                    None => String::new(),
                };
                Err(ProfileError::NotFound { what })
            } else if names.len() == 1 {
                if interactive && confirm_single {
                    return Ok(Selection::Ask(names));
                }
                let name = names.pop().unwrap();
                proof {
                    assert(listed[0] == name@);
                    assert(listed.contains(name@));
                    assert forall|first: Seq<char>, second: Seq<char>|
                        first != second && #[trigger] is_candidate(
                            profiles@,
                            filter_view(filter),
                            first,
                        ) && #[trigger] is_candidate(
                            profiles@,
                            filter_view(filter),
                            second,
                        ) implies false by {
                        assert(listed.contains(first));
                        assert(listed.contains(second));
                    }
                }
                Ok(Selection::Chosen(name))
            } else {
                proof {
                    assert(listed.contains(listed[0]));
                    assert(listed.contains(listed[1]));
                    assert(listed[0] != listed[1]);
                    assert(is_candidate(profiles@, filter_view(filter), listed[0]));
                    assert(is_candidate(profiles@, filter_view(filter), listed[1]));
                }
                if interactive {
                    Ok(Selection::Ask(names))
                } else {
                    Err(ProfileError::AmbiguousSelection { candidates: names })
                }
            }
        },
    }
}

} // verus!
