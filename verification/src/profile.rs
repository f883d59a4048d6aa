//! Profiles and the store that holds them by name.
//!
//! A profile is a credential and the raw address it belongs to. The store maps
//! each name to one profile; it keeps the order in which names came in, so that
//! whatever walks it does so the same way each time.

use vstd::prelude::*;
use vstd::string::*;
use crate::text::{
    first_index_of, lemma_first_index_of, lemma_first_index_of_unique, str_equals, views,
};

verus! {

/// A profile as contracts see it.
pub struct ProfileView {
    pub token: Seq<char>,
    pub address: Seq<char>,
}

/// A credential and the address of the server it is for.
#[derive(Debug)]
pub struct Profile {
    pub token: String,
    pub address: String,
}

impl View for Profile {
    type V = ProfileView;

    open spec fn view(&self) -> ProfileView {
        ProfileView { token: self.token@, address: self.address@ }
    }
}

impl Profile {
    /// A profile that may be stored holds a credential.
    pub open spec fn wf(&self) -> bool {
        self.token@.len() > 0
    }

    /// The profile of a credential and an address, unless the credential is
    /// empty.
    pub fn new(token: &str, address: &str) -> (made: Option<Profile>)
        ensures
            made is Some <==> token@.len() > 0,
            made is Some ==> made.unwrap().wf() && made.unwrap()@ == (ProfileView {
                token: token@,
                address: address@,
            }),
    {
        if token.unicode_len() == 0 {
            None
        } else {
            Some(Profile { token: String::from_str(token), address: String::from_str(address) })
        }
    }

    /// A second profile with the same credential and address.
    pub fn duplicate(&self) -> (copy: Profile)
        ensures
            copy@ == self@,
            copy.wf() == self.wf(),
    {
        Profile { token: self.token.clone(), address: self.address.clone() }
    }
}

/// The names of a store and their profiles, in the store's order.
pub type Listing = Seq<(Seq<char>, ProfileView)>;

/// The names of a listing, in its order.
pub open spec fn names_of(listing: Listing) -> Seq<Seq<char>> {
    listing.map_values(|entry: (Seq<char>, ProfileView)| entry.0)
}

/// Where a name stands in a listing, or the listing's length where it does
/// not occur.
pub open spec fn position_of(listing: Listing, name: Seq<char>) -> int {
    first_index_of(names_of(listing), name)
}

/// The mapping that a listing stands for.
pub open spec fn mapping_of(listing: Listing) -> Map<Seq<char>, ProfileView> {
    Map::new(
        |name: Seq<char>| position_of(listing, name) < listing.len(),
        |name: Seq<char>| listing[position_of(listing, name)].1,
    )
}

/// No name occurs twice, and every profile holds a credential.
pub open spec fn listing_wf(listing: Listing) -> bool {
    &&& forall|i: int, j: int|
        0 <= i < j < listing.len() ==> (#[trigger] listing[i]).0 != (#[trigger] listing[j]).0
    &&& forall|i: int| 0 <= i < listing.len() ==> (#[trigger] listing[i]).1.token.len() > 0
}

/// A listing with one more name at its end stands for the mapping with that
/// name added.
pub proof fn lemma_mapping_push(listing: Listing, name: Seq<char>, profile: ProfileView)
    requires
        position_of(listing, name) == listing.len(),
    ensures
        mapping_of(listing.push((name, profile))) == mapping_of(listing).insert(name, profile),
        position_of(listing.push((name, profile)), name) == listing.len(),
{
    let longer = listing.push((name, profile));
    assert(names_of(longer) =~= names_of(listing).push(name));
    let target = mapping_of(listing).insert(name, profile);
    assert forall|other: Seq<char>|
        #![trigger mapping_of(longer).dom().contains(other)]
        #![trigger target.dom().contains(other)]
        mapping_of(longer).dom().contains(other) == target.dom().contains(other) && (
        target.dom().contains(other) ==> mapping_of(longer)[other] == target[other]) by {
        lemma_first_index_of(names_of(listing), other);
        let at = position_of(listing, other);
        if other == name || at < listing.len() {
            lemma_first_index_of_unique(names_of(longer), other, at);
        } else {
            lemma_first_index_of_unique(names_of(longer), other, (listing.len() + 1) as int);
        }
    }
    lemma_first_index_of(names_of(listing), name);
    lemma_first_index_of_unique(names_of(longer), name, listing.len() as int);
    assert(mapping_of(longer) =~= mapping_of(listing).insert(name, profile));
}

/// A listing in which the profile of a name is replaced stands for the
/// mapping with that name set anew.
pub proof fn lemma_mapping_update(listing: Listing, name: Seq<char>, profile: ProfileView)
    requires
        position_of(listing, name) < listing.len(),
    ensures
        mapping_of(listing.update(position_of(listing, name), (name, profile))) == mapping_of(
            listing,
        ).insert(name, profile),
        names_of(listing.update(position_of(listing, name), (name, profile))) == names_of(listing),
{
    lemma_first_index_of(names_of(listing), name);
    let at = position_of(listing, name);
    let changed = listing.update(at, (name, profile));
    assert(names_of(changed) =~= names_of(listing));
    let target = mapping_of(listing).insert(name, profile);
    assert forall|other: Seq<char>|
        #![trigger mapping_of(changed).dom().contains(other)]
        #![trigger target.dom().contains(other)]
        mapping_of(changed).dom().contains(other) == target.dom().contains(other) && (
        target.dom().contains(other) ==> mapping_of(changed)[other] == target[other]) by {
        lemma_first_index_of(names_of(listing), other);
        assert(position_of(changed, other) == position_of(listing, other));
    }
    assert(mapping_of(changed) =~= mapping_of(listing).insert(name, profile));
}

/// A valid listing from which a name is taken out stands for the mapping
/// without that name, and is valid.
pub proof fn lemma_mapping_remove(listing: Listing, name: Seq<char>)
    requires
        listing_wf(listing),
        position_of(listing, name) < listing.len(),
    ensures
        mapping_of(listing.remove(position_of(listing, name))) == mapping_of(listing).remove(name),
        listing_wf(listing.remove(position_of(listing, name))),
{
    lemma_first_index_of(names_of(listing), name);
    let at = position_of(listing, name);
    let shorter = listing.remove(at);
    assert(names_of(shorter) =~= names_of(listing).remove(at));
    let target = mapping_of(listing).remove(name);
    assert forall|i: int| 0 <= i < shorter.len() implies #[trigger] shorter[i] == listing[if i
        < at {
        i
    } else {
        i + 1
    }] by {}
    assert forall|other: Seq<char>|
        #![trigger mapping_of(shorter).dom().contains(other)]
        #![trigger target.dom().contains(other)]
        mapping_of(shorter).dom().contains(other) == target.dom().contains(other) && (
        target.dom().contains(other) ==> mapping_of(shorter)[other] == target[other]) by {
        lemma_first_index_of(names_of(listing), other);
        let was = position_of(listing, other);
        if other == name {
            assert forall|i: int| 0 <= i < shorter.len() implies names_of(shorter)[i] != name by {
                if i < at {
                    assert(listing[i].0 != listing[at].0);
                } else {
                    assert(listing[at].0 != listing[i + 1].0);
                }
            }
            lemma_first_index_of_unique(names_of(shorter), other, shorter.len() as int);
        } else if was > at {
            assert forall|i: int| 0 <= i < was - 1 implies names_of(shorter)[i] != other by {
                if i < at {
                    assert(names_of(listing)[i] != other);
                } else {
                    assert(names_of(listing)[i + 1] != other);
                }
            }
            if was < listing.len() {
                assert(names_of(shorter)[was - 1] == names_of(listing)[was]);
            }
            lemma_first_index_of_unique(names_of(shorter), other, was - 1);
        } else {
            assert(was < at);
            assert(names_of(shorter)[was] == names_of(listing)[was]);
            lemma_first_index_of_unique(names_of(shorter), other, was);
        }
    }
    assert(listing_wf(shorter));
    assert(mapping_of(shorter) =~= mapping_of(listing).remove(name));
}

/// In a valid listing each name stands at its own position, so the mapping
/// holds every entry of the listing.
pub proof fn lemma_mapping_holds_entries(listing: Listing, index: int)
    requires
        listing_wf(listing),
        0 <= index < listing.len(),
    ensures
        position_of(listing, listing[index].0) == index,
        mapping_of(listing).contains_key(listing[index].0),
        mapping_of(listing)[listing[index].0] == listing[index].1,
{
    assert forall|i: int| 0 <= i < index implies names_of(listing)[i] != listing[index].0 by {
        assert(listing[i].0 != listing[index].0);
    }
    lemma_first_index_of_unique(names_of(listing), listing[index].0, index);
}

/// One name of a store with its profile.
#[derive(Debug)]
struct Named {
    name: String,
    profile: Profile,
}

/// The profiles of a user, by name.
#[derive(Debug)]
pub struct UserProfiles {
    entries: Vec<Named>,
}

impl View for UserProfiles {
    type V = Map<Seq<char>, ProfileView>;

    open spec fn view(&self) -> Map<Seq<char>, ProfileView> {
        mapping_of(self.listing())
    }
}

impl UserProfiles {
    /// The names and profiles of the store, in its order.
    pub closed spec fn listing(&self) -> Listing {
        self.entries@.map_values(|entry: Named| (entry.name@, entry.profile@))
    }

    /// The store is valid: no name occurs twice, and every profile holds a
    /// credential.
    pub open spec fn wf(&self) -> bool {
        listing_wf(self.listing())
    }

    /// A store without profiles.
    pub fn new() -> (store: UserProfiles)
        ensures
            store.listing() == Seq::<(Seq<char>, ProfileView)>::empty(),
            store.wf(),
    {
        let store = UserProfiles { entries: Vec::new() };
        assert(store.listing() =~= Seq::<(Seq<char>, ProfileView)>::empty());
        store
    }

    /// The number of profiles.
    pub fn len(&self) -> (count: usize)
        ensures
            count == self.listing().len(),
    {
        self.entries.len()
    }

    /// Whether the store holds no profile.
    pub fn is_empty(&self) -> (empty: bool)
        ensures
            empty == (self.listing().len() == 0),
    {
        self.entries.len() == 0
    }

    /// The name at a position of the store's order.
    pub fn name_at(&self, index: usize) -> (name: &String)
        requires
            index < self.listing().len(),
        ensures
            name@ == self.listing()[index as int].0,
    {
        &self.entries[index].name
    }

    /// The profile at a position of the store's order.
    pub fn profile_at(&self, index: usize) -> (profile: &Profile)
        requires
            index < self.listing().len(),
        ensures
            profile@ == self.listing()[index as int].1,
    {
        &self.entries[index].profile
    }

    /// Where a name stands in the store's order.
    pub fn position(&self, name: &str) -> (found: Option<usize>)
        ensures
            match found {
                Some(index) => index < self.listing().len() && index == position_of(
                    self.listing(),
                    name@,
                ),
                None => position_of(self.listing(), name@) == self.listing().len(),
            },
    {
        let count: usize = self.entries.len();
        let ghost names = names_of(self.listing());
        let mut index: usize = 0;
        while index < count
            invariant
                index <= count,
                count == self.entries@.len(),
                names == names_of(self.listing()),
                forall|j: int| 0 <= j < index ==> names[j] != name@,
            decreases count - index,
        {
            if str_equals(self.entries[index].name.as_str(), name) {
                proof {
                    lemma_first_index_of_unique(names, name@, index as int);
                }
                return Some(index);
            }
            index += 1;
        }
        proof {
            lemma_first_index_of_unique(names, name@, count as int);
        }
        None
    }

    /// The profile of a name.
    pub fn get(&self, name: &str) -> (found: Option<&Profile>)
        ensures
            match found {
                Some(profile) => self@.contains_key(name@) && self@[name@] == profile@,
                None => !self@.contains_key(name@),
            },
            self.wf() && found is Some ==> found.unwrap().wf(),
    {
        match self.position(name) {
            Some(index) => Some(&self.entries[index].profile),
            None => None,
        }
    }

    /// Whether the store holds a profile of that name.
    pub fn contains_key(&self, name: &str) -> (found: bool)
        ensures
            found == self@.contains_key(name@),
    {
        self.position(name).is_some()
    }

    /// Stores a profile under a name, in place of the one that the name had;
    /// returns that one. A new name goes to the end of the store's order.
    pub fn insert(&mut self, name: &str, profile: Profile) -> (previous: Option<Profile>)
        requires
            old(self).wf(),
            profile.wf(),
        ensures
            final(self).wf(),
            final(self)@ == old(self)@.insert(name@, profile@),
            final(self).listing() == (if old(self)@.contains_key(name@) {
                old(self).listing().update(
                    position_of(old(self).listing(), name@),
                    (name@, profile@),
                )
            } else {
                old(self).listing().push((name@, profile@))
            }),
            match previous {
                Some(before) => old(self)@.contains_key(name@) && old(self)@[name@] == before@,
                None => !old(self)@.contains_key(name@),
            },
    {
        let ghost before = self.listing();
        let ghost fresh = profile@;
        proof {
            lemma_first_index_of(names_of(before), name@);
        }
        match self.position(name) {
            Some(index) => {
                let previous = self.entries.remove(index);
                self.entries.insert(index, Named { name: String::from_str(name), profile });
                proof {
                    lemma_mapping_update(before, name@, fresh);
                    assert(self.listing() =~= before.update(index as int, (name@, fresh)));
                    assert forall|i: int| 0 <= i < before.len() implies (
                    #[trigger] self.listing()[i]).0 == before[i].0 by {
                        assert(names_of(before)[index as int] == name@);
                    }
                }
                Some(previous.profile)
            },
            None => {
                self.entries.push(Named { name: String::from_str(name), profile });
                proof {
                    lemma_mapping_push(before, name@, fresh);
                    assert(self.listing() =~= before.push((name@, fresh)));
                    assert forall|i: int| 0 <= i < before.len() implies (#[trigger] before[i]).0
                        != name@ by {
                        assert(names_of(before)[i] != name@);
                    }
                }
                None
            },
        }
    }

    /// Takes the profile of a name out of the store and returns it.
    pub fn remove(&mut self, name: &str) -> (removed: Option<Profile>)
        requires
            old(self).wf(),
        ensures
            final(self).wf(),
            final(self)@ == old(self)@.remove(name@),
            match removed {
                Some(profile) => old(self)@.contains_key(name@) && old(self)@[name@] == profile@
                    && final(self).listing() == old(self).listing().remove(
                    position_of(old(self).listing(), name@),
                ),
                None => !old(self)@.contains_key(name@) && final(self).listing() == old(
                    self,
                ).listing(),
            },
    {
        let ghost before = self.listing();
        match self.position(name) {
            Some(index) => {
                let entry = self.entries.remove(index);
                proof {
                    lemma_mapping_remove(before, name@);
                    assert(self.listing() =~= before.remove(index as int));
                }
                Some(entry.profile)
            },
            None => {
                assert(self@ =~= self@.remove(name@));
                None
            },
        }
    }

    /// Gives the profile of a name a new address. Returns whether the store
    /// holds that name; where it does not, nothing changes.
    pub fn set_address(&mut self, name: &str, address: &str) -> (found: bool)
        requires
            old(self).wf(),
        ensures
            final(self).wf(),
            found == old(self)@.contains_key(name@),
            found ==> final(self)@ == old(self)@.insert(
                name@,
                (ProfileView { token: old(self)@[name@].token, address: address@ }),
            ),
            !found ==> final(self).listing() == old(self).listing(),
    {
        match self.position(name) {
            Some(index) => {
                proof {
                    lemma_mapping_holds_entries(self.listing(), index as int);
                    lemma_first_index_of(names_of(self.listing()), name@);
                }
                let token = self.entries[index].profile.token.clone();
                let moved = Profile { token, address: String::from_str(address) };
                self.insert(name, moved);
                true
            },
            None => false,
        }
    }

    /// The names of the store, in its order.
    pub fn names(&self) -> (names: Vec<String>)
        ensures
            views(names@) == names_of(self.listing()),
    {
        let count: usize = self.entries.len();
        let mut names: Vec<String> = Vec::new();
        let mut index: usize = 0;
        while index < count
            invariant
                index <= count,
                count == self.entries@.len(),
                names@.len() == index,
                forall|j: int| 0 <= j < index ==> (#[trigger] names@[j])@ == self.listing()[j].0,
            decreases count - index,
        {
            names.push(self.entries[index].name.clone());
            index += 1;
        }
        assert(views(names@) =~= names_of(self.listing()));
        names
    }
}

} // verus!
