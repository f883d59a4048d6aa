//! The profile store as a TOML document: reading it in either of its two
//! schemas, and writing it in the current one.
//!
//! In the current schema each name holds a table with a `token` and an
//! `address`. In the legacy schema each name holds the credential itself. A
//! schema is told by the shape of the document alone; a legacy store is
//! upgraded by giving every profile the address `local`.

use vstd::prelude::*;
use vstd::string::*;
use toml_edit::DocumentMut;
use crate::address::local_alias;
use crate::document::{
    doc_entries, doc_keys, doc_parse, doc_print, doc_record_set_text, doc_record_text,
    doc_set_record, doc_text, no_entries, parsed_entries, printed, toml_error_text, Entries,
    Entry, Fields,
};
use crate::error::{ProfileError, SchemaFailure};
use crate::text::{blank, is_blank, lemma_first_index_of, lemma_first_index_of_unique, views};
use crate::profile::{
    lemma_mapping_holds_entries, lemma_mapping_push, listing_wf, mapping_of, names_of,
    position_of, Listing, Profile, ProfileView, UserProfiles,
};

verus! {

/// Which of the two schemas a store is read in.
#[derive(Debug, Clone, Copy, PartialEq, Eq, Structural)]
pub enum Schema {
    /// Each name holds a table with a `token` and an `address`.
    Current,
    /// Each name holds its credential.
    Legacy,
}

/// `token`, the field of a profile's credential.
pub open spec fn token_field() -> Seq<char> {
    seq!['t', 'o', 'k', 'e', 'n']
}

/// `address`, the field of a profile's address.
pub open spec fn address_field() -> Seq<char> {
    seq!['a', 'd', 'd', 'r', 'e', 's', 's']
}

/// The profile that an entry stands for in a schema. In the current schema it
/// is a table with a credential that is not empty and an address, both strings;
/// in the legacy schema a credential that is not empty, which gets the address
/// `local`. `None` for an entry that does not fit.
pub open spec fn profile_in(schema: Schema, entry: Entry) -> Option<ProfileView> {
    match schema {
        Schema::Current => match entry {
            Entry::Record(fields) => if fields.contains_key(token_field())
                && fields[token_field()].len() > 0 && fields.contains_key(address_field()) {
                Some(ProfileView { token: fields[token_field()], address: fields[address_field()] })
            } else {
                None
            },
            _ => None,
        },
        Schema::Legacy => match entry {
            Entry::Text(token) => if token.len() > 0 {
                Some(ProfileView { token, address: local_alias() })
            } else {
                None
            },
            _ => None,
        },
    }
}

/// Every entry of the document fits the schema.
pub open spec fn fits(entries: Entries, schema: Schema) -> bool {
    forall|name: Seq<char>| #[trigger]
        entries.contains_key(name) ==> profile_in(schema, entries[name]) is Some
}

/// The document holds an entry of that name which does not fit the schema.
pub open spec fn misfit(entries: Entries, schema: Schema, name: Seq<char>) -> bool {
    entries.contains_key(name) && profile_in(schema, entries[name]) is None
}

/// The failure names an entry of the document that does not fit the schema.
pub open spec fn names_misfit(entries: Entries, schema: Schema, failure: SchemaFailure) -> bool {
    match failure {
        SchemaFailure::Shape { entry } => misfit(entries, schema, entry@),
        SchemaFailure::Syntax(_) => false,
    }
}

/// The store that a document stands for in a schema.
pub open spec fn standing_for(entries: Entries, schema: Schema) -> Map<Seq<char>, ProfileView> {
    Map::new(
        |name: Seq<char>| entries.contains_key(name),
        |name: Seq<char>| profile_in(schema, entries[name]).unwrap(),
    )
}

/// The table that a profile is written as.
pub open spec fn record_of(profile: ProfileView) -> Fields {
    Map::<Seq<char>, Seq<char>>::empty().insert(token_field(), profile.token).insert(
        address_field(),
        profile.address,
    )
}

/// The document that a store is written as.
pub open spec fn encoded(store: Map<Seq<char>, ProfileView>) -> Entries {
    Map::new(
        |name: Seq<char>| store.contains_key(name),
        |name: Seq<char>| Entry::Record(record_of(store[name])),
    )
}

/// The store that a document stands for and the schema it was read in: the
/// current schema where every entry fits it, else the legacy schema where every
/// entry fits that; `None` where the document fits neither.
pub open spec fn store_in(entries: Entries) -> Option<(Map<Seq<char>, ProfileView>, Schema)> {
    if fits(entries, Schema::Current) {
        Some((standing_for(entries, Schema::Current), Schema::Current))
    } else if fits(entries, Schema::Legacy) {
        Some((standing_for(entries, Schema::Legacy), Schema::Legacy))
    } else {
        None
    }
}

/// Writing a store and reading it again gives the store back: the document
/// that a store is written as is read in the current schema, as that store. It
/// holds of every store whose profiles all hold a credential.
pub proof fn lemma_store_round_trip(store: Map<Seq<char>, ProfileView>)
    requires
        forall|name: Seq<char>| #[trigger] store.contains_key(name) ==> store[name].token.len() > 0,
    ensures
        fits(encoded(store), Schema::Current),
        standing_for(encoded(store), Schema::Current) == store,
        store_in(encoded(store)) == Some((store, Schema::Current)),
{
    assert(token_field()[0] != address_field()[0]);
    assert forall|name: Seq<char>| #[trigger] store.contains_key(name) implies profile_in(
        Schema::Current,
        encoded(store)[name],
    ) == Some(store[name]) by {}
    assert(standing_for(encoded(store), Schema::Current) =~= store);
}

/// An upgrade happens once: the document that an upgraded legacy store is
/// written as is read in the current schema, as the same store.
pub proof fn lemma_migration_heals(entries: Entries)
    requires
        store_in(entries) == Some((standing_for(entries, Schema::Legacy), Schema::Legacy)),
    ensures
        store_in(encoded(standing_for(entries, Schema::Legacy))) == Some(
            (standing_for(entries, Schema::Legacy), Schema::Current),
        ),
{
    lemma_store_round_trip(standing_for(entries, Schema::Legacy));
}

/// The entries that a list of keys reaches in a document, read in a schema.
pub open spec fn listed(entries: Entries, keys: Seq<Seq<char>>, schema: Schema) -> Listing {
    Seq::new(keys.len(), |j: int| (keys[j], profile_in(schema, entries[keys[j]]).unwrap()))
}

/// A listing made of each key of a document once stands for the store that
/// the document stands for.
proof fn lemma_listed_mapping(entries: Entries, keys: Seq<Seq<char>>, schema: Schema)
    requires
        keys.no_duplicates(),
        keys.to_set() == entries.dom(),
        forall|j: int|
            0 <= j < keys.len() ==> (#[trigger] profile_in(schema, entries[keys[j]])) is Some,
    ensures
        listing_wf(listed(entries, keys, schema)),
        mapping_of(listed(entries, keys, schema)) == standing_for(entries, schema),
        fits(entries, schema),
{
    let listing = listed(entries, keys, schema);
    let target = standing_for(entries, schema);
    assert forall|i: int, j: int| 0 <= i < j < listing.len() implies (#[trigger] listing[i]).0 != (
    #[trigger] listing[j]).0 by {
        assert(keys[i] != keys[j]);
    }
    assert forall|i: int| 0 <= i < listing.len() implies (#[trigger] listing[i]).1.token.len()
        > 0 by {
        assert(profile_in(schema, entries[keys[i]]) is Some);
    }
    assert forall|name: Seq<char>|
        #![trigger mapping_of(listing).dom().contains(name)]
        #![trigger target.dom().contains(name)]
        mapping_of(listing).dom().contains(name) == target.dom().contains(name) && (
        target.dom().contains(name) ==> mapping_of(listing)[name] == target[name]) by {
        if entries.contains_key(name) {
            assert(keys.to_set().contains(name));
            let j = choose|j: int| 0 <= j < keys.len() && keys[j] == name;
            assert(listing[j].0 == name);
            lemma_mapping_holds_entries(listing, j);
        }
        if mapping_of(listing).dom().contains(name) {
            lemma_first_index_of(names_of(listing), name);
            let at = position_of(listing, name);
            assert(names_of(listing)[at] == name);
            assert(keys[at] == name);
            assert(keys.to_set().contains(name));
        }
    }
    assert(mapping_of(listing) =~= target);
    assert forall|name: Seq<char>| #[trigger] entries.contains_key(name) implies profile_in(
        schema,
        entries[name],
    ) is Some by {
        assert(keys.to_set().contains(name));
        let j = choose|j: int| 0 <= j < keys.len() && keys[j] == name;
        assert(profile_in(schema, entries[keys[j]]) is Some);
    }
}

/// The profile under a key of a document, read in a schema.
fn read_entry(doc: &DocumentMut, key: &str, schema: Schema) -> (read: Option<Profile>)
    requires
        doc_entries(*doc).contains_key(key@),
    ensures
        match read {
            Some(profile) => profile.wf() && profile_in(schema, doc_entries(*doc)[key@]) == Some(
                profile@,
            ),
            None => profile_in(schema, doc_entries(*doc)[key@]) is None,
        },
{
    proof {
        reveal_strlit("token");
        reveal_strlit("address");
        reveal_strlit("local");
        assert("token"@ =~= token_field());
        assert("address"@ =~= address_field());
        assert("local"@ =~= local_alias());
    }
    match schema {
        Schema::Current => match doc_record_text(doc, key, "token") {
            Some(token) => match doc_record_text(doc, key, "address") {
                Some(address) => Profile::new(token.as_str(), address.as_str()),
                None => None,
            },
            None => None,
        },
        Schema::Legacy => match doc_text(doc, key) {
            Some(token) => Profile::new(token.as_str(), "local"),
            None => None,
        },
    }
}

/// The profiles that a document stands for, read in one schema, or the name
/// of an entry of the document that does not fit it.
fn decode_in(doc: &DocumentMut, keys: &Vec<String>, schema: Schema) -> (read: Result<
    UserProfiles,
    String,
>)
    requires
        views(keys@).no_duplicates(),
        views(keys@).to_set() == doc_entries(*doc).dom(),
    ensures
        match read {
            Ok(profiles) => profiles.wf() && fits(doc_entries(*doc), schema) && profiles@
                == standing_for(doc_entries(*doc), schema),
            Err(entry) => misfit(doc_entries(*doc), schema, entry@),
        },
{
    let ghost entries = doc_entries(*doc);
    let ghost names = views(keys@);
    let count: usize = keys.len();
    let mut profiles = UserProfiles::new();
    let mut index: usize = 0;
    while index < count
        invariant
            index <= count,
            count == keys@.len(),
            entries == doc_entries(*doc),
            names == views(keys@),
            names.no_duplicates(),
            names.to_set() == entries.dom(),
            profiles.wf(),
            profiles.listing() == listed(entries, names.take(index as int), schema),
            forall|j: int|
                0 <= j < index ==> (#[trigger] profile_in(schema, entries[names[j]])) is Some,
        decreases count - index,
    {
        let key = keys[index].as_str();
        assert(key@ == names[index as int]);
        assert(names.to_set().contains(key@));
        match read_entry(doc, key, schema) {
            Some(profile) => {
                proof {
                    let listing = profiles.listing();
                    assert forall|j: int| 0 <= j < listing.len() implies names_of(listing)[j]
                        != key@ by {
                        assert(names[j] != names[index as int]);
                    }
                    lemma_first_index_of_unique(names_of(listing), key@, listing.len() as int);
                }
                profiles.insert(key, profile);
                proof {
                    assert(names.take(index + 1) =~= names.take(index as int).push(key@));
                    assert(profiles.listing() =~= listed(entries, names.take(index + 1), schema));
                }
            },
            None => {
                return Err(keys[index].clone());
            },
        }
        index += 1;
    }
    proof {
        assert(names.take(count as int) =~= names);
        lemma_listed_mapping(entries, names, schema);
    }
    Ok(profiles)
}

/// The store that a text stands for: none at all for a blank text, else what
/// its document stands for.
pub open spec fn store_of_text(text: Seq<char>) -> Option<(Map<Seq<char>, ProfileView>, Schema)> {
    if blank(text) {
        Some((Map::empty(), Schema::Current))
    } else {
        match parsed_entries(text) {
            Some(entries) => store_in(entries),
            None => None,
        }
    }
}

/// The store that a file stands for; `None` is the file that does not exist.
pub open spec fn store_of_file(content: Option<&str>) -> Option<
    (Map<Seq<char>, ProfileView>, Schema),
> {
    match content {
        Some(text) => store_of_text(text@),
        None => Some((Map::empty(), Schema::Current)),
    }
}

/// What has to be written back after a store was read: an empty document for
/// the file that did not exist, the upgraded store for a file in the legacy
/// schema, and nothing else.
pub open spec fn to_persist(
    content: Option<&str>,
    store: Map<Seq<char>, ProfileView>,
    schema: Schema,
) -> Option<Entries> {
    if content is None {
        Some(no_entries())
    } else if schema == Schema::Legacy {
        Some(encoded(store))
    } else {
        None
    }
}

/// The document that a read store asks to write back.
pub open spec fn persisted(read: LoadedProfiles) -> Option<Entries> {
    match read.persist {
        Some(doc) => Some(doc_entries(doc)),
        None => None,
    }
}

/// A store that was read, and what has to be written back to the file it came
/// from before anything else is done: an empty document where there was no
/// file, the upgraded store where the file was in the legacy schema.
#[derive(Debug)]
pub struct LoadedProfiles {
    pub profiles: UserProfiles,
    pub schema: Schema,
    pub persist: Option<DocumentMut>,
}

/// Reads a store from its document, in the current schema or else in the
/// legacy one. Where the document fits neither, the error names, for each
/// schema, an entry that does not fit it.
pub fn profiles_from_document(doc: &DocumentMut) -> (read: Result<
    (UserProfiles, Schema),
    ProfileError,
>)
    ensures
        match read {
            Ok((profiles, schema)) => profiles.wf() && store_in(doc_entries(*doc)) == Some(
                (profiles@, schema),
            ),
            Err(ProfileError::CorruptStore { current, legacy }) => {
                &&& store_in(doc_entries(*doc)) is None
                &&& names_misfit(doc_entries(*doc), Schema::Current, current)
                &&& names_misfit(doc_entries(*doc), Schema::Legacy, legacy)
            },
            Err(_) => false,
        },
{
    let keys = doc_keys(doc);
    let current = match decode_in(doc, &keys, Schema::Current) {
        Ok(profiles) => {
            return Ok((profiles, Schema::Current));
        },
        Err(entry) => entry,
    };
    match decode_in(doc, &keys, Schema::Legacy) {
        Ok(profiles) => Ok((profiles, Schema::Legacy)),
        Err(entry) => Err(
            ProfileError::CorruptStore {
                current: SchemaFailure::Shape { entry: current },
                legacy: SchemaFailure::Shape { entry },
            },
        ),
    }
}

/// The document that a store is written as: under each name a table with the
/// profile's `token` and `address`.
pub fn profiles_document(profiles: &UserProfiles) -> (doc: DocumentMut)
    requires
        profiles.wf(),
    ensures
        doc_entries(doc) == encoded(profiles@),
{
    proof {
        reveal_strlit("token");
        reveal_strlit("address");
        assert("token"@ =~= token_field());
        assert("address"@ =~= address_field());
    }
    let ghost listing = profiles.listing();
    let count: usize = profiles.len();
    let mut doc = DocumentMut::new();
    let mut index: usize = 0;
    assert(doc_entries(doc) =~= encoded(mapping_of(listing.take(0))));
    while index < count
        invariant
            index <= count,
            count == listing.len(),
            listing == profiles.listing(),
            listing_wf(listing),
            "token"@ == token_field(),
            "address"@ == address_field(),
            doc_entries(doc) == encoded(mapping_of(listing.take(index as int))),
        decreases count - index,
    {
        let name = profiles.name_at(index).as_str();
        let profile = profiles.profile_at(index);
        let ghost before = doc_entries(doc);
        doc_set_record(&mut doc, name);
        doc_record_set_text(&mut doc, name, "token", profile.token.as_str());
        doc_record_set_text(&mut doc, name, "address", profile.address.as_str());
        proof {
            let shorter = listing.take(index as int);
            let longer = listing.take(index + 1);
            assert(longer =~= shorter.push(listing[index as int]));
            assert forall|j: int| 0 <= j < shorter.len() implies names_of(shorter)[j]
                != name@ by {
                assert(listing[j].0 != listing[index as int].0);
            }
            lemma_first_index_of_unique(names_of(shorter), name@, shorter.len() as int);
            lemma_mapping_push(shorter, name@, profile@);
            assert(doc_entries(doc) =~= before.insert(name@, Entry::Record(record_of(profile@))));
            assert(doc_entries(doc) =~= encoded(mapping_of(longer)));
        }
        index += 1;
    }
    assert(listing.take(count as int) =~= listing);
    doc
}

/// A text is the text of a store where it is what is written for a document
/// that holds the whole store: under each name a table with the profile's
/// `token` and `address`, and nothing else.
pub open spec fn is_text_of(text: Seq<char>, store: Map<Seq<char>, ProfileView>) -> bool {
    exists|doc: DocumentMut| doc_entries(doc) == encoded(store) && #[trigger] printed(doc) == text
}

/// The text of a store, as it goes to its file: the whole store, written as
/// one document.
pub fn write_profiles(profiles: &UserProfiles) -> (text: String)
    requires
        profiles.wf(),
    ensures
        is_text_of(text@, profiles@),
{
    let doc = profiles_document(profiles);
    doc_print(&doc)
}

/// Reads a store from the text of its file; `None` stands for a file that does
/// not exist. A missing file and a blank text give an empty store. A text in
/// the legacy schema gives the upgraded store, together with the document to
/// write back at once. A text that fits neither schema is an error, and
/// nothing is to be written; the error says of each schema whether the text
/// was no TOML at all, or names an entry that does not fit.
pub fn read_profiles(content: Option<&str>) -> (loaded: Result<LoadedProfiles, ProfileError>)
    ensures
        match loaded {
            Ok(read) => {
                &&& read.profiles.wf()
                &&& store_of_file(content) == Some((read.profiles@, read.schema))
                &&& persisted(read) == to_persist(content, read.profiles@, read.schema)
            },
            Err(ProfileError::CorruptStore { current, legacy }) => {
                &&& content is Some
                &&& store_of_file(content) is None
                &&& match parsed_entries(content.unwrap()@) {
                    Some(entries) => names_misfit(entries, Schema::Current, current)
                        && names_misfit(entries, Schema::Legacy, legacy),
                    None => current is Syntax && legacy is Syntax,
                }
            },
            Err(_) => false,
        },
{
    let text = match content {
        Some(text) => text,
        None => {
            let profiles = UserProfiles::new();
            assert(profiles@ =~= Map::<Seq<char>, ProfileView>::empty());
            return Ok(
                LoadedProfiles {
                    profiles,
                    schema: Schema::Current,
                    persist: Some(DocumentMut::new()),
                },
            );
        },
    };
    if is_blank(text) {
        let profiles = UserProfiles::new();
        assert(profiles@ =~= Map::<Seq<char>, ProfileView>::empty());
        return Ok(LoadedProfiles { profiles, schema: Schema::Current, persist: None });
    }
    let doc = match doc_parse(text) {
        Ok(doc) => doc,
        Err(error) => {
            return Err(
                ProfileError::CorruptStore {
                    current: SchemaFailure::Syntax(toml_error_text(&error)),
                    legacy: SchemaFailure::Syntax(toml_error_text(&error)),
                },
            );
        },
    };
    match profiles_from_document(&doc) {
        Ok((profiles, schema)) => {
            let persist = match schema {
                Schema::Current => None,
                Schema::Legacy => Some(profiles_document(&profiles)),
            };
            Ok(LoadedProfiles { profiles, schema, persist })
        },
        Err(error) => Err(error),
    }
}

} // verus!
