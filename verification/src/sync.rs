//! Keeping the configuration document in step with the profiles.
//!
//! Activating a profile writes its credential and its raw address into the
//! document and gives its name one row in the registry. Reconciling walks the
//! whole store and gives every name its row. Both only change or add rows: a
//! row whose name the store no longer holds stays where it is.

use vstd::prelude::*;
use vstd::string::*;
use toml_edit::DocumentMut;
use crate::address::{normalize_server_target, target_of};
use crate::document::{
    doc_entries, field_at, rows_at, text_at, text_view, Entries, Entry, Fields,
};
use crate::profile::{
    lemma_mapping_holds_entries, listing_wf, mapping_of, names_of, Listing, Profile, ProfileView,
    UserProfiles,
};
use crate::registry::{
    ensure_registry, get_scalar, host_field, lemma_upsert_rows, lemma_upsert_rows_unique,
    nicknames_of, nicknames_unique, protocol_field, registry_key, registry_wf, row_kept,
    row_position, set_scalar, upsert_registry, upsert_registry_entry, upsert_rows, with_registry,
};
use crate::text::{lemma_first_index_of, lemma_first_index_of_unique};

verus! {

/// `default_host`, the key that holds the address of the active profile.
pub open spec fn default_host_key() -> Seq<char> {
    seq!['d', 'e', 'f', 'a', 'u', 'l', 't', '_', 'h', 'o', 's', 't']
}

/// The document after a name was given its server: its row in the registry
/// has the host and the protocol of the address. Nothing else changes.
pub open spec fn targeted(entries: Entries, name: Seq<char>, address: Seq<char>) -> Entries {
    upsert_registry(entries, name, target_of(address).1, target_of(address).0)
}

/// The document after a profile was activated: the credential under the
/// document's credential key, the raw address under `default_host`, and one
/// row of the registry for the name. Every other key stays as it is.
pub open spec fn activated(
    entries: Entries,
    token_key: Seq<char>,
    name: Seq<char>,
    profile: ProfileView,
) -> Entries {
    targeted(
        entries.insert(token_key, Entry::Text(profile.token)).insert(
            default_host_key(),
            Entry::Text(profile.address),
        ),
        name,
        profile.address,
    )
}

/// The document after its registry was reconciled with a store: an upsert for
/// each name, in the store's order.
pub open spec fn reconciled(entries: Entries, listing: Listing) -> Entries
    decreases listing.len(),
{
    if listing.len() == 0 {
        with_registry(entries)
    } else {
        upsert_registry(
            reconciled(entries, listing.drop_last()),
            listing.last().0,
            target_of(listing.last().1.address).1,
            target_of(listing.last().1.address).0,
        )
    }
}

/// The environment that the document is in: the address under `default_host`,
/// as it was written. `None` stands for a document that does not exist.
pub fn get_current_environment(doc: Option<&DocumentMut>) -> (environment: Option<String>)
    ensures
        text_view(environment) == match doc {
            Some(doc) => text_at(doc_entries(*doc), default_host_key()),
            None => None,
        },
{
    proof {
        reveal_strlit("default_host");
        assert("default_host"@ =~= default_host_key());
    }
    match doc {
        Some(doc) => get_scalar(doc, "default_host"),
        None => None,
    }
}

/// Gives a name its server in the document: its row in the registry gets the
/// host and the protocol of the address. Nothing else changes.
pub fn update_cli_server_target(doc: &mut DocumentMut, profile_name: &str, address: &str)
    ensures
        doc_entries(*final(doc)) == targeted(doc_entries(*old(doc)), profile_name@, address@),
{
    let target = normalize_server_target(address);
    upsert_registry_entry(doc, profile_name, target.1.as_str(), target.0.as_str());
}

/// Activates a profile: its credential goes under `token_key`, its address,
/// as it was written, under `default_host`, and its name gets one row in the
/// registry. Every other key of the document stays as it is.
pub fn activate(doc: &mut DocumentMut, token_key: &str, profile_name: &str, profile: &Profile)
    ensures
        doc_entries(*final(doc)) == activated(
            doc_entries(*old(doc)),
            token_key@,
            profile_name@,
            profile@,
        ),
{
    proof {
        reveal_strlit("default_host");
        assert("default_host"@ =~= default_host_key());
    }
    set_scalar(doc, token_key, profile.token.as_str());
    set_scalar(doc, "default_host", profile.address.as_str());
    update_cli_server_target(doc, profile_name, profile.address.as_str());
}

/// Reconciles the registry with the store: every name of the store gets the
/// host and the protocol of its address, in its row or in a new one. Rows of
/// other names stay as they are.
pub fn sync_server_configs_from_profiles(doc: &mut DocumentMut, profiles: &UserProfiles)
    ensures
        doc_entries(*final(doc)) == reconciled(doc_entries(*old(doc)), profiles.listing()),
{
    let ghost before = doc_entries(*doc);
    let ghost listing = profiles.listing();
    let count: usize = profiles.len();
    ensure_registry(doc);
    let mut index: usize = 0;
    while index < count
        invariant
            index <= count,
            count == listing.len(),
            listing == profiles.listing(),
            doc_entries(*doc) == reconciled(before, listing.take(index as int)),
        decreases count - index,
    {
        let target = normalize_server_target(profiles.profile_at(index).address.as_str());
        upsert_registry_entry(
            doc,
            profiles.name_at(index).as_str(),
            target.1.as_str(),
            target.0.as_str(),
        );
        proof {
            let next = listing.take(index + 1);
            assert(next.drop_last() =~= listing.take(index as int));
            assert(next.last() == listing[index as int]);
        }
        index += 1;
    }
    assert(listing.take(count as int) =~= listing);
}

/// The rows that a document had, beside the rows after a reconciliation with
/// a store of the given names: each is still there, at its place and under its
/// nickname, with every field but `host` and `protocol` as it was; and a row
/// whose nickname is no name of the store is as it was altogether.
pub open spec fn rows_survive(
    rows: Seq<Fields>,
    after: Seq<Fields>,
    names: Seq<Seq<char>>,
) -> bool {
    &&& rows.len() <= after.len()
    &&& forall|i: int| 0 <= i < rows.len() ==> row_kept(rows[i], #[trigger] after[i])
    &&& forall|i: int|
        0 <= i < rows.len() ==> #[trigger] nicknames_of(after)[i] == nicknames_of(rows)[i]
    &&& forall|i: int|
        0 <= i < rows.len() && !named_by(nicknames_of(rows)[i], names) ==> #[trigger] after[i]
            == rows[i]
}

/// Whether a row's nickname is one of the names.
pub open spec fn named_by(nickname: Option<Seq<char>>, names: Seq<Seq<char>>) -> bool {
    match nickname {
        Some(name) => names.contains(name),
        None => false,
    }
}

/// The keys of a document other than the registry, beside those of another:
/// the same keys with the same contents.
pub open spec fn others_kept(before: Entries, after: Entries) -> bool {
    forall|key: Seq<char>|
        key != registry_key() ==> (#[trigger] after.contains_key(key) == before.contains_key(key)
            && (before.contains_key(key) ==> after[key] == before[key]))
}

/// The registry holds exactly one row with the nickname, and that row holds
/// the host and the protocol.
pub open spec fn one_row_for(
    rows: Seq<Fields>,
    nickname: Seq<char>,
    host: Seq<char>,
    protocol: Seq<char>,
) -> bool {
    let at = row_position(rows, nickname);
    &&& 0 <= at < rows.len()
    &&& nicknames_of(rows)[at] == Some(nickname)
    &&& forall|i: int|
        0 <= i < rows.len() && i != at ==> #[trigger] nicknames_of(rows)[i] != Some(nickname)
    &&& field_at(rows[at], host_field()) == Some(host)
    &&& field_at(rows[at], protocol_field()) == Some(protocol)
}

/// What an upsert does to a document: nothing outside the registry, and to the
/// registry's rows what `upsert_rows` says.
pub proof fn lemma_upsert_registry(
    entries: Entries,
    nickname: Seq<char>,
    host: Seq<char>,
    protocol: Seq<char>,
)
    ensures
        others_kept(entries, upsert_registry(entries, nickname, host, protocol)),
        upsert_registry(entries, nickname, host, protocol).contains_key(registry_key()),
        rows_at(entries, registry_key()) is Some ==> rows_at(
            upsert_registry(entries, nickname, host, protocol),
            registry_key(),
        ) == Some(
            upsert_rows(rows_at(entries, registry_key()).unwrap(), nickname, host, protocol),
        ),
        !entries.contains_key(registry_key()) ==> rows_at(
            upsert_registry(entries, nickname, host, protocol),
            registry_key(),
        ) == Some(upsert_rows(Seq::empty(), nickname, host, protocol)),
{
}

/// Reconciling never deletes a row: every row that the registry held is still
/// there afterwards, whether or not the store still holds its name, and no key
/// outside the registry changes.
pub proof fn lemma_reconcile_keeps_rows(entries: Entries, listing: Listing)
    ensures
        others_kept(entries, reconciled(entries, listing)),
        reconciled(entries, listing).contains_key(registry_key()),
        rows_at(entries, registry_key()) is Some ==> rows_at(
            reconciled(entries, listing),
            registry_key(),
        ) is Some && rows_survive(
            rows_at(entries, registry_key()).unwrap(),
            rows_at(reconciled(entries, listing), registry_key()).unwrap(),
            names_of(listing),
        ),
    decreases listing.len(),
{
    if listing.len() > 0 {
        let shorter = listing.drop_last();
        let middle = reconciled(entries, shorter);
        let name = listing.last().0;
        let host = target_of(listing.last().1.address).1;
        let protocol = target_of(listing.last().1.address).0;
        lemma_reconcile_keeps_rows(entries, shorter);
        lemma_upsert_registry(middle, name, host, protocol);
        if rows_at(entries, registry_key()) is Some {
            let rows = rows_at(entries, registry_key()).unwrap();
            let between = rows_at(middle, registry_key()).unwrap();
            let after = rows_at(reconciled(entries, listing), registry_key()).unwrap();
            lemma_upsert_rows(between, name, host, protocol);
            assert(names_of(listing).last() == name);
            assert forall|i: int| 0 <= i < rows.len() implies row_kept(
                rows[i],
                #[trigger] after[i],
            ) by {
                assert(row_kept(rows[i], between[i]));
                assert(row_kept(between[i], after[i]));
            }
            assert forall|i: int| 0 <= i < rows.len() implies #[trigger] nicknames_of(after)[i]
                == nicknames_of(rows)[i] by {
                assert(nicknames_of(between)[i] == nicknames_of(rows)[i]);
            }
            assert forall|i: int|
                0 <= i < rows.len() && !named_by(
                    nicknames_of(rows)[i],
                    names_of(listing),
                ) implies #[trigger] after[i] == rows[i] by {
                assert(nicknames_of(between)[i] == nicknames_of(rows)[i]);
                if nicknames_of(rows)[i] is Some {
                    let nick = nicknames_of(rows)[i].unwrap();
                    if names_of(shorter).contains(nick) {
                        let k = choose|k: int|
                            0 <= k < names_of(shorter).len() && names_of(shorter)[k] == nick;
                        assert(names_of(listing)[k] == nick);
                    }
                }
                assert(between[i] == rows[i]);
            }
        }
    }
}

/// An upsert for another name, or for the same name with the same host and
/// protocol, leaves the one row of a name as the one row of that name.
proof fn lemma_upsert_keeps_one_row(
    rows: Seq<Fields>,
    nickname: Seq<char>,
    host: Seq<char>,
    protocol: Seq<char>,
    other: Seq<char>,
    other_host: Seq<char>,
    other_protocol: Seq<char>,
)
    requires
        nicknames_unique(rows),
        one_row_for(rows, nickname, host, protocol),
        other == nickname ==> other_host == host && other_protocol == protocol,
    ensures
        nicknames_unique(upsert_rows(rows, other, other_host, other_protocol)),
        one_row_for(upsert_rows(rows, other, other_host, other_protocol), nickname, host, protocol),
{
    let after = upsert_rows(rows, other, other_host, other_protocol);
    let at = row_position(rows, nickname);
    lemma_upsert_rows(rows, other, other_host, other_protocol);
    lemma_upsert_rows_unique(rows, other, other_host, other_protocol);
    lemma_first_index_of(nicknames_of(rows), Some(nickname));
    assert(nicknames_of(after)[at] == nicknames_of(rows)[at]);
    lemma_first_index_of_unique(nicknames_of(after), Some(nickname), at);
    if other != nickname {
        assert(after[at] == rows[at]);
    }
    assert forall|i: int| 0 <= i < after.len() && i != at implies #[trigger] nicknames_of(after)[i]
        != Some(nickname) by {
        if i < rows.len() {
            assert(nicknames_of(rows)[i] != Some(nickname));
        }
    }
}

/// Reconciling with a store in which the name, if it occurs, has an address
/// with the same host and protocol leaves the one row of that name in place.
proof fn lemma_reconcile_keeps_one_row(
    entries: Entries,
    listing: Listing,
    nickname: Seq<char>,
    host: Seq<char>,
    protocol: Seq<char>,
)
    requires
        rows_at(entries, registry_key()) is Some,
        nicknames_unique(rows_at(entries, registry_key()).unwrap()),
        one_row_for(rows_at(entries, registry_key()).unwrap(), nickname, host, protocol),
        forall|i: int|
            0 <= i < listing.len() && (#[trigger] listing[i]).0 == nickname ==> target_of(
                listing[i].1.address,
            ) == (protocol, host),
    ensures
        rows_at(reconciled(entries, listing), registry_key()) is Some,
        nicknames_unique(rows_at(reconciled(entries, listing), registry_key()).unwrap()),
        one_row_for(
            rows_at(reconciled(entries, listing), registry_key()).unwrap(),
            nickname,
            host,
            protocol,
        ),
    decreases listing.len(),
{
    if listing.len() > 0 {
        let shorter = listing.drop_last();
        let middle = reconciled(entries, shorter);
        let last = listing.last();
        assert forall|i: int|
            0 <= i < shorter.len() && (#[trigger] shorter[i]).0 == nickname implies target_of(
            shorter[i].1.address,
        ) == (protocol, host) by {
            assert(shorter[i] == listing[i]);
        }
        lemma_reconcile_keeps_one_row(entries, shorter, nickname, host, protocol);
        lemma_upsert_registry(
            middle,
            last.0,
            target_of(last.1.address).1,
            target_of(last.1.address).0,
        );
        assert(listing[listing.len() - 1] == last);
        lemma_upsert_keeps_one_row(
            rows_at(middle, registry_key()).unwrap(),
            nickname,
            host,
            protocol,
            last.0,
            target_of(last.1.address).1,
            target_of(last.1.address).0,
        );
    }
}

/// Activating a profile and then reconciling with the store leaves exactly
/// one row for the profile's name, and that row holds the host and the protocol
/// of the profile's address. It holds of a document whose registry is valid and
/// whose credential key is not `server_configs`, and of a store that holds the
/// activated profile's address under its name or does not hold the name.
pub proof fn lemma_activate_then_reconcile(
    entries: Entries,
    token_key: Seq<char>,
    name: Seq<char>,
    profile: ProfileView,
    listing: Listing,
)
    requires
        registry_wf(entries),
        token_key != registry_key(),
        listing_wf(listing),
        mapping_of(listing).contains_key(name) ==> mapping_of(listing)[name].address
            == profile.address,
    ensures
        rows_at(
            reconciled(activated(entries, token_key, name, profile), listing),
            registry_key(),
        ) is Some,
        one_row_for(
            rows_at(
                reconciled(activated(entries, token_key, name, profile), listing),
                registry_key(),
            ).unwrap(),
            name,
            target_of(profile.address).1,
            target_of(profile.address).0,
        ),
{
    let host = target_of(profile.address).1;
    let protocol = target_of(profile.address).0;
    let written = entries.insert(token_key, Entry::Text(profile.token)).insert(
        default_host_key(),
        Entry::Text(profile.address),
    );
    assert(default_host_key()[0] != registry_key()[0]);
    assert(written.contains_key(registry_key()) == entries.contains_key(registry_key()));
    assert(rows_at(written, registry_key()) == rows_at(entries, registry_key()));
    let start: Seq<Fields> = if entries.contains_key(registry_key()) {
        rows_at(entries, registry_key()).unwrap()
    } else {
        Seq::empty()
    };
    lemma_upsert_registry(written, name, host, protocol);
    let active = activated(entries, token_key, name, profile);
    assert(rows_at(active, registry_key()) == Some(upsert_rows(start, name, host, protocol)));
    lemma_upsert_rows(start, name, host, protocol);
    lemma_upsert_rows_unique(start, name, host, protocol);
    let rows = upsert_rows(start, name, host, protocol);
    lemma_first_index_of(nicknames_of(rows), Some(name));
    assert forall|i: int|
        0 <= i < rows.len() && i != row_position(rows, name) implies #[trigger] nicknames_of(
        rows,
    )[i] != Some(name) by {}
    assert forall|i: int|
        0 <= i < listing.len() && (#[trigger] listing[i]).0 == name implies target_of(
        listing[i].1.address,
    ) == (protocol, host) by {
        lemma_mapping_holds_entries(listing, i);
    }
    lemma_reconcile_keeps_one_row(active, listing, name, host, protocol);
}

/// An upsert keeps the registry valid.
pub proof fn lemma_upsert_keeps_registry_wf(
    entries: Entries,
    nickname: Seq<char>,
    host: Seq<char>,
    protocol: Seq<char>,
)
    requires
        registry_wf(entries),
    ensures
        registry_wf(upsert_registry(entries, nickname, host, protocol)),
{
    lemma_upsert_registry(entries, nickname, host, protocol);
    if entries.contains_key(registry_key()) {
        lemma_upsert_rows_unique(
            rows_at(entries, registry_key()).unwrap(),
            nickname,
            host,
            protocol,
        );
    } else {
        lemma_upsert_rows_unique(Seq::empty(), nickname, host, protocol);
    }
}

/// Reconciling keeps the registry valid: afterwards, too, no two rows have the
/// same nickname.
pub proof fn lemma_reconcile_keeps_registry_wf(entries: Entries, listing: Listing)
    requires
        registry_wf(entries),
    ensures
        registry_wf(reconciled(entries, listing)),
    decreases listing.len(),
{
    if listing.len() > 0 {
        lemma_reconcile_keeps_registry_wf(entries, listing.drop_last());
        lemma_upsert_keeps_registry_wf(
            reconciled(entries, listing.drop_last()),
            listing.last().0,
            target_of(listing.last().1.address).1,
            target_of(listing.last().1.address).0,
        );
    }
}

/// Activating a profile keeps the registry valid, unless the credential key
/// is the key of the registry itself.
pub proof fn lemma_activate_keeps_registry_wf(
    entries: Entries,
    token_key: Seq<char>,
    name: Seq<char>,
    profile: ProfileView,
)
    requires
        registry_wf(entries),
        token_key != registry_key(),
    ensures
        registry_wf(activated(entries, token_key, name, profile)),
{
    let written = entries.insert(token_key, Entry::Text(profile.token)).insert(
        default_host_key(),
        Entry::Text(profile.address),
    );
    assert(default_host_key()[0] != registry_key()[0]);
    assert(rows_at(written, registry_key()) == rows_at(entries, registry_key()));
    lemma_upsert_keeps_registry_wf(
        written,
        name,
        target_of(profile.address).1,
        target_of(profile.address).0,
    );
}

/// Activating a profile changes nothing but the credential, `default_host`
/// and the row of the profile's name: every other key holds what it held, and
/// every row that the registry held is still there, the rows of other names
/// as they were altogether.
pub proof fn lemma_activate_keeps_the_rest(
    entries: Entries,
    token_key: Seq<char>,
    name: Seq<char>,
    profile: ProfileView,
)
    ensures
        forall|key: Seq<char>|
            key != token_key && key != default_host_key() && key != registry_key() ==> (
            #[trigger] activated(entries, token_key, name, profile).contains_key(key)
                == entries.contains_key(key) && (entries.contains_key(key) ==> activated(
                entries,
                token_key,
                name,
                profile,
            )[key] == entries[key])),
        token_key != registry_key() && rows_at(entries, registry_key()) is Some ==> rows_at(
            activated(entries, token_key, name, profile),
            registry_key(),
        ) is Some && rows_survive(
            rows_at(entries, registry_key()).unwrap(),
            rows_at(activated(entries, token_key, name, profile), registry_key()).unwrap(),
            seq![name],
        ),
{
    let written = entries.insert(token_key, Entry::Text(profile.token)).insert(
        default_host_key(),
        Entry::Text(profile.address),
    );
    let host = target_of(profile.address).1;
    let protocol = target_of(profile.address).0;
    assert(default_host_key()[0] != registry_key()[0]);
    lemma_upsert_registry(written, name, host, protocol);
    if token_key != registry_key() && rows_at(entries, registry_key()) is Some {
        let rows = rows_at(entries, registry_key()).unwrap();
        assert(rows_at(written, registry_key()) == Some(rows));
        lemma_upsert_rows(rows, name, host, protocol);
        let after = upsert_rows(rows, name, host, protocol);
        assert forall|i: int|
            0 <= i < rows.len() && !named_by(nicknames_of(rows)[i], seq![name])
            implies #[trigger] after[i] == rows[i] by {
            if nicknames_of(rows)[i] == Some(name) {
                assert(seq![name][0] == name);
            }
        }
    }
}

} // verus!
