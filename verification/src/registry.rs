//! The parts of the configuration document that this library reads and
//! writes: its scalars, and the server registry, an array of tables under
//! `server_configs` in which each row has a nickname, a host and a protocol.
//!
//! Rows are told apart by their nickname alone. A row is changed in place or
//! added at the end; none is ever taken out.

use vstd::prelude::*;
use vstd::string::*;
use toml_edit::DocumentMut;
use crate::document::{
    doc_entries, doc_has, doc_parse, doc_push_row, doc_row_count, doc_row_set_text, doc_row_text,
    doc_set_rows, doc_set_text, doc_text, field_at, no_entries, parsed_entries, rows_at, text_at,
    text_view, toml_error_text, Entries, Entry, Fields,
};
use crate::error::ProfileError;
use crate::settings::AppSettings;
use crate::text::{first_index_of, lemma_first_index_of, lemma_first_index_of_unique, str_equals};

verus! {

/// `server_configs`, the key of the registry.
pub open spec fn registry_key() -> Seq<char> {
    seq!['s', 'e', 'r', 'v', 'e', 'r', '_', 'c', 'o', 'n', 'f', 'i', 'g', 's']
}

/// `nickname`, the field by which a row is found.
pub open spec fn nickname_field() -> Seq<char> {
    seq!['n', 'i', 'c', 'k', 'n', 'a', 'm', 'e']
}

/// `host`, a field of a row.
pub open spec fn host_field() -> Seq<char> {
    seq!['h', 'o', 's', 't']
}

/// `protocol`, a field of a row.
pub open spec fn protocol_field() -> Seq<char> {
    seq!['p', 'r', 'o', 't', 'o', 'c', 'o', 'l']
}

/// The nickname of each row, in the registry's order; `None` for a row whose
/// nickname is missing or no string.
pub open spec fn nicknames_of(rows: Seq<Fields>) -> Seq<Option<Seq<char>>> {
    rows.map_values(|row: Fields| field_at(row, nickname_field()))
}

/// Where the first row with a nickname stands, or the number of rows where
/// no row has it.
pub open spec fn row_position(rows: Seq<Fields>, nickname: Seq<char>) -> int {
    first_index_of(nicknames_of(rows), Some(nickname))
}

/// A row that holds a nickname, a host and a protocol and nothing else.
pub open spec fn new_row(nickname: Seq<char>, host: Seq<char>, protocol: Seq<char>) -> Fields {
    Map::<Seq<char>, Seq<char>>::empty().insert(nickname_field(), nickname).insert(
        host_field(),
        host,
    ).insert(protocol_field(), protocol)
}

/// The rows after an upsert: the first row with the nickname gets the host and
/// the protocol and keeps its other fields; where no row has the nickname, a
/// new row follows the others.
pub open spec fn upsert_rows(
    rows: Seq<Fields>,
    nickname: Seq<char>,
    host: Seq<char>,
    protocol: Seq<char>,
) -> Seq<Fields> {
    let at = row_position(rows, nickname);
    if at < rows.len() {
        rows.update(at, rows[at].insert(host_field(), host).insert(protocol_field(), protocol))
    } else {
        rows.push(new_row(nickname, host, protocol))
    }
}

/// The document with a registry: where the key is missing, it holds an array
/// of tables without rows.
pub open spec fn with_registry(entries: Entries) -> Entries {
    if entries.contains_key(registry_key()) {
        entries
    } else {
        entries.insert(registry_key(), Entry::Rows(Seq::empty()))
    }
}

/// The document after an upsert into its registry. Where `server_configs` holds
/// something that is no array of tables, the document stays as it is.
pub open spec fn upsert_registry(
    entries: Entries,
    nickname: Seq<char>,
    host: Seq<char>,
    protocol: Seq<char>,
) -> Entries {
    let prepared = with_registry(entries);
    match rows_at(prepared, registry_key()) {
        Some(rows) => prepared.insert(
            registry_key(),
            Entry::Rows(upsert_rows(rows, nickname, host, protocol)),
        ),
        None => prepared,
    }
}

/// A row of the registry as it is handed out.
#[derive(Debug)]
pub struct RegistryRow {
    pub nickname: String,
    pub host: Option<String>,
    pub protocol: Option<String>,
}

/// The document that a text stands for.
pub fn parse_cli_toml(text: &str) -> (read: Result<DocumentMut, ProfileError>)
    ensures
        match read {
            Ok(doc) => parsed_entries(text@) == Some(doc_entries(doc)),
            Err(error) => parsed_entries(text@) is None && error is InvalidDocument,
        },
{
    match doc_parse(text) {
        Ok(doc) => Ok(doc),
        Err(error) => Err(ProfileError::InvalidDocument { reason: toml_error_text(&error) }),
    }
}

/// Reads the configuration document from the text of its file; `None` stands
/// for a file that does not exist, which is `NotFound` here, with the name of
/// the file as the settings have it.
pub fn read_cli_toml(settings: &AppSettings, content: Option<&str>) -> (read: Result<
    DocumentMut,
    ProfileError,
>)
    ensures
        match read {
            Ok(doc) => content is Some && parsed_entries(content.unwrap()@) == Some(
                doc_entries(doc),
            ),
            Err(ProfileError::NotFound { what }) => content is None && what@
                == settings.cli_config_filename@,
            Err(ProfileError::InvalidDocument { reason }) => content is Some && parsed_entries(
                content.unwrap()@,
            ) is None,
            Err(_) => false,
        },
{
    match content {
        Some(text) => parse_cli_toml(text),
        None => Err(ProfileError::NotFound { what: settings.cli_config_filename.clone() }),
    }
}

/// Reads the configuration document from the text of its file, or starts a
/// document without keys where the file does not exist.
pub fn load_or_init_cli_toml(content: Option<&str>) -> (read: Result<DocumentMut, ProfileError>)
    ensures
        match read {
            Ok(doc) => match content {
                Some(text) => parsed_entries(text@) == Some(doc_entries(doc)),
                None => doc_entries(doc) == no_entries(),
            },
            Err(error) => content is Some && parsed_entries(content.unwrap()@) is None
                && error is InvalidDocument,
        },
{
    match content {
        Some(text) => parse_cli_toml(text),
        None => Ok(DocumentMut::new()),
    }
}

/// The string under a key of the document, where the key holds a string.
pub fn get_scalar(doc: &DocumentMut, key: &str) -> (value: Option<String>)
    ensures
        text_view(value) == text_at(doc_entries(*doc), key@),
{
    doc_text(doc, key)
}

/// Sets a key of the document to a string. Every other key keeps what it
/// holds.
pub fn set_scalar(doc: &mut DocumentMut, key: &str, value: &str)
    ensures
        doc_entries(*final(doc)) == doc_entries(*old(doc)).insert(key@, Entry::Text(value@)),
{
    doc_set_text(doc, key, value);
}

/// Gives the document a registry without rows where it has none.
pub fn ensure_registry(doc: &mut DocumentMut)
    ensures
        doc_entries(*final(doc)) == with_registry(doc_entries(*old(doc))),
{
    proof {
        reveal_strlit("server_configs");
        assert("server_configs"@ =~= registry_key());
    }
    if !doc_has(doc, "server_configs") {
        doc_set_rows(doc, "server_configs");
    }
}

/// Where the first row with a nickname stands in the registry.
fn find_row(doc: &DocumentMut, count: usize, nickname: &str) -> (found: Option<usize>)
    requires
        rows_at(doc_entries(*doc), registry_key()) is Some,
        rows_at(doc_entries(*doc), registry_key()).unwrap().len() == count,
    ensures
        match found {
            Some(index) => index < count && index == row_position(
                rows_at(doc_entries(*doc), registry_key()).unwrap(),
                nickname@,
            ),
            None => row_position(rows_at(doc_entries(*doc), registry_key()).unwrap(), nickname@)
                == count,
        },
{
    proof {
        reveal_strlit("server_configs");
        reveal_strlit("nickname");
        assert("server_configs"@ =~= registry_key());
        assert("nickname"@ =~= nickname_field());
    }
    let ghost rows = rows_at(doc_entries(*doc), registry_key()).unwrap();
    let ghost nicknames = nicknames_of(rows);
    let mut index: usize = 0;
    while index < count
        invariant
            index <= count,
            count == rows.len(),
            rows_at(doc_entries(*doc), registry_key()) == Some(rows),
            nicknames == nicknames_of(rows),
            "server_configs"@ == registry_key(),
            "nickname"@ == nickname_field(),
            forall|j: int| 0 <= j < index ==> nicknames[j] != Some(nickname@),
        decreases count - index,
    {
        match doc_row_text(doc, "server_configs", index, "nickname") {
            Some(found) => {
                if str_equals(found.as_str(), nickname) {
                    proof {
                        lemma_first_index_of_unique(nicknames, Some(nickname@), index as int);
                    }
                    return Some(index);
                }
            },
            None => {},
        }
        index += 1;
    }
    proof {
        lemma_first_index_of_unique(nicknames, Some(nickname@), count as int);
    }
    None
}

/// The first row of the registry with a nickname, or `None` where the
/// document has no registry or no row has the nickname. Nicknames are matched
/// by equality of their characters.
pub fn find_registry_entry(doc: &DocumentMut, nickname: &str) -> (found: Option<RegistryRow>)
    ensures
        match found {
            Some(row) => {
                let rows = rows_at(doc_entries(*doc), registry_key());
                let at = row_position(rows.unwrap(), nickname@);
                &&& rows is Some
                &&& 0 <= at < rows.unwrap().len()
                &&& row.nickname@ == nickname@
                &&& text_view(row.host) == field_at(rows.unwrap()[at], host_field())
                &&& text_view(row.protocol) == field_at(rows.unwrap()[at], protocol_field())
            },
            None => {
                let rows = rows_at(doc_entries(*doc), registry_key());
                rows is Some ==> row_position(rows.unwrap(), nickname@) == rows.unwrap().len()
            },
        },
{
    proof {
        reveal_strlit("server_configs");
        reveal_strlit("host");
        reveal_strlit("protocol");
        assert("server_configs"@ =~= registry_key());
        assert("host"@ =~= host_field());
        assert("protocol"@ =~= protocol_field());
    }
    match doc_row_count(doc, "server_configs") {
        Some(count) => {
            match find_row(doc, count, nickname) {
                Some(index) => {
                    proof {
                        lemma_first_index_of(
                            nicknames_of(rows_at(doc_entries(*doc), registry_key()).unwrap()),
                            Some(nickname@),
                        );
                    }
                    Some(
                        RegistryRow {
                            nickname: String::from_str(nickname),
                            host: doc_row_text(doc, "server_configs", index, "host"),
                            protocol: doc_row_text(doc, "server_configs", index, "protocol"),
                        },
                    )
                },
                None => None,
            }
        },
        None => None,
    }
}

/// Writes a host and a protocol into the row of the registry that has the
/// nickname, or adds such a row at the end where there is none. A document
/// without a registry gets one first. Every other row and every other key
/// keeps what it holds.
pub fn upsert_registry_entry(doc: &mut DocumentMut, nickname: &str, host: &str, protocol: &str)
    ensures
        doc_entries(*final(doc)) == upsert_registry(
            doc_entries(*old(doc)),
            nickname@,
            host@,
            protocol@,
        ),
{
    proof {
        reveal_strlit("server_configs");
        reveal_strlit("nickname");
        reveal_strlit("host");
        reveal_strlit("protocol");
        assert("server_configs"@ =~= registry_key());
        assert("nickname"@ =~= nickname_field());
        assert("host"@ =~= host_field());
        assert("protocol"@ =~= protocol_field());
    }
    ensure_registry(doc);
    let ghost prepared = doc_entries(*doc);
    match doc_row_count(doc, "server_configs") {
        Some(count) => {
            let ghost rows = rows_at(prepared, registry_key()).unwrap();
            match find_row(doc, count, nickname) {
                Some(index) => {
                    proof {
                        lemma_first_index_of(nicknames_of(rows), Some(nickname@));
                        assert(nicknames_of(rows)[index as int] == Some(nickname@));
                        assert(rows[index as int].contains_key(nickname_field()));
                    }
                    doc_row_set_text(doc, "server_configs", index, "host", host);
                    proof {
                        let row = rows[index as int].insert(host_field(), host@);
                        assert(row.contains_key(nickname_field()));
                    }
                    doc_row_set_text(doc, "server_configs", index, "protocol", protocol);
                    proof {
                        let at = index as int;
                        let first = rows.update(at, rows[at].insert(host_field(), host@));
                        let second = first.update(
                            at,
                            first[at].insert(protocol_field(), protocol@),
                        );
                        assert(second =~= upsert_rows(rows, nickname@, host@, protocol@));
                        assert(doc_entries(*doc) =~= prepared.insert(
                            registry_key(),
                            Entry::Rows(second),
                        ));
                    }
                },
                None => {
                    let ghost named = Map::<Seq<char>, Seq<char>>::empty().insert(
                        nickname_field(),
                        nickname@,
                    );
                    doc_push_row(doc, "server_configs", "nickname", nickname);
                    proof {
                        assert(named.contains_key(nickname_field()));
                    }
                    doc_row_set_text(doc, "server_configs", count, "host", host);
                    proof {
                        assert(named.insert(host_field(), host@).contains_key(nickname_field()));
                    }
                    doc_row_set_text(doc, "server_configs", count, "protocol", protocol);
                    proof {
                        let at = count as int;
                        let first = rows.push(named);
                        let second = first.update(at, first[at].insert(host_field(), host@));
                        let third = second.update(
                            at,
                            second[at].insert(protocol_field(), protocol@),
                        );
                        assert(third =~= upsert_rows(rows, nickname@, host@, protocol@));
                        assert(doc_entries(*doc) =~= prepared.insert(
                            registry_key(),
                            Entry::Rows(third),
                        ));
                    }
                },
            }
        },
        None => {},
    }
}

/// A row after an upsert beside the row before it: no field but `host` and
/// `protocol` differs.
pub open spec fn row_kept(before: Fields, after: Fields) -> bool {
    forall|field: Seq<char>|
        field != host_field() && field != protocol_field() ==> (#[trigger] after.contains_key(field)
            == before.contains_key(field) && (before.contains_key(field) ==> after[field]
            == before[field]))
}

/// No two rows have the same nickname.
pub open spec fn nicknames_unique(rows: Seq<Fields>) -> bool {
    forall|i: int, j: int|
        0 <= i < j < rows.len() && (#[trigger] nicknames_of(rows)[i]) is Some ==> nicknames_of(
            rows,
        )[i] != #[trigger] nicknames_of(rows)[j]
}

/// The registry of a document is valid: `server_configs` is missing, or it
/// holds an array of tables in which no two rows have the same nickname.
pub open spec fn registry_wf(entries: Entries) -> bool {
    entries.contains_key(registry_key()) ==> (rows_at(entries, registry_key()) is Some
        && nicknames_unique(rows_at(entries, registry_key()).unwrap()))
}

/// What an upsert does to the rows: every row that was there is still there,
/// at its place and under its nickname; only the row of the nickname can
/// differ, and only in its host and protocol; after it, the first row with the
/// nickname holds the host and the protocol.
pub proof fn lemma_upsert_rows(
    rows: Seq<Fields>,
    nickname: Seq<char>,
    host: Seq<char>,
    protocol: Seq<char>,
)
    ensures
        rows.len() <= upsert_rows(rows, nickname, host, protocol).len() <= rows.len() + 1,
        forall|i: int|
            0 <= i < rows.len() ==> row_kept(
                rows[i],
                #[trigger] upsert_rows(rows, nickname, host, protocol)[i],
            ),
        forall|i: int|
            0 <= i < rows.len() && nicknames_of(rows)[i] != Some(nickname)
                ==> #[trigger] upsert_rows(rows, nickname, host, protocol)[i] == rows[i],
        forall|i: int|
            0 <= i < rows.len() ==> #[trigger] nicknames_of(
                upsert_rows(rows, nickname, host, protocol),
            )[i] == nicknames_of(rows)[i],
        upsert_rows(rows, nickname, host, protocol).len() == rows.len() + 1 ==> nicknames_of(
            upsert_rows(rows, nickname, host, protocol),
        )[rows.len() as int] == Some(nickname) && row_position(rows, nickname) == rows.len(),
        row_position(upsert_rows(rows, nickname, host, protocol), nickname) == row_position(
            rows,
            nickname,
        ),
        row_position(rows, nickname) < upsert_rows(rows, nickname, host, protocol).len(),
        field_at(
            upsert_rows(rows, nickname, host, protocol)[row_position(rows, nickname)],
            host_field(),
        ) == Some(host),
        field_at(
            upsert_rows(rows, nickname, host, protocol)[row_position(rows, nickname)],
            protocol_field(),
        ) == Some(protocol),
{
    let after = upsert_rows(rows, nickname, host, protocol);
    let at = row_position(rows, nickname);
    lemma_first_index_of(nicknames_of(rows), Some(nickname));
    assert(host_field()[0] != nickname_field()[0]);
    assert(protocol_field()[0] != nickname_field()[0]);
    assert(host_field()[0] != protocol_field()[0]);
    assert forall|i: int| 0 <= i < rows.len() implies #[trigger] nicknames_of(after)[i]
        == nicknames_of(rows)[i] by {}
    if at == rows.len() {
        assert(nicknames_of(after)[at] == Some(nickname));
    }
    lemma_first_index_of_unique(nicknames_of(after), Some(nickname), at);
}

/// An upsert keeps the nicknames of the rows apart.
pub proof fn lemma_upsert_rows_unique(
    rows: Seq<Fields>,
    nickname: Seq<char>,
    host: Seq<char>,
    protocol: Seq<char>,
)
    requires
        nicknames_unique(rows),
    ensures
        nicknames_unique(upsert_rows(rows, nickname, host, protocol)),
{
    let after = upsert_rows(rows, nickname, host, protocol);
    lemma_upsert_rows(rows, nickname, host, protocol);
    lemma_first_index_of(nicknames_of(rows), Some(nickname));
    assert forall|i: int, j: int|
        0 <= i < j < after.len() && (#[trigger] nicknames_of(after)[i]) is Some
        implies nicknames_of(after)[i] != #[trigger] nicknames_of(after)[j] by {
        if j < rows.len() {
            assert(nicknames_of(rows)[i] != nicknames_of(rows)[j]);
        }
    }
}

} // verus!
