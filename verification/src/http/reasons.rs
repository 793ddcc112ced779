//! The table of reason phrases written after a status code, read from a JSON
//! object with the `serde_json` crate.
use vstd::prelude::*;
use serde_json::Value;
use crate::http::keyed_map::KeyedMap;
use crate::http::request::header_text;
use crate::http::types::StringMap;

verus! {

/// What a JSON text holds, as far as the reason table reads it.
#[derive(Debug)]
pub enum JsonDocument {
    /// An object: each member's name with its value written as compact JSON
    /// text (a string keeps its quotes), in the order the parser gives them.
    Object(Vec<(String, String)>),
    /// Valid JSON that is not an object.
    NotObject,
    /// Not a JSON text.
    Invalid,
}

impl View for JsonDocument {
    /// `None` for an invalid text, `Some(None)` for a document that is not an
    /// object, and the members of an object as text pairs.
    type V = Option<Option<Seq<(Seq<char>, Seq<char>)>>>;

    open spec fn view(&self) -> Self::V {
        match self {
            JsonDocument::Object(members) => Some(
                Some(Seq::new(members@.len(), |i: int| (members@[i].0@, members@[i].1@))),
            ),
            JsonDocument::NotObject => Some(None),
            JsonDocument::Invalid => None,
        }
    }
}

/// What `serde_json::from_str` makes of a text, read as a `JsonDocument`.
pub uninterp spec fn json_document(text: Seq<char>) -> Option<Option<Seq<(Seq<char>, Seq<char>)>>>;

/// Calls `serde_json::from_str` for a `serde_json::Value` and, for an object,
/// writes each member's value with its `Display` (compact JSON text).
/// Trusted: the outcome is a function of the text alone, named
/// `json_document`; what it is on given texts is not described.
#[verifier::external_body]
fn parse_json_document(text: &str) -> (r: JsonDocument)
    ensures
        r@ == json_document(text@),
{
    match serde_json::from_str::<Value>(text) {
        Ok(Value::Object(members)) => {
            let mut entries = Vec::new();
            for (name, value) in members {
                entries.push((name, value.to_string()));
            }
            JsonDocument::Object(entries)
        },
        Ok(_) => JsonDocument::NotObject,
        Err(_) => JsonDocument::Invalid,
    }
}

/// The table that inserting `entries` in turn into an empty one gives: a name
/// that occurs twice keeps its last value.
pub open spec fn table_of(entries: Seq<(Seq<char>, Seq<char>)>) -> Map<Seq<char>, Seq<char>>
    decreases entries.len(),
{
    if entries.len() == 0 {
        Map::empty()
    } else {
        table_of(entries.drop_last()).insert(entries.last().0, entries.last().1)
    }
}

/// The reason table a JSON document gives: `None` for an invalid text (there
/// is no table to read); an object's members, each name with its value's JSON
/// text; and an empty table for any other document, so that every lookup
/// finds nothing.
pub open spec fn reasons_of(doc: Option<Option<Seq<(Seq<char>, Seq<char>)>>>) -> Option<
    Map<Seq<char>, Seq<char>>,
> {
    match doc {
        None => None,
        Some(None) => Some(Map::empty()),
        Some(Some(entries)) => Some(table_of(entries)),
    }
}

/// A member whose name no later member repeats keeps its value in the table.
proof fn lemma_table_of_member(entries: Seq<(Seq<char>, Seq<char>)>, j: int)
    requires
        0 <= j < entries.len(),
        forall|i: int| j < i < entries.len() ==> (#[trigger] entries[i]).0 != entries[j].0,
    ensures
        table_of(entries).contains_key(entries[j].0),
        table_of(entries)[entries[j].0] == entries[j].1,
    decreases entries.len(),
{
    if j < entries.len() - 1 {
        let front = entries.drop_last();
        assert forall|i: int| j < i < front.len() implies (#[trigger] front[i]).0 != front[j].0 by {
            assert(front[i] == entries[i]);
        }
        lemma_table_of_member(front, j);
        assert(entries[entries.len() - 1].0 != entries[j].0);
    }
}

/// The table holds a name exactly when some member has that name.
proof fn lemma_table_of_keys(entries: Seq<(Seq<char>, Seq<char>)>, k: Seq<char>)
    ensures
        table_of(entries).contains_key(k) <==> exists|i: int|
            0 <= i < entries.len() && (#[trigger] entries[i]).0 == k,
    decreases entries.len(),
{
    if entries.len() > 0 {
        let front = entries.drop_last();
        lemma_table_of_keys(front, k);
        if exists|i: int| 0 <= i < entries.len() && (#[trigger] entries[i]).0 == k {
            let i = choose|i: int| 0 <= i < entries.len() && (#[trigger] entries[i]).0 == k;
            if i < entries.len() - 1 {
                assert(front[i] == entries[i]);
            }
        }
        if exists|i: int| 0 <= i < front.len() && (#[trigger] front[i]).0 == k {
            let i = choose|i: int| 0 <= i < front.len() && (#[trigger] front[i]).0 == k;
            assert(entries[i] == front[i]);
        }
    }
}

/// Law: the table read from a JSON object holds every member, whatever the
/// object's size: its names are exactly the members' names, and each name has
/// the value of its last occurrence. A valid document that is not an object
/// gives an empty table, and an invalid text gives none.
pub proof fn law_reason_table_holds_every_member(
    entries: Seq<(Seq<char>, Seq<char>)>,
    j: int,
    k: Seq<char>,
)
    ensures
        reasons_of(Some(Some(entries))) is Some,
        reasons_of(Some(Some(entries)))->Some_0.contains_key(k) <==> exists|i: int|
            0 <= i < entries.len() && (#[trigger] entries[i]).0 == k,
        (0 <= j < entries.len() && forall|i: int|
            j < i < entries.len() ==> (#[trigger] entries[i]).0 != entries[j].0) ==> reasons_of(
            Some(Some(entries)),
        )->Some_0.contains_key(entries[j].0) && reasons_of(Some(Some(entries)))->Some_0[entries[j].0]
            == entries[j].1,
        reasons_of(Some(None)) == Some(Map::<Seq<char>, Seq<char>>::empty()),
        reasons_of(None) is None,
{
    lemma_table_of_keys(entries, k);
    if 0 <= j < entries.len() && forall|i: int|
        j < i < entries.len() ==> (#[trigger] entries[i]).0 != entries[j].0 {
        lemma_table_of_member(entries, j);
    }
}

/// The reason table of a parsed document.
pub fn reasons_from_document(doc: JsonDocument) -> (r: Option<StringMap>)
    ensures
        r is Some <==> reasons_of(doc@) is Some,
        r matches Some(t) ==> t.wf() && header_text(t) == reasons_of(doc@)->Some_0,
{
    match doc {
        JsonDocument::Object(members) => {
            let ghost entries = Seq::new(members@.len(), |i: int| (members@[i].0@, members@[i].1@));
            let mut table: StringMap = KeyedMap::new();
            let mut i: usize = 0;
            while i < members.len()
                invariant
                    i <= members.len(),
                    entries == Seq::new(members@.len(), |k: int| (members@[k].0@, members@[k].1@)),
                    table.wf(),
                    header_text(table) == table_of(entries.take(i as int)),
                decreases members.len() - i,
            {
                let name = members[i].0.clone();
                let value = members[i].1.clone();
                table.insert(name, value);
                proof {
                    assert(entries.take(i + 1).drop_last() =~= entries.take(i as int));
                    assert(header_text(table) =~= table_of(entries.take(i + 1)));
                }
                i = i + 1;
            }
            assert(entries.take(i as int) =~= entries);
            Some(table)
        },
        JsonDocument::NotObject => {
            let table: StringMap = KeyedMap::new();
            assert(header_text(table) =~= Map::<Seq<char>, Seq<char>>::empty());
            Some(table)
        },
        JsonDocument::Invalid => None,
    }
}

/// The reason table read from a JSON text: see `reasons_from_document`.
pub fn reasons_from_json(json: &str) -> (r: Option<StringMap>)
    ensures
        r is Some <==> reasons_of(json_document(json@)) is Some,
        r matches Some(t) ==> t.wf() && header_text(t) == reasons_of(json_document(json@))->Some_0,
{
    reasons_from_document(parse_json_document(json))
}

} // verus!
