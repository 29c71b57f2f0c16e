//! The frontmatter of a note: its typed fields, and how it is read from and
//! written to the entries of a YAML mapping.

pub use crate::document::indent_yaml;
use crate::document::{document_parts, indented_yaml, split_document};
use crate::yaml::{
    emit_mapping, into_node, parse_mapping, sequence_value, string_value, value_node,
    yaml_document, yaml_sequence, yaml_string, yaml_text, Node, NodeView,
};
use serde_yaml::Value;
use vstd::prelude::*;
use vstd::std_specs::iter::IteratorSpec;

verus! {

/// The parsed frontmatter of one note.
///
/// `other` holds every field but `id`, `aliases` and `tags`, in the order in
/// which the note lists them; no operation of this crate looks into or changes
/// one of its values.
#[derive(Debug, Clone, PartialEq)]
pub struct Frontmatter {
    pub id: Option<String>,
    pub aliases: Option<Vec<String>>,
    pub tags: Option<Vec<String>>,
    pub other: Vec<(String, Value)>,
}

/// The mathematical model of a `Frontmatter`.
#[verifier::ext_equal]
pub struct FrontmatterView {
    pub id: Option<Seq<char>>,
    pub aliases: Option<Seq<Seq<char>>>,
    pub tags: Option<Seq<Seq<char>>>,
    pub other: Seq<(Seq<char>, Value)>,
}

/// Why a note could not be read or written.
#[derive(Debug, Clone, Copy, PartialEq, Eq)]
pub enum FrontmatterError {
    /// The note does not open with a frontmatter block.
    NoFrontmatter,
    /// The block is no YAML mapping, or a field of it has the wrong shape.
    MalformedYaml,
    /// The frontmatter could not be written as YAML.
    Unserializable,
}

/// The views of `strings`.
pub open spec fn texts(strings: Seq<String>) -> Seq<Seq<char>> {
    strings.map_values(|s: String| s@)
}

/// The view of an optional string.
pub open spec fn text_option(text: Option<String>) -> Option<Seq<char>> {
    match text {
        Some(t) => Some(t@),
        None => None,
    }
}

/// The view of an optional list of strings.
pub open spec fn texts_option(list: Option<Vec<String>>) -> Option<Seq<Seq<char>>> {
    match list {
        Some(l) => Some(texts(l@)),
        None => None,
    }
}

impl View for Frontmatter {
    type V = FrontmatterView;

    open spec fn view(&self) -> FrontmatterView {
        FrontmatterView {
            id: text_option(self.id),
            aliases: texts_option(self.aliases),
            tags: texts_option(self.tags),
            other: self.other@.map_values(|e: (String, Value)| (e.0@, e.1)),
        }
    }
}

pub open spec fn id_key() -> Seq<char> {
    "id"@
}

pub open spec fn aliases_key() -> Seq<char> {
    "aliases"@
}

pub open spec fn tags_key() -> Seq<char> {
    "tags"@
}

/// `key` names one of the three typed fields.
pub open spec fn is_known_key(key: Seq<char>) -> bool {
    key == id_key() || key == aliases_key() || key == tags_key()
}

/// No entry of `other` goes by the name of a typed field.
pub open spec fn well_formed(frontmatter: FrontmatterView) -> bool {
    forall|i: int|
        0 <= i < frontmatter.other.len() ==> !is_known_key(#[trigger] frontmatter.other[i].0)
}

/// A frontmatter without any field.
pub open spec fn empty_frontmatter() -> FrontmatterView {
    FrontmatterView { id: None, aliases: None, tags: None, other: Seq::empty() }
}

/// The optional string that `value` stands for: absent for null, `None` where
/// `value` is neither null nor a string.
pub open spec fn decode_text(value: Value) -> Option<Option<Seq<char>>> {
    match value_node(value) {
        NodeView::Null => Some(None),
        NodeView::Text(text) => Some(Some(text)),
        _ => None,
    }
}

/// Every item is a string.
pub open spec fn all_text(items: Seq<Value>) -> bool {
    forall|i: int| 0 <= i < items.len() ==> value_node(#[trigger] items[i]) is Text
}

/// The strings that `items` hold.
pub open spec fn item_texts(items: Seq<Value>) -> Seq<Seq<char>> {
    items.map_values(|item: Value| value_node(item)->Text_0)
}

/// The optional list of strings that `value` stands for: absent for null,
/// `None` where `value` is neither null nor a sequence of strings.
pub open spec fn decode_list(value: Value) -> Option<Option<Seq<Seq<char>>>> {
    match value_node(value) {
        NodeView::Null => Some(None),
        NodeView::Sequence(items) => if all_text(items) {
            Some(Some(item_texts(items)))
        } else {
            None
        },
        _ => None,
    }
}

/// `frontmatter` after the entry `key: value` was read into it; `None` where
/// the key is no string or the value has the wrong shape for its field.
pub open spec fn decode_entry(frontmatter: FrontmatterView, key: Value, value: Value) -> Option<
    FrontmatterView,
> {
    match value_node(key) {
        NodeView::Text(name) => if name == id_key() {
            match decode_text(value) {
                Some(id) => Some(FrontmatterView { id, ..frontmatter }),
                None => None,
            }
        } else if name == aliases_key() {
            match decode_list(value) {
                Some(aliases) => Some(FrontmatterView { aliases, ..frontmatter }),
                None => None,
            }
        } else if name == tags_key() {
            match decode_list(value) {
                Some(tags) => Some(FrontmatterView { tags, ..frontmatter }),
                None => None,
            }
        } else {
            Some(FrontmatterView { other: frontmatter.other.push((name, value)), ..frontmatter })
        },
        _ => None,
    }
}

/// The frontmatter that the entries of a mapping stand for, read from first
/// to last; `None` as soon as one entry cannot be read.
pub open spec fn decode_entries(entries: Seq<(Value, Value)>) -> Option<FrontmatterView>
    decreases entries.len(),
{
    if entries.len() == 0 {
        Some(empty_frontmatter())
    } else {
        match decode_entries(entries.drop_last()) {
            Some(frontmatter) => decode_entry(frontmatter, entries.last().0, entries.last().1),
            None => None,
        }
    }
}

/// The sequence value of the strings `list`.
pub open spec fn encode_list(list: Seq<Seq<char>>) -> Value {
    yaml_sequence(list.map_values(|text: Seq<char>| yaml_string(text)))
}

/// The entry of an optional string field: none where the field is absent.
pub open spec fn encode_text_field(key: Seq<char>, field: Option<Seq<char>>) -> Seq<(Value, Value)> {
    match field {
        Some(text) => seq![(yaml_string(key), yaml_string(text))],
        None => Seq::empty(),
    }
}

/// The entry of an optional list field: none where the field is absent.
pub open spec fn encode_list_field(key: Seq<char>, field: Option<Seq<Seq<char>>>) -> Seq<
    (Value, Value),
> {
    match field {
        Some(list) => seq![(yaml_string(key), encode_list(list))],
        None => Seq::empty(),
    }
}

/// The entries of the remaining fields, each under its name.
pub open spec fn encode_other(other: Seq<(Seq<char>, Value)>) -> Seq<(Value, Value)> {
    other.map_values(|e: (Seq<char>, Value)| (yaml_string(e.0), e.1))
}

/// The entries that `frontmatter` is written as: `id`, `aliases` and `tags`,
/// each only where it is present, then the remaining fields in their order.
pub open spec fn encode_entries(frontmatter: FrontmatterView) -> Seq<(Value, Value)> {
    encode_text_field(id_key(), frontmatter.id) + encode_list_field(
        aliases_key(),
        frontmatter.aliases,
    ) + encode_list_field(tags_key(), frontmatter.tags) + encode_other(frontmatter.other)
}

/// Once a prefix of the entries cannot be read, the whole cannot.
pub proof fn lemma_decode_prefix(entries: Seq<(Value, Value)>, n: int)
    requires
        0 <= n <= entries.len(),
        decode_entries(entries.take(n)) is None,
    ensures
        decode_entries(entries) is None,
    decreases entries.len() - n,
{
    if n < entries.len() {
        assert(entries.take(n + 1).drop_last() =~= entries.take(n));
        lemma_decode_prefix(entries, n + 1);
    } else {
        assert(entries.take(n) =~= entries);
    }
}

/// Reads the strings out of `items`, or tells that one item is no string.
fn decode_strings(items: Vec<Value>) -> (decoded: Option<Vec<String>>)
    ensures
        match decoded {
            Some(list) => all_text(items@) && texts(list@) == item_texts(items@),
            None => !all_text(items@),
        },
{
    let mut list: Vec<String> = Vec::new();
    for item in it: items.into_iter()
        invariant
            it.seq() == items@,
            all_text(items@.take(it.index())),
            texts(list@) == item_texts(items@.take(it.index())),
    {
        let ghost before = items@.take(it.index());
        let ghost after = items@.take(it.index() + 1);
        assert(after.drop_last() =~= before);
        assert(after.last() == item);
        match into_node(item) {
            Node::Text(text) => {
                let ghost held = list@;
                list.push(text);
                assert(texts(list@) =~= texts(held).push(text@));
                assert(item_texts(after) =~= item_texts(before).push(text@));
                assert(all_text(after)) by {
                    assert forall|i: int| 0 <= i < after.len() implies value_node(
                        #[trigger] after[i],
                    ) is Text by {
                        if i < before.len() {
                            assert(after[i] == before[i]);
                        }
                    }
                }
            },
            _ => {
                assert(items@[it.index()] == item);
                return None;
            },
        }
    }
    assert(items@.take(items@.len() as int) =~= items@);
    Some(list)
}

/// Reads an optional string field.
fn decode_text_value(value: Value) -> (decoded: Option<Option<String>>)
    ensures
        match decoded {
            Some(text) => decode_text(value) == Some(text_option(text)),
            None => decode_text(value) is None,
        },
{
    match into_node(value) {
        Node::Null => Some(None),
        Node::Text(text) => Some(Some(text)),
        _ => None,
    }
}

/// Reads an optional list field.
fn decode_list_value(value: Value) -> (decoded: Option<Option<Vec<String>>>)
    ensures
        match decoded {
            Some(list) => decode_list(value) == Some(texts_option(list)),
            None => decode_list(value) is None,
        },
{
    match into_node(value) {
        Node::Null => Some(None),
        Node::Sequence(items) => match decode_strings(items) {
            Some(list) => Some(Some(list)),
            None => None,
        },
        _ => None,
    }
}

/// Reads a frontmatter from the entries of a YAML mapping.
///
/// Every key must be a string. `id` must be null or a string, `aliases` and
/// `tags` null or a sequence of strings; null leaves the field absent. Every
/// other entry goes to `other` as it is.
pub fn decode_frontmatter(entries: Vec<(Value, Value)>) -> (decoded: Option<Frontmatter>)
    ensures
        match decoded {
            Some(frontmatter) => decode_entries(entries@) == Some(frontmatter@) && well_formed(
                frontmatter@,
            ),
            None => decode_entries(entries@) is None,
        },
{
    let id_name = "id".to_owned();
    let aliases_name = "aliases".to_owned();
    let tags_name = "tags".to_owned();
    let mut frontmatter = Frontmatter { id: None, aliases: None, tags: None, other: Vec::new() };
    assert(frontmatter@ =~= empty_frontmatter());
    assert(entries@.take(0) =~= Seq::empty());
    for entry in it: entries.into_iter()
        invariant
            it.seq() == entries@,
            id_name@ == id_key(),
            aliases_name@ == aliases_key(),
            tags_name@ == tags_key(),
            decode_entries(entries@.take(it.index())) == Some(frontmatter@),
            well_formed(frontmatter@),
    {
        let ghost read = entries@.take(it.index() + 1);
        let ghost before = frontmatter@;
        assert(read.drop_last() =~= entries@.take(it.index()));
        assert(read.last() == entry);
        let (key, value) = entry;
        let name = match into_node(key) {
            Node::Text(name) => name,
            _ => {
                proof {
                    lemma_decode_prefix(entries@, it.index() + 1);
                }
                return None;
            },
        };
        if name == id_name {
            match decode_text_value(value) {
                Some(id) => {
                    frontmatter.id = id;
                },
                None => {
                    proof {
                        lemma_decode_prefix(entries@, it.index() + 1);
                    }
                    return None;
                },
            }
        } else if name == aliases_name {
            match decode_list_value(value) {
                Some(aliases) => {
                    frontmatter.aliases = aliases;
                },
                None => {
                    proof {
                        lemma_decode_prefix(entries@, it.index() + 1);
                    }
                    return None;
                },
            }
        } else if name == tags_name {
            match decode_list_value(value) {
                Some(tags) => {
                    frontmatter.tags = tags;
                },
                None => {
                    proof {
                        lemma_decode_prefix(entries@, it.index() + 1);
                    }
                    return None;
                },
            }
        } else {
            frontmatter.other.push((name, value));
            assert(frontmatter@.other =~= before.other.push((name@, value)));
        }
        assert(decode_entries(read) == Some(frontmatter@));
    }
    assert(entries@.take(entries@.len() as int) =~= entries@);
    Some(frontmatter)
}

/// The values of `list`, one string value each, as one sequence value; it
/// reads back as the same list.
fn encode_strings(list: Vec<String>) -> (value: Value)
    ensures
        value == encode_list(texts(list@)),
        decode_list(value) == Some(Some(texts(list@))),
{
    let mut items: Vec<Value> = Vec::new();
    for text in it: list.into_iter()
        invariant
            it.seq() == list@,
            items@ == texts(list@.take(it.index())).map_values(|t: Seq<char>| yaml_string(t)),
            all_text(items@),
            item_texts(items@) == texts(list@.take(it.index())),
    {
        let ghost after = list@.take(it.index() + 1);
        let ghost held = items@;
        assert(after.drop_last() =~= list@.take(it.index()));
        assert(after.last() == text);
        items.push(string_value(text));
        assert(items@ =~= texts(after).map_values(|t: Seq<char>| yaml_string(t)));
        assert(all_text(items@)) by {
            assert forall|i: int| 0 <= i < items@.len() implies value_node(
                #[trigger] items@[i],
            ) is Text by {
                if i < held.len() {
                    assert(items@[i] == held[i]);
                }
            }
        }
        assert(item_texts(items@) =~= item_texts(held).push(text@));
        assert(texts(after) =~= texts(list@.take(it.index())).push(text@));
    }
    assert(list@.take(list@.len() as int) =~= list@);
    sequence_value(items)
}

/// Reading one more entry continues from what the entries before it gave.
pub proof fn lemma_decode_push(
    entries: Seq<(Value, Value)>,
    frontmatter: FrontmatterView,
    key: Value,
    value: Value,
)
    requires
        decode_entries(entries) == Some(frontmatter),
    ensures
        decode_entries(entries.push((key, value))) == decode_entry(frontmatter, key, value),
{
    assert(entries.push((key, value)).drop_last() =~= entries);
}

/// Writes a frontmatter as the entries of a YAML mapping: `id`, `aliases` and
/// `tags` first, each left out where it is absent, then the remaining fields
/// in their order.
///
/// The entries of a well-formed frontmatter read back as that frontmatter.
pub fn encode_frontmatter(frontmatter: Frontmatter) -> (entries: Vec<(Value, Value)>)
    ensures
        entries@ == encode_entries(frontmatter@),
        well_formed(frontmatter@) ==> decode_entries(entries@) == Some(frontmatter@),
{
    let ghost view = frontmatter@;
    let Frontmatter { id, aliases, tags, other } = frontmatter;
    let mut entries: Vec<(Value, Value)> = Vec::new();
    let ghost mut read = empty_frontmatter();
    proof {
        reveal_strlit("id");
        reveal_strlit("aliases");
        reveal_strlit("tags");
        assert(id_key().len() == 2 && aliases_key().len() == 7 && tags_key().len() == 4);
        assert(decode_entries(entries@) == Some(read));
    }
    if let Some(text) = id {
        let key = string_value("id".to_owned());
        let value = string_value(text);
        proof {
            lemma_decode_push(entries@, read, key, value);
            read = FrontmatterView { id: view.id, ..read };
        }
        entries.push((key, value));
    }
    assert(entries@ =~= encode_text_field(id_key(), view.id));
    assert(decode_entries(entries@) == Some(read));
    if let Some(list) = aliases {
        let key = string_value("aliases".to_owned());
        let value = encode_strings(list);
        proof {
            lemma_decode_push(entries@, read, key, value);
            read = FrontmatterView { aliases: view.aliases, ..read };
        }
        entries.push((key, value));
    }
    assert(entries@ =~= encode_text_field(id_key(), view.id) + encode_list_field(
        aliases_key(),
        view.aliases,
    ));
    assert(decode_entries(entries@) == Some(read));
    if let Some(list) = tags {
        let key = string_value("tags".to_owned());
        let value = encode_strings(list);
        proof {
            lemma_decode_push(entries@, read, key, value);
            read = FrontmatterView { tags: view.tags, ..read };
        }
        entries.push((key, value));
    }
    let ghost typed = entries@;
    assert(typed =~= encode_text_field(id_key(), view.id) + encode_list_field(
        aliases_key(),
        view.aliases,
    ) + encode_list_field(tags_key(), view.tags));
    assert(decode_entries(entries@) == Some(read));
    assert(read =~= FrontmatterView { other: Seq::empty(), ..view });
    assert(view.other.take(0) =~= Seq::empty());
    for field in it: other.into_iter()
        invariant
            it.seq() == other@,
            view.other == other@.map_values(|e: (String, Value)| (e.0@, e.1)),
            entries@ == typed + encode_other(view.other.take(it.index())),
            well_formed(view) ==> decode_entries(entries@) == Some(
                FrontmatterView { other: view.other.take(it.index()), ..view },
            ),
    {
        let ghost after = view.other.take(it.index() + 1);
        let ghost seen = FrontmatterView { other: view.other.take(it.index()), ..view };
        assert(after.drop_last() =~= view.other.take(it.index()));
        assert(after.last() == (field.0@, field.1));
        assert(view.other[it.index()] == (field.0@, field.1));
        let (name, value) = field;
        let key = string_value(name);
        proof {
            if well_formed(view) {
                lemma_decode_push(entries@, seen, key, value);
                assert(!is_known_key(view.other[it.index()].0));
                assert(after =~= view.other.take(it.index()).push((name@, value)));
            }
        }
        entries.push((key, value));
        assert(entries@ =~= typed + encode_other(after));
    }
    assert(view.other.take(view.other.len() as int) =~= view.other);
    entries
}

/// The frontmatter and the body that a note is read as.
///
/// A note without a frontmatter block gives `NoFrontmatter`. A block that is
/// no YAML mapping, or whose entries cannot be read as a frontmatter, gives
/// `MalformedYaml`.
pub open spec fn parsed(content: Seq<char>) -> Result<(FrontmatterView, Seq<char>), FrontmatterError> {
    match document_parts(content) {
        None => Err(FrontmatterError::NoFrontmatter),
        Some((block, body)) => match yaml_document(block) {
            None => Err(FrontmatterError::MalformedYaml),
            Some(entries) => match decode_entries(entries) {
                None => Err(FrontmatterError::MalformedYaml),
                Some(frontmatter) => Ok((frontmatter, body)),
            },
        },
    }
}

/// The block that a frontmatter is written as: the YAML text of its entries,
/// laid out for a note; `None` where the entries cannot be written.
pub open spec fn serialized(frontmatter: FrontmatterView) -> Option<Seq<char>> {
    match yaml_text(encode_entries(frontmatter)) {
        Some(text) => Some(indented_yaml(text)),
        None => None,
    }
}

/// Reads the frontmatter and the body of a note.
///
/// The body is the text behind the closing delimiter line, unchanged.
pub fn parse_frontmatter(content: &str) -> (outcome: Result<(Frontmatter, String), FrontmatterError>)
    ensures
        match outcome {
            Ok((frontmatter, body)) => parsed(content@) == Ok::<
                (FrontmatterView, Seq<char>),
                FrontmatterError,
            >((frontmatter@, body@)) && well_formed(frontmatter@),
            Err(error) => parsed(content@) == Err::<(FrontmatterView, Seq<char>), FrontmatterError>(
                error,
            ),
        },
{
    let (block, body) = match split_document(content) {
        Some(parts) => parts,
        None => {
            return Err(FrontmatterError::NoFrontmatter);
        },
    };
    let entries = match parse_mapping(block.as_str()) {
        Ok(entries) => entries,
        Err(_) => {
            return Err(FrontmatterError::MalformedYaml);
        },
    };
    match decode_frontmatter(entries) {
        Some(frontmatter) => Ok((frontmatter, body)),
        None => Err(FrontmatterError::MalformedYaml),
    }
}

/// Writes a frontmatter as the block of a note: absent fields are left out,
/// sequence items are indented by two spaces, and the text ends in a line
/// feed.
pub fn serialize_frontmatter(frontmatter: Frontmatter) -> (outcome: Result<String, FrontmatterError>)
    ensures
        match outcome {
            Ok(text) => serialized(frontmatter@) == Some(text@),
            Err(error) => error == FrontmatterError::Unserializable && serialized(
                frontmatter@,
            ) is None,
        },
{
    match emit_mapping(encode_frontmatter(frontmatter)) {
        Ok(text) => Ok(indent_yaml(text.as_str())),
        Err(_) => Err(FrontmatterError::Unserializable),
    }
}

impl FrontmatterError {
    /// What the error says, as one line of text.
    pub open spec fn message_text(self) -> Seq<char> {
        match self {
            FrontmatterError::NoFrontmatter => "no frontmatter block"@,
            FrontmatterError::MalformedYaml => "malformed frontmatter"@,
            FrontmatterError::Unserializable => "frontmatter cannot be written as YAML"@,
        }
    }

    /// The error as a line of text for a report.
    pub fn message(&self) -> (text: String)
        ensures
            text@ == self.message_text(),
    {
        match self {
            FrontmatterError::NoFrontmatter => "no frontmatter block".to_owned(),
            FrontmatterError::MalformedYaml => "malformed frontmatter".to_owned(),
            FrontmatterError::Unserializable => "frontmatter cannot be written as YAML".to_owned(),
        }
    }
}

} // verus!
