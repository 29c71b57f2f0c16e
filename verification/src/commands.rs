//! The six operations on the text of a note.
//!
//! Each operation reads the frontmatter of the note, edits it, and writes the
//! note again only where the edit changed something: a note that needs no
//! change comes back as the very text that was given. A note without a
//! frontmatter block is left as it is, except that adding tags gives it one. A
//! note whose block cannot be read fails the operation.

use crate::document::{
    closing_from, indented_yaml, lemma_indented_yaml_ends, lemma_split_rendered, render_document,
    rendered,
};
use crate::frontmatter::{
    parse_frontmatter, parsed, serialize_frontmatter, serialized, texts, Frontmatter,
    FrontmatterError, FrontmatterView,
};
use crate::frontmatter::{
    aliases_key, decode_entries, encode_entries, encode_list_field, encode_other,
    encode_text_field, id_key,
};
use crate::yaml::{yaml_document, yaml_text};
use crate::transform::{
    after_add_tags, after_clear_tags, after_remove_blank_aliases, after_remove_id,
    after_remove_tags, after_replace_tags, lemma_add_tags_again, lemma_remove_tags_collapses,
    lemma_remove_tags_without_match, tags_or_empty,
};
use vstd::prelude::*;

verus! {

/// The view of what an operation returns.
pub open spec fn outcome_view(outcome: Result<String, FrontmatterError>) -> Result<
    Seq<char>,
    FrontmatterError,
> {
    match outcome {
        Ok(text) => Ok(text@),
        Err(error) => Err(error),
    }
}

/// The frontmatter that adding tags starts from in a note that has none: an
/// empty identifier, no aliases and no tags.
pub open spec fn scaffold() -> FrontmatterView {
    FrontmatterView {
        id: Some(Seq::empty()),
        aliases: Some(Seq::empty()),
        tags: Some(Seq::empty()),
        other: Seq::empty(),
    }
}

/// A note written from a frontmatter and a body; `Unserializable` where the
/// frontmatter cannot be written.
pub open spec fn written(frontmatter: FrontmatterView, body: Seq<char>) -> Result<
    Seq<char>,
    FrontmatterError,
> {
    match serialized(frontmatter) {
        Some(yaml) => Ok(rendered(yaml, body)),
        None => Err(FrontmatterError::Unserializable),
    }
}

/// The note after an edit: the text as it was where nothing was edited, the
/// note written from the edited frontmatter otherwise.
pub open spec fn rewritten(
    content: Seq<char>,
    body: Seq<char>,
    edited: Option<FrontmatterView>,
) -> Result<Seq<char>, FrontmatterError> {
    match edited {
        None => Ok(content),
        Some(frontmatter) => written(frontmatter, body),
    }
}

/// The note after an edit that leaves a note without frontmatter alone.
pub open spec fn edited_note(
    content: Seq<char>,
    edit: spec_fn(FrontmatterView) -> Option<FrontmatterView>,
) -> Result<Seq<char>, FrontmatterError> {
    match parsed(content) {
        Ok((frontmatter, body)) => rewritten(content, body, edit(frontmatter)),
        Err(FrontmatterError::NoFrontmatter) => Ok(content),
        Err(error) => Err(error),
    }
}

/// What `add_tags` returns. A note without frontmatter gets a block in front
/// of its whole text, unless no tag is given.
pub open spec fn add_tags_result(content: Seq<char>, tags: Seq<Seq<char>>) -> Result<
    Seq<char>,
    FrontmatterError,
> {
    match parsed(content) {
        Ok((frontmatter, body)) => rewritten(content, body, after_add_tags(frontmatter, tags)),
        Err(FrontmatterError::NoFrontmatter) => rewritten(
            content,
            content,
            after_add_tags(scaffold(), tags),
        ),
        Err(error) => Err(error),
    }
}

/// What `remove_tags` returns.
pub open spec fn remove_tags_result(content: Seq<char>, tags: Seq<Seq<char>>) -> Result<
    Seq<char>,
    FrontmatterError,
> {
    edited_note(content, |frontmatter: FrontmatterView| after_remove_tags(frontmatter, tags))
}

/// What `replace_tags` returns.
pub open spec fn replace_tags_result(content: Seq<char>, from: Seq<char>, to: Seq<char>) -> Result<
    Seq<char>,
    FrontmatterError,
> {
    edited_note(content, |frontmatter: FrontmatterView| after_replace_tags(frontmatter, from, to))
}

/// What `clear_tags` returns.
pub open spec fn clear_tags_result(content: Seq<char>) -> Result<Seq<char>, FrontmatterError> {
    edited_note(content, |frontmatter: FrontmatterView| after_clear_tags(frontmatter))
}

/// What `remove_blank_aliases` returns.
pub open spec fn remove_blank_aliases_result(content: Seq<char>) -> Result<
    Seq<char>,
    FrontmatterError,
> {
    edited_note(content, |frontmatter: FrontmatterView| after_remove_blank_aliases(frontmatter))
}

/// What `remove_ids` returns.
pub open spec fn remove_ids_result(content: Seq<char>) -> Result<Seq<char>, FrontmatterError> {
    edited_note(content, |frontmatter: FrontmatterView| after_remove_id(frontmatter))
}

/// The tags of a note; none where the note has no frontmatter that can be
/// read, or no tags field.
pub open spec fn note_tags(content: Seq<char>) -> Seq<Seq<char>> {
    match parsed(content) {
        Ok((frontmatter, body)) => tags_or_empty(frontmatter),
        Err(_) => Seq::empty(),
    }
}

/// The frontmatter and the body that `add_tags` starts from; `None` where the
/// block of the note cannot be read.
pub open spec fn add_tags_start(content: Seq<char>) -> Option<(FrontmatterView, Seq<char>)> {
    match parsed(content) {
        Ok(parts) => Some(parts),
        Err(FrontmatterError::NoFrontmatter) => Some((scaffold(), content)),
        Err(_) => None,
    }
}

/// The block that `frontmatter` is written as holds no delimiter line, and
/// the YAML reader reads it as entries that give `frontmatter` again.
pub open spec fn block_reads_back(frontmatter: FrontmatterView) -> bool {
    match serialized(frontmatter) {
        Some(block) => closing_from(block, 0) is None && match yaml_document(block) {
            Some(entries) => decode_entries(entries) == Some(frontmatter),
            None => false,
        },
        None => true,
    }
}

/// The block of the frontmatter that `add_tags` writes, if it writes one,
/// reads back.
pub open spec fn add_tags_reads_back(content: Seq<char>, tags: Seq<Seq<char>>) -> bool {
    match add_tags_start(content) {
        Some((frontmatter, body)) => match after_add_tags(frontmatter, tags) {
            Some(edited) => block_reads_back(edited),
            None => true,
        },
        None => true,
    }
}

/// A note written from a frontmatter whose block reads back is read as that
/// frontmatter and the body it was written with.
pub proof fn lemma_written_reads_back(frontmatter: FrontmatterView, body: Seq<char>)
    requires
        block_reads_back(frontmatter),
    ensures
        match written(frontmatter, body) {
            Ok(text) => parsed(text) == Ok::<(FrontmatterView, Seq<char>), FrontmatterError>(
                (frontmatter, body),
            ),
            Err(_) => true,
        },
{
    match yaml_text(encode_entries(frontmatter)) {
        Some(raw) => {
            lemma_indented_yaml_ends(raw);
            lemma_split_rendered(indented_yaml(raw), body);
        },
        None => {},
    }
}

/// A note that is laid out as its own frontmatter is written is written back
/// as the same text.
pub proof fn lemma_canonical_note_is_stable(content: Seq<char>)
    requires
        parsed(content) is Ok,
        serialized(parsed(content)->Ok_0.0) is Some,
        content == rendered(serialized(parsed(content)->Ok_0.0)->Some_0, parsed(content)->Ok_0.1),
    ensures
        written(parsed(content)->Ok_0.0, parsed(content)->Ok_0.1) == Ok::<
            Seq<char>,
            FrontmatterError,
        >(content),
{
}

/// Removing tags from a note that holds none of them returns the note as it
/// is, unless its block cannot be read. Removing no tags is one such case.
pub proof fn lemma_remove_tags_unchanged(content: Seq<char>, removed: Seq<Seq<char>>)
    requires
        forall|i: int|
            0 <= i < note_tags(content).len() ==> !removed.contains(
                #[trigger] note_tags(content)[i],
            ),
    ensures
        remove_tags_result(content, removed) == match parsed(content) {
            Err(FrontmatterError::MalformedYaml) => Err::<Seq<char>, FrontmatterError>(
                FrontmatterError::MalformedYaml,
            ),
            _ => Ok(content),
        },
{
    match parsed(content) {
        Ok((frontmatter, body)) => {
            let held = tags_or_empty(frontmatter);
            assert(note_tags(content) == held);
            assert forall|i: int| 0 <= i < held.len() implies !removed.contains(
                #[trigger] held[i],
            ) by {
                assert(!removed.contains(note_tags(content)[i]));
            }
            lemma_remove_tags_without_match(frontmatter, removed);
        },
        Err(_) => {},
    }
}

/// Removing the last tags of a note writes a block without a tags field:
/// only the identifier, the aliases and the remaining fields are written.
pub proof fn lemma_remove_last_tags(content: Seq<char>, removed: Seq<Seq<char>>)
    requires
        parsed(content) is Ok,
        parsed(content)->Ok_0.0.tags is Some,
        note_tags(content).len() > 0,
        forall|i: int|
            0 <= i < note_tags(content).len() ==> removed.contains(#[trigger] note_tags(content)[i]),
    ensures
        ({
            let (frontmatter, body) = parsed(content)->Ok_0;
            let edited = FrontmatterView { tags: None, ..frontmatter };
            &&& remove_tags_result(content, removed) == written(edited, body)
            &&& encode_entries(edited) == encode_text_field(id_key(), frontmatter.id)
                + encode_list_field(aliases_key(), frontmatter.aliases) + encode_other(
                frontmatter.other,
            )
        }),
{
    let (frontmatter, body) = parsed(content)->Ok_0;
    lemma_remove_tags_collapses(frontmatter, removed);
    let edited = FrontmatterView { tags: None, ..frontmatter };
    assert(encode_entries(edited) =~= encode_text_field(id_key(), frontmatter.id)
        + encode_list_field(aliases_key(), frontmatter.aliases) + encode_other(frontmatter.other));
}

/// Adding the same tags to a note twice gives what adding them once gives,
/// where the block that the first call writes reads back.
pub proof fn lemma_add_tags_twice(content: Seq<char>, tags: Seq<Seq<char>>)
    requires
        add_tags_result(content, tags) is Ok,
        add_tags_reads_back(content, tags),
    ensures
        add_tags_result(add_tags_result(content, tags)->Ok_0, tags) == add_tags_result(
            content,
            tags,
        ),
{
    match add_tags_start(content) {
        Some((frontmatter, body)) => {
            lemma_add_tags_again(frontmatter, tags);
            match after_add_tags(frontmatter, tags) {
                Some(edited) => {
                    lemma_written_reads_back(edited, body);
                },
                None => {},
            }
        },
        None => {},
    }
}


/// Writes a note from a frontmatter and a body: the block of the frontmatter
/// between two delimiter lines, the body behind them.
pub fn write_note(frontmatter: Frontmatter, body: &str) -> (outcome: Result<String, FrontmatterError>)
    ensures
        outcome_view(outcome) == written(frontmatter@, body@),
{
    match serialize_frontmatter(frontmatter) {
        Ok(yaml) => Ok(render_document(yaml.as_str(), body)),
        Err(error) => Err(error),
    }
}

/// Adds tags to a note. Tags that the note holds already are not added again;
/// new ones follow the tags of the note in the order given. A note without
/// frontmatter gets a block with an empty identifier, no aliases and the tags.
pub fn add_tags(content: &str, tags_to_add: &[String]) -> (outcome: Result<String, FrontmatterError>)
    ensures
        outcome_view(outcome) == add_tags_result(content@, texts(tags_to_add@)),
{
    let (mut frontmatter, body) = match parse_frontmatter(content) {
        Ok(parts) => parts,
        Err(FrontmatterError::NoFrontmatter) => {
            let fresh = Frontmatter {
                id: Some(String::new()),
                aliases: Some(Vec::new()),
                tags: Some(Vec::new()),
                other: Vec::new(),
            };
            assert(fresh@ =~= scaffold());
            (fresh, content.to_owned())
        },
        Err(error) => {
            return Err(error);
        },
    };
    if frontmatter.add_tags(tags_to_add) {
        write_note(frontmatter, body.as_str())
    } else {
        Ok(content.to_owned())
    }
}

/// Removes from a note every tag that occurs in `tags_to_remove`. A note left
/// without tags loses the field.
pub fn remove_tags(content: &str, tags_to_remove: &[String]) -> (outcome: Result<
    String,
    FrontmatterError,
>)
    ensures
        outcome_view(outcome) == remove_tags_result(content@, texts(tags_to_remove@)),
{
    let (mut frontmatter, body) = match parse_frontmatter(content) {
        Ok(parts) => parts,
        Err(FrontmatterError::NoFrontmatter) => {
            return Ok(content.to_owned());
        },
        Err(error) => {
            return Err(error);
        },
    };
    if frontmatter.remove_tags(tags_to_remove) {
        write_note(frontmatter, body.as_str())
    } else {
        Ok(content.to_owned())
    }
}

/// Removes from a note every tag that occurs inside the text `initial_tag`
/// and, where one was removed, adds `new_tag` unless the note still holds it.
pub fn replace_tags(content: &str, initial_tag: &String, new_tag: &String) -> (outcome: Result<
    String,
    FrontmatterError,
>)
    ensures
        outcome_view(outcome) == replace_tags_result(content@, initial_tag@, new_tag@),
{
    let (mut frontmatter, body) = match parse_frontmatter(content) {
        Ok(parts) => parts,
        Err(FrontmatterError::NoFrontmatter) => {
            return Ok(content.to_owned());
        },
        Err(error) => {
            return Err(error);
        },
    };
    if frontmatter.replace_tags(initial_tag, new_tag) {
        write_note(frontmatter, body.as_str())
    } else {
        Ok(content.to_owned())
    }
}

/// Removes the tags field from a note.
pub fn clear_tags(content: &str) -> (outcome: Result<String, FrontmatterError>)
    ensures
        outcome_view(outcome) == clear_tags_result(content@),
{
    let (mut frontmatter, body) = match parse_frontmatter(content) {
        Ok(parts) => parts,
        Err(FrontmatterError::NoFrontmatter) => {
            return Ok(content.to_owned());
        },
        Err(error) => {
            return Err(error);
        },
    };
    if frontmatter.clear_tags() {
        write_note(frontmatter, body.as_str())
    } else {
        Ok(content.to_owned())
    }
}

/// Removes the aliases field from a note where the field is present and
/// empty.
pub fn remove_blank_aliases(content: &str) -> (outcome: Result<String, FrontmatterError>)
    ensures
        outcome_view(outcome) == remove_blank_aliases_result(content@),
{
    let (mut frontmatter, body) = match parse_frontmatter(content) {
        Ok(parts) => parts,
        Err(FrontmatterError::NoFrontmatter) => {
            return Ok(content.to_owned());
        },
        Err(error) => {
            return Err(error);
        },
    };
    if frontmatter.remove_blank_aliases() {
        write_note(frontmatter, body.as_str())
    } else {
        Ok(content.to_owned())
    }
}

/// Removes the identifier from a note.
pub fn remove_ids(content: &str) -> (outcome: Result<String, FrontmatterError>)
    ensures
        outcome_view(outcome) == remove_ids_result(content@),
{
    let (mut frontmatter, body) = match parse_frontmatter(content) {
        Ok(parts) => parts,
        Err(FrontmatterError::NoFrontmatter) => {
            return Ok(content.to_owned());
        },
        Err(error) => {
            return Err(error);
        },
    };
    if frontmatter.remove_id() {
        write_note(frontmatter, body.as_str())
    } else {
        Ok(content.to_owned())
    }
}

} // verus!
