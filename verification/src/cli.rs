//! The commands of the tool and what each of them does to one note.

use crate::commands::{
    add_tags, add_tags_result, clear_tags, clear_tags_result, outcome_view, remove_blank_aliases,
    remove_blank_aliases_result, remove_ids, remove_ids_result, remove_tags, remove_tags_result,
    replace_tags, replace_tags_result,
};
use crate::frontmatter::{texts, FrontmatterError};
use std::path::PathBuf;
use vstd::prelude::*;

verus! {

/// `std::path::PathBuf`, the path of the directory that a command works on.
#[verifier::external_type_specification]
#[verifier::external_body]
pub struct ExPathBuf(std::path::PathBuf);

/// One command: the edit to make, the directory whose notes it is made on,
/// and whether the directories below it are walked too.
#[derive(Debug)]
pub enum Command {
    /// Add tags to notes.
    Add { tags: Vec<String>, dir: PathBuf, recursive: bool },
    /// Remove tags from notes.
    Remove { tags: Vec<String>, dir: PathBuf, recursive: bool },
    /// Replace a tag with another.
    Replace { initial_tag: String, new_tag: String, dir: PathBuf, recursive: bool },
    /// Remove all tags from notes.
    Clear { dir: PathBuf, recursive: bool },
    /// Remove empty alias fields.
    RemoveAliases { dir: PathBuf, recursive: bool },
    /// Remove the identifier.
    RemoveId { dir: PathBuf, recursive: bool },
}

/// The options of one run of the tool.
#[derive(Debug)]
pub struct Opt {
    pub cwd: Command,
}

/// What is to be done with a note once a command was applied to it.
#[derive(Debug, Clone, PartialEq, Eq)]
pub enum FileAction {
    /// The note needs no change.
    Keep,
    /// The note is to be written with this text, and reported as updated.
    Write(String),
    /// The command failed on the note; the failure is to be reported.
    Report(FrontmatterError),
}

/// What `command` makes of a note.
pub open spec fn command_result(command: Command, content: Seq<char>) -> Result<
    Seq<char>,
    FrontmatterError,
> {
    match command {
        Command::Add { tags, dir, recursive } => add_tags_result(content, texts(tags@)),
        Command::Remove { tags, dir, recursive } => remove_tags_result(content, texts(tags@)),
        Command::Replace { initial_tag, new_tag, dir, recursive } => replace_tags_result(
            content,
            initial_tag@,
            new_tag@,
        ),
        Command::Clear { dir, recursive } => clear_tags_result(content),
        Command::RemoveAliases { dir, recursive } => remove_blank_aliases_result(content),
        Command::RemoveId { dir, recursive } => remove_ids_result(content),
    }
}

impl Command {
    /// The directory that the command works on.
    pub open spec fn target(self) -> PathBuf {
        match self {
            Command::Add { tags, dir, recursive } => dir,
            Command::Remove { tags, dir, recursive } => dir,
            Command::Replace { initial_tag, new_tag, dir, recursive } => dir,
            Command::Clear { dir, recursive } => dir,
            Command::RemoveAliases { dir, recursive } => dir,
            Command::RemoveId { dir, recursive } => dir,
        }
    }

    /// Whether the command walks the directories below its directory.
    pub open spec fn walks_subdirectories(self) -> bool {
        match self {
            Command::Add { tags, dir, recursive } => recursive,
            Command::Remove { tags, dir, recursive } => recursive,
            Command::Replace { initial_tag, new_tag, dir, recursive } => recursive,
            Command::Clear { dir, recursive } => recursive,
            Command::RemoveAliases { dir, recursive } => recursive,
            Command::RemoveId { dir, recursive } => recursive,
        }
    }

    /// The directory that the command works on.
    pub fn dir(&self) -> (dir: &PathBuf)
        ensures
            *dir == self.target(),
    {
        match self {
            Command::Add { dir, .. } => dir,
            Command::Remove { dir, .. } => dir,
            Command::Replace { dir, .. } => dir,
            Command::Clear { dir, .. } => dir,
            Command::RemoveAliases { dir, .. } => dir,
            Command::RemoveId { dir, .. } => dir,
        }
    }

    /// Whether the command walks the directories below its directory.
    pub fn recursive(&self) -> (recursive: bool)
        ensures
            recursive == self.walks_subdirectories(),
    {
        match self {
            Command::Add { recursive, .. } => *recursive,
            Command::Remove { recursive, .. } => *recursive,
            Command::Replace { recursive, .. } => *recursive,
            Command::Clear { recursive, .. } => *recursive,
            Command::RemoveAliases { recursive, .. } => *recursive,
            Command::RemoveId { recursive, .. } => *recursive,
        }
    }

    /// Applies the command to the text of one note.
    pub fn apply(&self, content: &str) -> (outcome: Result<String, FrontmatterError>)
        ensures
            outcome_view(outcome) == command_result(*self, content@),
    {
        match self {
            Command::Add { tags, .. } => add_tags(content, tags.as_slice()),
            Command::Remove { tags, .. } => remove_tags(content, tags.as_slice()),
            Command::Replace { initial_tag, new_tag, .. } => replace_tags(
                content,
                initial_tag,
                new_tag,
            ),
            Command::Clear { .. } => clear_tags(content),
            Command::RemoveAliases { .. } => remove_blank_aliases(content),
            Command::RemoveId { .. } => remove_ids(content),
        }
    }
}

/// Decides what is to be done with a note whose text was `content` and on
/// which a command returned `outcome`: nothing where the text is unchanged,
/// a write where it changed, a report where the command failed.
pub fn file_action(content: &str, outcome: Result<String, FrontmatterError>) -> (action: FileAction)
    ensures
        match outcome {
            Ok(text) => if text@ == content@ {
                action == FileAction::Keep
            } else {
                action == FileAction::Write(text)
            },
            Err(error) => action == FileAction::Report(error),
        },
{
    match outcome {
        Ok(text) => {
            let unchanged = text == content.to_owned();
            if unchanged {
                FileAction::Keep
            } else {
                FileAction::Write(text)
            }
        },
        Err(error) => FileAction::Report(error),
    }
}

} // verus!
