//! The six edits of a frontmatter, each as a function of the frontmatter
//! alone.
//!
//! Every edit says what it leaves behind through a specification function
//! that returns `None` where the edit changes nothing and the frontmatter it
//! leaves otherwise, so that a caller can tell whether a note has to be
//! written again.

use crate::frontmatter::{texts, Frontmatter, FrontmatterView};
use crate::text::{contains_text, is_substring};
use vstd::prelude::*;

verus! {

/// `existing`, followed by each tag of `added` that is not there already, in
/// the order of `added`.
pub open spec fn with_added(existing: Seq<Seq<char>>, added: Seq<Seq<char>>) -> Seq<Seq<char>>
    decreases added.len(),
{
    if added.len() == 0 {
        existing
    } else {
        let merged = with_added(existing, added.drop_last());
        if merged.contains(added.last()) {
            merged
        } else {
            merged.push(added.last())
        }
    }
}

/// The tags of `existing` that do not occur in `removed`.
pub open spec fn without(existing: Seq<Seq<char>>, removed: Seq<Seq<char>>) -> Seq<Seq<char>> {
    existing.filter(|tag: Seq<char>| !removed.contains(tag))
}

/// The tags of `existing` that do not occur inside the text `within`.
pub open spec fn without_parts_of(existing: Seq<Seq<char>>, within: Seq<char>) -> Seq<Seq<char>> {
    existing.filter(|tag: Seq<char>| !is_substring(tag, within))
}

/// The tags of a frontmatter; none where the field is absent.
pub open spec fn tags_or_empty(frontmatter: FrontmatterView) -> Seq<Seq<char>> {
    match frontmatter.tags {
        Some(tags) => tags,
        None => Seq::empty(),
    }
}

/// Adding `added`: the tags grow by those that are new. Nothing changes where
/// none is new.
pub open spec fn after_add_tags(frontmatter: FrontmatterView, added: Seq<Seq<char>>) -> Option<
    FrontmatterView,
> {
    let merged = with_added(tags_or_empty(frontmatter), added);
    if merged.len() > tags_or_empty(frontmatter).len() {
        Some(FrontmatterView { tags: Some(merged), ..frontmatter })
    } else {
        None
    }
}

/// Removing `removed`: every tag that occurs in `removed` goes, and a field
/// left without tags goes with them. Nothing changes where the field is absent
/// or no tag occurs in `removed`.
pub open spec fn after_remove_tags(frontmatter: FrontmatterView, removed: Seq<Seq<char>>) -> Option<
    FrontmatterView,
> {
    match frontmatter.tags {
        None => None,
        Some(tags) => {
            let kept = without(tags, removed);
            if kept.len() < tags.len() {
                Some(
                    FrontmatterView {
                        tags: if kept.len() == 0 {
                            None
                        } else {
                            Some(kept)
                        },
                        ..frontmatter
                    },
                )
            } else {
                None
            }
        },
    }
}

/// Replacing `from` by `to`: every tag that occurs inside the text `from`
/// goes, then `to` is added unless it is among the tags that stay. Nothing
/// changes where the field is absent or no tag occurs inside `from`.
pub open spec fn after_replace_tags(
    frontmatter: FrontmatterView,
    from: Seq<char>,
    to: Seq<char>,
) -> Option<FrontmatterView> {
    match frontmatter.tags {
        None => None,
        Some(tags) => {
            let kept = without_parts_of(tags, from);
            if kept.len() < tags.len() {
                Some(
                    FrontmatterView {
                        tags: Some(
                            if kept.contains(to) {
                                kept
                            } else {
                                kept.push(to)
                            },
                        ),
                        ..frontmatter
                    },
                )
            } else {
                None
            }
        },
    }
}

/// Clearing the tags: the field goes. Nothing changes where it is absent.
pub open spec fn after_clear_tags(frontmatter: FrontmatterView) -> Option<FrontmatterView> {
    match frontmatter.tags {
        None => None,
        Some(_) => Some(FrontmatterView { tags: None, ..frontmatter }),
    }
}

/// Removing blank aliases: the field goes where it is present and empty.
/// Nothing changes otherwise.
pub open spec fn after_remove_blank_aliases(frontmatter: FrontmatterView) -> Option<
    FrontmatterView,
> {
    match frontmatter.aliases {
        Some(aliases) => if aliases.len() == 0 {
            Some(FrontmatterView { aliases: None, ..frontmatter })
        } else {
            None
        },
        None => None,
    }
}

/// Removing the identifier: the field goes. Nothing changes where it is
/// absent.
pub open spec fn after_remove_id(frontmatter: FrontmatterView) -> Option<FrontmatterView> {
    match frontmatter.id {
        Some(_) => Some(FrontmatterView { id: None, ..frontmatter }),
        None => None,
    }
}

/// What an edit says of the frontmatter it was given and the one it leaves.
pub open spec fn edit_outcome(
    edited: Option<FrontmatterView>,
    before: FrontmatterView,
    after: FrontmatterView,
    changed: bool,
) -> bool {
    match edited {
        Some(frontmatter) => changed && after == frontmatter,
        None => !changed && after == before,
    }
}

/// Adding tags keeps the tags that were there, in their places.
pub proof fn lemma_with_added_keeps(existing: Seq<Seq<char>>, added: Seq<Seq<char>>)
    ensures
        existing.len() <= with_added(existing, added).len(),
        with_added(existing, added).take(existing.len() as int) == existing,
    decreases added.len(),
{
    if added.len() > 0 {
        lemma_with_added_keeps(existing, added.drop_last());
        let merged = with_added(existing, added.drop_last());
        assert(merged.push(added.last()).take(existing.len() as int) =~= merged.take(
            existing.len() as int,
        ));
    } else {
        assert(existing.take(existing.len() as int) =~= existing);
    }
}

/// After adding, the tags are those that were there and those that were
/// given, and no others.
pub proof fn lemma_with_added_holds(existing: Seq<Seq<char>>, added: Seq<Seq<char>>)
    ensures
        forall|tag: Seq<char>|
            with_added(existing, added).contains(tag) <==> existing.contains(tag)
                || added.contains(tag),
    decreases added.len(),
{
    let merged = with_added(existing, added);
    if added.len() > 0 {
        let before = with_added(existing, added.drop_last());
        lemma_with_added_holds(existing, added.drop_last());
        assert forall|tag: Seq<char>|
            merged.contains(tag) <==> existing.contains(tag) || added.contains(tag) by {
            if added.contains(tag) {
                let i = choose|i: int| 0 <= i < added.len() && added[i] == tag;
                if i < added.len() - 1 {
                    assert(added.drop_last()[i] == tag);
                    assert(added.drop_last().contains(tag));
                }
            }
            if added.drop_last().contains(tag) {
                let i = choose|i: int| 0 <= i < added.drop_last().len() && added.drop_last()[i] == tag;
                assert(added[i] == tag);
            }
            assert(added[added.len() - 1] == added.last());
            if before.contains(tag) {
                let i = choose|i: int| 0 <= i < before.len() && before[i] == tag;
                if !before.contains(added.last()) {
                    assert(merged[i] == tag);
                }
            }
            if merged.contains(tag) && !before.contains(tag) {
                let i = choose|i: int| 0 <= i < merged.len() && merged[i] == tag;
                if i < before.len() {
                    assert(before[i] == tag);
                }
                assert(tag == added.last());
            }
            if tag == added.last() && !before.contains(tag) {
                assert(merged[before.len() as int] == tag);
            }
        }
    }
}

/// Adding tags that are all there already changes nothing.
pub proof fn lemma_with_added_absorbs(existing: Seq<Seq<char>>, added: Seq<Seq<char>>)
    requires
        forall|i: int| 0 <= i < added.len() ==> existing.contains(#[trigger] added[i]),
    ensures
        with_added(existing, added) == existing,
    decreases added.len(),
{
    if added.len() > 0 {
        assert forall|i: int| 0 <= i < added.drop_last().len() implies existing.contains(
            #[trigger] added.drop_last()[i],
        ) by {
            assert(added.drop_last()[i] == added[i]);
        }
        lemma_with_added_absorbs(existing, added.drop_last());
        assert(existing.contains(added[added.len() - 1]));
    }
}

/// Adding tags brings in no tag twice: where no tag occurred twice before,
/// none does after, whatever the given tags repeat.
pub proof fn lemma_with_added_unique(existing: Seq<Seq<char>>, added: Seq<Seq<char>>)
    requires
        existing.no_duplicates(),
    ensures
        with_added(existing, added).no_duplicates(),
    decreases added.len(),
{
    if added.len() > 0 {
        lemma_with_added_unique(existing, added.drop_last());
        let before = with_added(existing, added.drop_last());
        if !before.contains(added.last()) {
            let merged = before.push(added.last());
            assert forall|i: int, j: int|
                0 <= i < merged.len() && 0 <= j < merged.len() && i != j implies merged[i]
                != merged[j] by {
                if i < before.len() && j < before.len() {
                    assert(before[i] != before[j]);
                } else if i < before.len() {
                    assert(before.contains(before[i]));
                } else {
                    assert(before.contains(before[j]));
                }
            }
        }
    }
}

/// Adding the same tags a second time changes nothing.
pub proof fn lemma_with_added_twice(existing: Seq<Seq<char>>, added: Seq<Seq<char>>)
    ensures
        with_added(with_added(existing, added), added) == with_added(existing, added),
{
    lemma_with_added_holds(existing, added);
    let merged = with_added(existing, added);
    assert forall|i: int| 0 <= i < added.len() implies merged.contains(#[trigger] added[i]) by {
        assert(added.contains(added[i]));
    }
    lemma_with_added_absorbs(merged, added);
}

/// Once tags were added to a frontmatter, adding the same tags again edits
/// nothing.
pub proof fn lemma_add_tags_again(frontmatter: FrontmatterView, added: Seq<Seq<char>>)
    ensures
        match after_add_tags(frontmatter, added) {
            Some(edited) => after_add_tags(edited, added) is None,
            None => true,
        },
{
    lemma_with_added_twice(tags_or_empty(frontmatter), added);
}

/// After adding tags, the frontmatter holds the tags it held, in their
/// places, and every given tag; and where it held no tag twice, it holds none
/// twice.
pub proof fn lemma_add_tags_unique(frontmatter: FrontmatterView, added: Seq<Seq<char>>)
    ensures
        match after_add_tags(frontmatter, added) {
            Some(edited) => {
                let before = tags_or_empty(frontmatter);
                let after = tags_or_empty(edited);
                &&& after.take(before.len() as int) == before
                &&& forall|i: int| 0 <= i < added.len() ==> after.contains(#[trigger] added[i])
                &&& before.no_duplicates() ==> after.no_duplicates()
            },
            None => forall|i: int|
                0 <= i < added.len() ==> tags_or_empty(frontmatter).contains(#[trigger] added[i]),
        },
{
    let before = tags_or_empty(frontmatter);
    let merged = with_added(before, added);
    lemma_with_added_keeps(before, added);
    lemma_with_added_holds(before, added);
    assert forall|i: int| 0 <= i < added.len() implies merged.contains(#[trigger] added[i]) by {
        assert(added.contains(added[i]));
    }
    if before.no_duplicates() {
        lemma_with_added_unique(before, added);
    }
    if merged.len() == before.len() {
        assert(merged.take(before.len() as int) =~= merged);
    }
}

/// Removing tags of which none occurs among the given ones leaves all tags.
pub proof fn lemma_without_none(existing: Seq<Seq<char>>, removed: Seq<Seq<char>>)
    requires
        forall|i: int| 0 <= i < existing.len() ==> !removed.contains(#[trigger] existing[i]),
    ensures
        without(existing, removed) == existing,
    decreases existing.len(),
{
    reveal(Seq::filter);
    if existing.len() > 0 {
        assert forall|i: int| 0 <= i < existing.drop_last().len() implies !removed.contains(
            #[trigger] existing.drop_last()[i],
        ) by {
            assert(existing.drop_last()[i] == existing[i]);
        }
        lemma_without_none(existing.drop_last(), removed);
        assert(!removed.contains(existing[existing.len() - 1]));
        assert(existing.drop_last().push(existing.last()) =~= existing);
    }
}

/// Removing tags that all occur among the given ones leaves no tag.
pub proof fn lemma_without_all(existing: Seq<Seq<char>>, removed: Seq<Seq<char>>)
    requires
        forall|i: int| 0 <= i < existing.len() ==> removed.contains(#[trigger] existing[i]),
    ensures
        without(existing, removed).len() == 0,
    decreases existing.len(),
{
    reveal(Seq::filter);
    if existing.len() > 0 {
        assert forall|i: int| 0 <= i < existing.drop_last().len() implies removed.contains(
            #[trigger] existing.drop_last()[i],
        ) by {
            assert(existing.drop_last()[i] == existing[i]);
        }
        lemma_without_all(existing.drop_last(), removed);
        assert(removed.contains(existing[existing.len() - 1]));
    }
}

/// Removing no tag, or only tags that the frontmatter does not hold, edits
/// nothing.
pub proof fn lemma_remove_tags_without_match(frontmatter: FrontmatterView, removed: Seq<Seq<char>>)
    requires
        forall|i: int|
            0 <= i < tags_or_empty(frontmatter).len() ==> !removed.contains(
                #[trigger] tags_or_empty(frontmatter)[i],
            ),
    ensures
        after_remove_tags(frontmatter, removed) is None,
{
    lemma_without_none(tags_or_empty(frontmatter), removed);
}

/// Removing tags never leaves an empty tags field behind: where the last tag
/// goes, the field goes with it.
pub proof fn lemma_remove_tags_collapses(frontmatter: FrontmatterView, removed: Seq<Seq<char>>)
    ensures
        match after_remove_tags(frontmatter, removed) {
            Some(edited) => match edited.tags {
                Some(tags) => tags.len() > 0,
                None => without(tags_or_empty(frontmatter), removed).len() == 0,
            },
            None => true,
        },
        frontmatter.tags is Some && tags_or_empty(frontmatter).len() > 0 && (forall|i: int|
            0 <= i < tags_or_empty(frontmatter).len() ==> removed.contains(
                #[trigger] tags_or_empty(frontmatter)[i],
            )) ==> after_remove_tags(frontmatter, removed) == Some(
            FrontmatterView { tags: None, ..frontmatter },
        ),
{
    if frontmatter.tags is Some && tags_or_empty(frontmatter).len() > 0 && (forall|i: int|
        0 <= i < tags_or_empty(frontmatter).len() ==> removed.contains(
            #[trigger] tags_or_empty(frontmatter)[i],
        )) {
        lemma_without_all(tags_or_empty(frontmatter), removed);
    }
}

/// The tags field that an edit leaves is absent or holds a tag; the edit
/// leaves every other field but the one it is about as it was.
pub open spec fn tags_edit(before: FrontmatterView, edited: Option<FrontmatterView>) -> bool {
    match edited {
        Some(after) => {
            &&& after.id == before.id
            &&& after.aliases == before.aliases
            &&& after.other == before.other
            &&& match after.tags {
                Some(tags) => tags.len() > 0,
                None => true,
            }
        },
        None => true,
    }
}

/// No edit of the tags touches the identifier, the aliases or the remaining
/// fields, and none leaves an empty tags field behind.
pub proof fn lemma_tags_edits(
    frontmatter: FrontmatterView,
    tags: Seq<Seq<char>>,
    from: Seq<char>,
    to: Seq<char>,
)
    ensures
        tags_edit(frontmatter, after_add_tags(frontmatter, tags)),
        tags_edit(frontmatter, after_remove_tags(frontmatter, tags)),
        tags_edit(frontmatter, after_replace_tags(frontmatter, from, to)),
        tags_edit(frontmatter, after_clear_tags(frontmatter)),
{
    match frontmatter.tags {
        Some(held) => {
            let kept = without_parts_of(held, from);
            if kept.contains(to) {
                let i = choose|i: int| 0 <= i < kept.len() && kept[i] == to;
            }
        },
        None => {},
    }
}

/// Removing blank aliases or the identifier touches no other field.
pub proof fn lemma_field_edits(frontmatter: FrontmatterView)
    ensures
        match after_remove_blank_aliases(frontmatter) {
            Some(after) => after == (FrontmatterView { aliases: None, ..frontmatter }),
            None => true,
        },
        match after_remove_id(frontmatter) {
            Some(after) => after == (FrontmatterView { id: None, ..frontmatter }),
            None => true,
        },
{
}

/// Whether `tag` is one of `tags`.
pub fn has_tag(tags: &[String], tag: &String) -> (found: bool)
    ensures
        found == texts(tags@).contains(tag@),
{
    let mut i: usize = 0;
    while i < tags.len()
        invariant
            i <= tags.len(),
            forall|j: int| 0 <= j < i ==> texts(tags@)[j] != tag@,
        decreases tags.len() - i,
    {
        if tags[i] == *tag {
            assert(texts(tags@)[i as int] == tag@);
            return true;
        }
        i += 1;
    }
    false
}

/// A copy of `tags`.
fn copy_tags(tags: &Vec<String>) -> (copy: Vec<String>)
    ensures
        texts(copy@) == texts(tags@),
{
    let mut copy: Vec<String> = Vec::new();
    let mut i: usize = 0;
    while i < tags.len()
        invariant
            i <= tags.len(),
            texts(copy@) == texts(tags@.take(i as int)),
        decreases tags.len() - i,
    {
        let ghost held = copy@;
        copy.push(tags[i].clone());
        proof {
            assert(texts(copy@) =~= texts(held).push(tags@[i as int]@));
            assert(texts(tags@.take(i + 1)) =~= texts(tags@.take(i as int)).push(
                tags@[i as int]@,
            ));
        }
        i += 1;
    }
    assert(tags@.take(tags@.len() as int) =~= tags@);
    copy
}

/// The tags of `tags` that do not occur in `removed`.
fn tags_without(tags: &Vec<String>, removed: &[String]) -> (kept: Vec<String>)
    ensures
        texts(kept@) == without(texts(tags@), texts(removed@)),
{
    let ghost stays = |tag: Seq<char>| !texts(removed@).contains(tag);
    let mut kept: Vec<String> = Vec::new();
    let mut i: usize = 0;
    proof {
        reveal(Seq::filter);
        assert(texts(tags@.take(0)) =~= Seq::empty());
    }
    while i < tags.len()
        invariant
            i <= tags.len(),
            stays == (|tag: Seq<char>| !texts(removed@).contains(tag)),
            texts(kept@) == texts(tags@.take(i as int)).filter(stays),
        decreases tags.len() - i,
    {
        let found = has_tag(removed, &tags[i]);
        proof {
            let seen = texts(tags@.take(i as int));
            assert(texts(tags@.take(i + 1)) =~= seen.push(tags@[i as int]@));
            seen.lemma_filter_push(tags@[i as int]@, stays);
        }
        if !found {
            kept.push(tags[i].clone());
            assert(texts(kept@) =~= texts(tags@.take(i + 1)).filter(stays));
        }
        i += 1;
    }
    assert(tags@.take(tags@.len() as int) =~= tags@);
    kept
}

/// The tags of `tags` that do not occur inside `within`.
fn tags_outside(tags: &Vec<String>, within: &str) -> (kept: Vec<String>)
    ensures
        texts(kept@) == without_parts_of(texts(tags@), within@),
{
    let ghost stays = |tag: Seq<char>| !is_substring(tag, within@);
    let mut kept: Vec<String> = Vec::new();
    let mut i: usize = 0;
    proof {
        reveal(Seq::filter);
        assert(texts(tags@.take(0)) =~= Seq::empty());
    }
    while i < tags.len()
        invariant
            i <= tags.len(),
            stays == (|tag: Seq<char>| !is_substring(tag, within@)),
            texts(kept@) == texts(tags@.take(i as int)).filter(stays),
        decreases tags.len() - i,
    {
        let found = contains_text(within, tags[i].as_str());
        proof {
            let seen = texts(tags@.take(i as int));
            assert(texts(tags@.take(i + 1)) =~= seen.push(tags@[i as int]@));
            seen.lemma_filter_push(tags@[i as int]@, stays);
        }
        if !found {
            kept.push(tags[i].clone());
            assert(texts(kept@) =~= texts(tags@.take(i + 1)).filter(stays));
        }
        i += 1;
    }
    assert(tags@.take(tags@.len() as int) =~= tags@);
    kept
}

impl Frontmatter {
    /// Adds every tag of `tags_to_add` that the frontmatter does not hold yet,
    /// behind the tags it holds, in the order given. Returns whether a tag was
    /// added.
    pub fn add_tags(&mut self, tags_to_add: &[String]) -> (changed: bool)
        ensures
            edit_outcome(
                after_add_tags(old(self)@, texts(tags_to_add@)),
                old(self)@,
                final(self)@,
                changed,
            ),
    {
        let mut merged: Vec<String> = match &self.tags {
            Some(tags) => copy_tags(tags),
            None => Vec::new(),
        };
        let ghost existing = tags_or_empty(self@);
        assert(texts(merged@) =~= existing);
        let count = merged.len();
        let mut i: usize = 0;
        assert(tags_to_add@.take(0) =~= Seq::empty());
        while i < tags_to_add.len()
            invariant
                i <= tags_to_add.len(),
                texts(merged@) == with_added(existing, texts(tags_to_add@.take(i as int))),
            decreases tags_to_add.len() - i,
        {
            proof {
                let next = texts(tags_to_add@.take(i + 1));
                assert(next.drop_last() =~= texts(tags_to_add@.take(i as int)));
                assert(next.last() == tags_to_add@[i as int]@);
            }
            if !has_tag(merged.as_slice(), &tags_to_add[i]) {
                let ghost held = merged@;
                merged.push(tags_to_add[i].clone());
                assert(texts(merged@) =~= texts(held).push(tags_to_add@[i as int]@));
            }
            i += 1;
        }
        assert(tags_to_add@.take(tags_to_add@.len() as int) =~= tags_to_add@);
        if merged.len() > count {
            self.tags = Some(merged);
            true
        } else {
            false
        }
    }

    /// Removes every tag that occurs in `tags_to_remove`; a field left without
    /// tags is removed with them. Returns whether a tag was removed.
    pub fn remove_tags(&mut self, tags_to_remove: &[String]) -> (changed: bool)
        ensures
            edit_outcome(
                after_remove_tags(old(self)@, texts(tags_to_remove@)),
                old(self)@,
                final(self)@,
                changed,
            ),
    {
        let (kept, count) = match &self.tags {
            Some(tags) => (tags_without(tags, tags_to_remove), tags.len()),
            None => {
                return false;
            },
        };
        if kept.len() < count {
            if kept.len() == 0 {
                self.tags = None;
            } else {
                self.tags = Some(kept);
            }
            true
        } else {
            false
        }
    }

    /// Removes every tag that occurs inside the text `initial_tag`, then adds
    /// `new_tag` unless it is among the tags that stay. Returns whether a tag
    /// was removed.
    pub fn replace_tags(&mut self, initial_tag: &String, new_tag: &String) -> (changed: bool)
        ensures
            edit_outcome(
                after_replace_tags(old(self)@, initial_tag@, new_tag@),
                old(self)@,
                final(self)@,
                changed,
            ),
    {
        let (mut kept, count) = match &self.tags {
            Some(tags) => (tags_outside(tags, initial_tag.as_str()), tags.len()),
            None => {
                return false;
            },
        };
        if kept.len() < count {
            if !has_tag(kept.as_slice(), new_tag) {
                let ghost held = kept@;
                kept.push(new_tag.clone());
                assert(texts(kept@) =~= texts(held).push(new_tag@));
            }
            self.tags = Some(kept);
            true
        } else {
            false
        }
    }

    /// Removes the tags field. Returns whether it was present.
    pub fn clear_tags(&mut self) -> (changed: bool)
        ensures
            edit_outcome(after_clear_tags(old(self)@), old(self)@, final(self)@, changed),
    {
        if self.tags.is_none() {
            return false;
        }
        self.tags = None;
        true
    }

    /// Removes the aliases field where it is present and empty. Returns
    /// whether it was removed.
    pub fn remove_blank_aliases(&mut self) -> (changed: bool)
        ensures
            edit_outcome(
                after_remove_blank_aliases(old(self)@),
                old(self)@,
                final(self)@,
                changed,
            ),
    {
        let blank = match &self.aliases {
            Some(aliases) => aliases.len() == 0,
            None => false,
        };
        if blank {
            self.aliases = None;
        }
        blank
    }

    /// Removes the identifier. Returns whether it was present.
    pub fn remove_id(&mut self) -> (changed: bool)
        ensures
            edit_outcome(after_remove_id(old(self)@), old(self)@, final(self)@, changed),
    {
        if self.id.is_none() {
            return false;
        }
        self.id = None;
        true
    }
}

} // verus!
