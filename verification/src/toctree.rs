//! The table of contents: which page lists which other pages.

use crate::page::Slug;
use crate::strmap::StrMap;
use vstd::prelude::*;

verus! {

/// One line of the table of contents: `parent` lists `child`.
#[derive(Debug)]
pub struct TocEntry {
    pub parent: Slug,
    pub child: Slug,
    /// The title under which the child is listed, where one is known.
    pub title: Option<String>,
}

/// The mathematical value of a [`TocEntry`].
pub ghost struct TocEntryModel {
    pub parent: Seq<char>,
    pub child: Seq<char>,
    pub title: Option<Seq<char>>,
}

/// The title of an entry as a sequence of characters.
pub open spec fn title_view(title: Option<String>) -> Option<Seq<char>> {
    match title {
        Some(t) => Some(t@),
        None => None,
    }
}

impl View for TocEntry {
    type V = TocEntryModel;

    open spec fn view(&self) -> TocEntryModel {
        TocEntryModel { parent: self.parent@, child: self.child@, title: title_view(self.title) }
    }
}

/// The entries of the table of contents, in the order in which they were
/// added.
#[derive(Debug)]
pub struct TocTree {
    entries: Vec<TocEntry>,
}

impl View for TocTree {
    type V = Seq<TocEntryModel>;

    closed spec fn view(&self) -> Seq<TocEntryModel> {
        Seq::new(self.entries@.len(), |i: int| self.entries@[i]@)
    }
}

/// An entry with its title filled in from `titles` where it had none and
/// `titles` knows its child.
pub open spec fn titled(entry: TocEntryModel, titles: Map<Seq<char>, Seq<char>>) -> TocEntryModel {
    if entry.title is None && titles.contains_key(entry.child) {
        TocEntryModel { title: Some(titles[entry.child]), ..entry }
    } else {
        entry
    }
}

impl TocTree {
    /// A table of contents without entries.
    pub fn new_empty() -> (t: TocTree)
        ensures
            t@ == Seq::<TocEntryModel>::empty(),
    {
        let t = TocTree { entries: Vec::new() };
        assert(t@ =~= Seq::<TocEntryModel>::empty());
        t
    }

    /// Lists `child` under `parent`.
    pub fn add(&mut self, parent: &Slug, child: Slug, title: Option<String>)
        ensures
            final(self)@ == old(self)@.push(
                TocEntryModel { parent: parent@, child: child@, title: title_view(title) },
            ),
    {
        self.entries.push(TocEntry { parent: parent.clone(), child, title });
        assert(self@ =~= old(self)@.push(
            TocEntryModel { parent: parent@, child: child@, title: title_view(title) },
        ));
    }

    /// The number of entries.
    pub fn len(&self) -> (n: usize)
        ensures
            n == self@.len(),
    {
        self.entries.len()
    }

    /// The entry at `index`.
    pub fn entry(&self, index: usize) -> (e: &TocEntry)
        requires
            index < self@.len(),
        ensures
            e@ == self@[index as int],
    {
        &self.entries[index]
    }

    /// Gives every entry without a title the title that `titles` holds for
    /// its child.
    pub fn finish(&mut self, titles: &StrMap<String>)
        ensures
            final(self)@.len() == old(self)@.len(),
            forall|i: int|
                0 <= i < old(self)@.len() ==> #[trigger] final(self)@[i] == titled(
                    old(self)@[i],
                    titles@,
                ),
    {
        let mut done: Vec<TocEntry> = Vec::new();
        let mut rest: Vec<TocEntry> = Vec::new();
        core::mem::swap(&mut self.entries, &mut rest);
        let ghost before = rest@;
        let mut i: usize = 0;
        while i < rest.len()
            invariant
                i <= rest.len(),
                rest@ == before,
                done.len() == i,
                forall|j: int| 0 <= j < i ==> #[trigger] done@[j]@ == titled(before[j]@, titles@),
            decreases rest.len() - i,
        {
            let entry = &rest[i];
            let title = match &entry.title {
                Some(t) => Some(t.clone()),
                None => match titles.get(entry.child.as_str()) {
                    Some(t) => Some(t.clone()),
                    None => None,
                },
            };
            done.push(TocEntry { parent: entry.parent.clone(), child: entry.child.clone(), title });
            i = i + 1;
        }
        self.entries = done;
    }
}

} // verus!
