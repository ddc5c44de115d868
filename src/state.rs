//! The reading cursor over the chapters of the active document.
use vstd::prelude::*;

use crate::model::{Book, Chapter};
use crate::text::str_eq;

verus! {

/// The active document, if any, and the index of the chapter being read.
#[derive(Debug, Default, Clone)]
pub struct ReaderState {
    pub active_book: Option<Book>,
    pub current_chapter: Option<usize>,
}

impl ReaderState {
    /// The chapters of the active document (none without one).
    pub open spec fn chapters(&self) -> Seq<Chapter> {
        match self.active_book {
            Some(book) => book.content.chapters@,
            None => Seq::empty(),
        }
    }

    /// Makes `book` the active document and points at its first chapter, if it has one.
    pub fn set_active_book(&mut self, book: Book)
        ensures
            final(self).active_book == Some(book),
            final(self).current_chapter == (if book.content.chapters@.len() == 0 {
                None::<usize>
            } else {
                Some(0usize)
            }),
    {
        self.current_chapter = if book.content.chapters.len() == 0 {
            None
        } else {
            Some(0)
        };
        self.active_book = Some(book);
    }

    /// The current chapter with its index, when the cursor points into the active document.
    pub fn current_chapter(&self) -> (r: Option<(&Chapter, usize)>)
        ensures
            r is Some <==> (self.active_book is Some && self.current_chapter is Some
                && self.current_chapter->0 < self.chapters().len()),
            r is Some ==> (r->0).1 == self.current_chapter->0 && *(r->0).0 == self.chapters()[(r->0).1 as int],
    {
        let index = match self.current_chapter {
            Some(i) => i,
            None => return None,
        };
        let book = match &self.active_book {
            Some(b) => b,
            None => return None,
        };
        if index < book.content.chapters.len() {
            Some((&book.content.chapters[index], index))
        } else {
            None
        }
    }

    /// The number of chapters of the active document, 0 without one.
    pub fn chapter_count(&self) -> (r: usize)
        ensures
            r == self.chapters().len(),
    {
        match &self.active_book {
            Some(book) => book.content.chapters.len(),
            None => 0,
        }
    }

    /// The path of the current chapter, when the cursor points into the active document.
    pub fn current_chapter_href(&self) -> (r: Option<&str>)
        ensures
            r is Some <==> (self.active_book is Some && self.current_chapter is Some
                && self.current_chapter->0 < self.chapters().len()),
            r is Some ==> r->0@ == self.chapters()[self.current_chapter->0 as int].href@,
    {
        match self.current_chapter() {
            Some((chapter, _)) => Some(chapter.href.as_str()),
            None => None,
        }
    }

    /// Advances to the next chapter; past the last one it changes nothing and returns false.
    pub fn next_chapter(&mut self) -> (moved: bool)
        ensures
            final(self).active_book == old(self).active_book,
            moved <==> (old(self).current_chapter is Some && old(self).current_chapter->0 + 1
                < old(self).chapters().len()),
            moved ==> final(self).current_chapter == Some((old(self).current_chapter->0 + 1) as usize),
            !moved ==> final(self).current_chapter == old(self).current_chapter,
    {
        let total = self.chapter_count();
        let current = match self.current_chapter {
            Some(c) => c,
            None => return false,
        };
        if current < total && current + 1 < total {
            self.current_chapter = Some(current + 1);
            true
        } else {
            false
        }
    }

    /// Goes back one chapter; before the first one it changes nothing and returns false.
    pub fn previous_chapter(&mut self) -> (moved: bool)
        ensures
            final(self).active_book == old(self).active_book,
            moved <==> (old(self).current_chapter is Some && old(self).current_chapter->0 > 0),
            moved ==> final(self).current_chapter == Some((old(self).current_chapter->0 - 1) as usize),
            !moved ==> final(self).current_chapter == old(self).current_chapter,
    {
        let current = match self.current_chapter {
            Some(c) => c,
            None => return false,
        };
        if current > 0 {
            self.current_chapter = Some(current - 1);
            true
        } else {
            false
        }
    }

    /// Points at the first chapter whose path is `href`; without one it changes nothing
    /// and returns false.
    pub fn jump_to_chapter_href(&mut self, href: &str) -> (found: bool)
        ensures
            final(self).active_book == old(self).active_book,
            found <==> exists|i: int|
                0 <= i < old(self).chapters().len() && (#[trigger] old(self).chapters()[i]).href@
                    == href@,
            found ==> {
                let i = final(self).current_chapter->0 as int;
                &&& final(self).current_chapter is Some
                &&& 0 <= i < old(self).chapters().len()
                &&& old(self).chapters()[i].href@ == href@
                &&& forall|j: int| 0 <= j < i ==> (#[trigger] old(self).chapters()[j]).href@ != href@
            },
            !found ==> final(self).current_chapter == old(self).current_chapter,
    {
        let found = match &self.active_book {
            Some(book) => position_of_href(&book.content.chapters, href),
            None => None,
        };
        match found {
            Some(i) => {
                self.current_chapter = Some(i);
                true
            },
            None => false,
        }
    }
}

/// The index of the first chapter whose path is `href`.
fn position_of_href(chapters: &Vec<Chapter>, href: &str) -> (r: Option<usize>)
    ensures
        r is None <==> forall|j: int| 0 <= j < chapters@.len() ==> (#[trigger] chapters@[j]).href@ != href@,
        r is Some ==> {
            &&& r->0 < chapters@.len()
            &&& chapters@[r->0 as int].href@ == href@
            &&& forall|j: int| 0 <= j < r->0 ==> (#[trigger] chapters@[j]).href@ != href@
        },
{
    let mut i: usize = 0;
    while i < chapters.len()
        invariant
            i <= chapters.len(),
            forall|j: int| 0 <= j < i ==> (#[trigger] chapters@[j]).href@ != href@,
        decreases chapters.len() - i,
    {
        if str_eq(chapters[i].href.as_str(), href) {
            return Some(i);
        }
        i += 1;
    }
    None
}

} // verus!
