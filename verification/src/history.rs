//! The ordered clip-history store.
//!
//! Entries are plain strings; insertion order is the only ordering. The
//! store itself performs no I/O: loading is driven by a [`LoadOutcome`]
//! that the caller obtains from disk, and persistence is driven by the
//! JSON document the caller asks for and writes out.

use vstd::prelude::*;

verus! {

/// What a caller found when it tried to read a persisted document.
///
/// The caller maps its file I/O onto this enum; the store's constructors
/// then decide, in verified code, what state to start from.
pub enum LoadOutcome {
    /// The file was read in full; its text follows.
    Found(String),
    /// The file does not exist.
    Missing,
    /// The file could not be read for some other reason.
    Failed,
}

/// An ordered sequence of clipboard entries.
pub struct ClipboardHistory {
    list_items: Vec<String>,
}

impl ClipboardHistory {
    /// The mathematical model of the store: its entries, in order,
    /// each as a sequence of characters.
    pub closed spec fn view(&self) -> Seq<Seq<char>> {
        self.list_items.deep_view()
    }

    /// An empty history.
    pub fn empty() -> (h: ClipboardHistory)
        ensures
            h@ =~~= Seq::<Seq<char>>::empty(),
    {
        ClipboardHistory { list_items: Vec::new() }
    }

    /// Appends one entry at the end.
    pub fn add_item(&mut self, new_item: String)
        ensures
            final(self)@ =~~= old(self)@.push(new_item@),
    {
        self.list_items.push(new_item);
    }

    /// Removes the entry at `index`; all other entries keep their
    /// relative order.
    pub fn remove_item(&mut self, index: usize)
        requires
            index < old(self)@.len(),
        ensures
            final(self)@ =~~= old(self)@.remove(index as int),
    {
        self.list_items.remove(index);
    }

    /// Removes every entry.
    pub fn clear_items(&mut self)
        ensures
            final(self)@ =~~= Seq::<Seq<char>>::empty(),
    {
        self.list_items.clear();
    }

    /// Returns a copy of the entries, in order.
    pub fn get_items(&self) -> (items: Vec<String>)
        ensures
            items.deep_view() =~~= self@,
    {
        let mut items: Vec<String> = Vec::new();
        let mut i: usize = 0;
        while i < self.list_items.len()
            invariant
                i <= self.list_items.len(),
                items@.len() == i,
                forall|k: int| 0 <= k < i ==> items@[k]@ == self.list_items@[k]@,
            decreases self.list_items.len() - i,
        {
            let item = self.list_items[i].clone();
            items.push(item);
            i = i + 1;
        }
        proof {
            assert forall|k: int| 0 <= k < items@.len() implies items.deep_view()[k]
                == self@[k] by {
                assert(items.deep_view()[k] == items@[k]@);
                assert(self.list_items.deep_view()[k] == self.list_items@[k]@);
            }
            assert(items.deep_view() =~~= self@);
        }
        items
    }

    /// The number of entries.
    pub fn len(&self) -> (n: usize)
        ensures
            n == self@.len(),
    {
        self.list_items.len()
    }

    /// A history holding exactly these entries, in order.
    pub fn from_items(items: Vec<String>) -> (h: ClipboardHistory)
        ensures
            h@ == items.deep_view(),
    {
        ClipboardHistory { list_items: items }
    }

    /// What a read of the history file yields.  A file that is missing,
    /// or present but not a history document, gives an empty history:
    /// the store falls back to a clean start rather than refuse to run.
    pub fn from_load(outcome: LoadOutcome) -> (h: ClipboardHistory)
        ensures
            outcome matches LoadOutcome::Found(text) ==> {
                match crate::codec::d_history(text@) {
                    Some(l) => h@ == l,
                    None => h@ == Seq::<Seq<char>>::empty(),
                }
            },
            !(outcome is Found) ==> h@ == Seq::<Seq<char>>::empty(),
    {
        match outcome {
            LoadOutcome::Found(text) => {
                match crate::codec::parse_history(text.as_str()) {
                    Some(items) => ClipboardHistory { list_items: items },
                    None => ClipboardHistory { list_items: Vec::new() },
                }
            },
            LoadOutcome::Missing => ClipboardHistory { list_items: Vec::new() },
            LoadOutcome::Failed => ClipboardHistory { list_items: Vec::new() },
        }
    }

    /// The history document holding the current entries, ready to be
    /// written to the history file.
    pub fn to_document(&self) -> (s: String)
        ensures
            s@ == crate::codec::encode_history_seq(self@),
    {
        crate::codec::history_document(self)
    }
}

} // verus!
