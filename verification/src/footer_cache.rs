//! One footer per data file, shared by the splits of a scan.

use vstd::prelude::*;

use crate::keyed::{ascending_names, find_named, get_named, law_get_named_after_put_named, law_put_named_keeps_ascending, named_model, put_named, put_named_entry};
use crate::value::{law_text_order_is_irreflexive, law_text_order_is_transitive, text_before};

verus! {

/// The footers that a scan has read, by the paths of their files. A footer itself stays with the
/// program, which numbers them.
pub struct ParquetFooterCache {
    pub entries: Vec<(String, u64)>,
}

proof fn lemma_later_names_are_absent<V>(list: Seq<(Seq<char>, V)>, name: Seq<char>)
    requires
        ascending_names(list),
        list.len() > 0 ==> text_before(list.last().0, name),
    ensures
        get_named(list, name) is None,
    decreases list.len(),
{
    if list.len() > 0 {
        law_text_order_is_irreflexive(name);
        let shorter = list.drop_last();
        if shorter.len() > 0 {
            assert(text_before(list[list.len() - 2].0, list[list.len() - 1].0));
            law_text_order_is_transitive(shorter.last().0, list.last().0, name);
        }
        lemma_later_names_are_absent(shorter, name);
    }
}

proof fn lemma_put_named_len<V>(list: Seq<(Seq<char>, V)>, name: Seq<char>, value: V)
    requires
        ascending_names(list),
    ensures
        put_named(list, name, value).len() == list.len() + (if get_named(list, name) is None {
            1nat
        } else {
            0nat
        }),
    decreases list.len(),
{
    if list.len() == 0 || text_before(list.last().0, name) {
        lemma_later_names_are_absent(list, name);
    } else if list.last().0 != name {
        lemma_put_named_len(list.drop_last(), name, value);
    }
}

impl ParquetFooterCache {
    pub open spec fn wf(self) -> bool {
        ascending_names(named_model(self.entries@))
    }

    /// The footer of a file, where the scan has it.
    pub open spec fn footer_of(self, path: Seq<char>) -> Option<u64> {
        get_named(named_model(self.entries@), path)
    }

    /// A cache of no footer.
    pub fn new() -> (cache: ParquetFooterCache)
        ensures
            cache.wf(),
            cache.entries@.len() == 0,
            forall|path: Seq<char>| #[trigger] cache.footer_of(path) is None,
    {
        ParquetFooterCache { entries: Vec::new() }
    }

    /// The footer of a file that the scan already has. Without one the program reads it and
    /// remembers it.
    pub fn footer(&self, path: &String) -> (footer: Option<u64>)
        ensures
            footer == self.footer_of(path@),
    {
        match find_named(&self.entries, path) {
            Some(at) => Some(self.entries[at].1),
            None => None,
        }
    }

    /// Remember a footer that was read.
    pub fn remember(&mut self, path: String, footer: u64)
        requires
            old(self).wf(),
        ensures
            final(self).wf(),
            final(self).entries@.len() == old(self).entries@.len() + (if old(self).footer_of(
                path@,
            ) is None {
                1nat
            } else {
                0nat
            }),
            forall|other: Seq<char>| #[trigger]
                final(self).footer_of(other) == if other == path@ {
                    Some(footer)
                } else {
                    old(self).footer_of(other)
                },
    {
        let ghost before = named_model(self.entries@);
        let ghost name = path@;
        put_named_entry(&mut self.entries, path, footer);
        proof {
            law_put_named_keeps_ascending(before, name, footer);
            lemma_put_named_len(before, name, footer);
            assert forall|other: Seq<char>| #[trigger]
                self.footer_of(other) == if other == name {
                    Some(footer)
                } else {
                    get_named(before, other)
                } by {
                law_get_named_after_put_named(before, name, footer, other);
            }
            assert(named_model(self.entries@).len() == self.entries@.len());
        }
    }

    /// How many distinct footers the scan has read.
    pub fn len(&self) -> (count: usize)
        ensures
            count == self.entries@.len(),
    {
        self.entries.len()
    }

    pub fn is_empty(&self) -> (empty: bool)
        ensures
            empty == (self.entries@.len() == 0),
    {
        self.entries.len() == 0
    }
}

} // verus!
