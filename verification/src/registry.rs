//! The content registry: visitable items, filed under their ids.

use vstd::prelude::*;
use crate::assoc::{
    as_map, has_key, keys_distinct, lemma_entry, lemma_len, lemma_push, lemma_update,
};
use crate::text::str_eq;

verus! {

/// A visitable piece of content.
#[derive(Debug, PartialEq, Eq)]
pub struct Item {
    pub id: String,
    pub url: String,
    pub label: String,
    /// A free-form category tag, such as "webpage".
    pub kind: String,
}

/// What an [`Item`] holds, as character sequences.
pub struct ItemView {
    pub id: Seq<char>,
    pub url: Seq<char>,
    pub label: Seq<char>,
    pub kind: Seq<char>,
}

impl View for Item {
    type V = ItemView;

    open spec fn view(&self) -> ItemView {
        ItemView { id: self.id@, url: self.url@, label: self.label@, kind: self.kind@ }
    }
}

impl Item {
    /// An item made of copies of the four given strings.
    pub fn new(id: &str, url: &str, label: &str, kind: &str) -> (item: Item)
        ensures
            item@ == (ItemView { id: id@, url: url@, label: label@, kind: kind@ }),
    {
        Item {
            id: id.to_owned(),
            url: url.to_owned(),
            label: label.to_owned(),
            kind: kind.to_owned(),
        }
    }
}

impl Clone for Item {
    fn clone(&self) -> (copy: Item)
        ensures
            copy == *self,
    {
        Item {
            id: self.id.clone(),
            url: self.url.clone(),
            label: self.label.clone(),
            kind: self.kind.clone(),
        }
    }
}

/// The stored items as key-value pairs: each item beside its id.
spec fn item_entries(items: Seq<Item>) -> Seq<(Seq<char>, ItemView)> {
    Seq::new(items.len(), |i: int| (items[i].id@, items[i]@))
}

/// The registry of visitable items. It holds at most one item per id.
pub struct Registry {
    items: Vec<Item>,
}

impl View for Registry {
    type V = Map<Seq<char>, ItemView>;

    /// The registry as a map from id to item.
    closed spec fn view(&self) -> Map<Seq<char>, ItemView> {
        as_map(item_entries(self.items@))
    }
}

impl Registry {
    #[verifier::type_invariant]
    spec fn ids_distinct(&self) -> bool {
        keys_distinct(item_entries(self.items@))
    }

    /// The empty registry.
    pub fn new() -> (registry: Registry)
        ensures
            registry@ == Map::<Seq<char>, ItemView>::empty(),
    {
        let registry = Registry { items: Vec::new() };
        assert(registry@ =~= Map::<Seq<char>, ItemView>::empty());
        registry
    }

    /// The position of the item filed under `id`, if there is one.
    fn find(&self, id: &str) -> (at: Option<usize>)
        ensures
            (match at {
                Some(i) => i < self.items.len() && self.items[i as int].id@ == id@,
                None => !has_key(item_entries(self.items@), id@),
            }),
    {
        let mut i: usize = 0;
        while i < self.items.len()
            invariant
                i <= self.items.len(),
                forall|j: int| 0 <= j < i ==> self.items[j].id@ != id@,
            decreases self.items.len() - i,
        {
            if str_eq(self.items[i].id.as_str(), id) {
                return Some(i);
            }
            i += 1;
        }
        None
    }

    /// Files an item under `id`. An item that was filed under `id` before is
    /// replaced; all other items stay as they are.
    pub fn register_item(&mut self, id: &str, url: &str, label: &str, kind: &str)
        ensures
            final(self)@ == old(self)@.insert(
                id@,
                (ItemView { id: id@, url: url@, label: label@, kind: kind@ }),
            ),
    {
        proof {
            use_type_invariant(&*self);
        }
        let item = Item::new(id, url, label, kind);
        let at = self.find(id);
        let ghost before = item_entries(self.items@);
        let mut items: Vec<Item> = Vec::new();
        std::mem::swap(&mut items, &mut self.items);
        match at {
            Some(i) => {
                proof {
                    lemma_update(before, i as int, item@);
                }
                items.set(i, item);
                assert(item_entries(items@) =~= before.update(i as int, (id@, item@)));
            },
            None => {
                proof {
                    lemma_push(before, id@, item@);
                }
                items.push(item);
                assert(item_entries(items@) =~= before.push((id@, item@)));
            },
        }
        self.items = items;
    }

    /// The item filed under `id`, if there is one.
    pub fn lookup(&self, id: &str) -> (found: Option<&Item>)
        ensures
            (match found {
                Some(item) => self@.contains_key(id@) && item@ == self@[id@] && item.id@ == id@,
                None => !self@.contains_key(id@),
            }),
    {
        proof {
            use_type_invariant(self);
        }
        match self.find(id) {
            Some(i) => {
                proof {
                    lemma_entry(item_entries(self.items@), i as int);
                }
                Some(&self.items[i])
            },
            None => None,
        }
    }

    /// The number of items in the registry.
    pub fn len(&self) -> (n: usize)
        ensures
            self@.dom().finite(),
            n == self@.dom().len(),
    {
        proof {
            use_type_invariant(self);
            lemma_len(item_entries(self.items@));
        }
        self.items.len()
    }
}

} // verus!
