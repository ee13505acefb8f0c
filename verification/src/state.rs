//! Which project each window shows.

use crate::assoc::{as_map, has_key, keys_distinct, lemma_as_map, lemma_push, lemma_set};
use crate::parser::same_string;
use vstd::prelude::*;

verus! {

/// The registry of windows: for each window's label the root of the project
/// that the window shows, or nothing for a blank window.
pub struct WindowRegistry {
    entries: Vec<(String, Option<String>)>,
}

/// The view of an optional string.
pub open spec fn optional_view(s: Option<String>) -> Option<Seq<char>> {
    match s {
        Some(text) => Some(text@),
        None => None,
    }
}

/// The view of an optional string slice.
pub open spec fn optional_str_view(s: Option<&str>) -> Option<Seq<char>> {
    match s {
        Some(text) => Some(text@),
        None => None,
    }
}

/// The views of the entries of a registry.
pub open spec fn entry_views(v: Seq<(String, Option<String>)>) -> Seq<
    (Seq<char>, Option<Seq<char>>),
> {
    Seq::new(v.len(), |i: int| (v[i].0@, optional_view(v[i].1)))
}

impl WindowRegistry {
    #[verifier::type_invariant]
    spec fn labels_are_distinct(self) -> bool {
        keys_distinct(entry_views(self.entries@))
    }

    /// The registry as a map from each window's label to its project.
    pub closed spec fn view(&self) -> Map<Seq<char>, Option<Seq<char>>> {
        as_map(entry_views(self.entries@))
    }

    /// A registry without windows.
    pub fn new() -> (r: Self)
        ensures
            r@ == Map::<Seq<char>, Option<Seq<char>>>::empty(),
    {
        let entries: Vec<(String, Option<String>)> = Vec::new();
        assert(entry_views(entries@) =~= Seq::empty());
        WindowRegistry { entries }
    }

    /// Records the project of a window; `None` makes the window blank. The
    /// value that the label had before, if any, is replaced.
    pub fn set_project_for_label(&mut self, label: &str, project_root: Option<&str>)
        ensures
            final(self)@ == old(self)@.insert(label@, optional_str_view(project_root)),
    {
        proof {
            use_type_invariant(&*self);
        }
        let key: String = label.to_owned();
        let value: Option<String> = match project_root {
            Some(root) => Some(root.to_owned()),
            None => None,
        };
        let ghost before = entry_views(self.entries@);
        let ghost entry = (label@, optional_str_view(project_root));
        let mut entries: Vec<(String, Option<String>)> = Vec::new();
        assert(entry_views(entries@) =~= Seq::empty());
        core::mem::swap(&mut self.entries, &mut entries);
        let mut i: usize = 0;
        while i < entries.len()
            invariant
                i <= entries.len(),
                before == entry_views(entries@),
                key@ == label@,
                forall|j: int| 0 <= j < i ==> before[j].0 != label@,
            ensures
                i <= entries.len(),
                before == entry_views(entries@),
                key@ == label@,
                forall|j: int| 0 <= j < i ==> before[j].0 != label@,
                i < entries.len() ==> before[i as int].0 == label@,
            decreases entries.len() - i,
        {
            assert(before[i as int].0 == entries@[i as int].0@);
            if same_string(&entries[i].0, &key) {
                break;
            }
            i += 1;
        }
        if i < entries.len() {
            entries.set(i, (key, value));
            proof {
                assert(entry_views(entries@) =~= before.update(
                    i as int,
                    (before[i as int].0, entry.1),
                ));
                lemma_set(before, i as int, entry.1);
            }
        } else {
            entries.push((key, value));
            proof {
                assert(entry_views(entries@) =~= before.push(entry));
                assert(!has_key(before, label@));
                lemma_push(before, entry.0, entry.1);
            }
        }
        self.entries = entries;
    }

    /// The label of a window that shows the given project, if there is one.
    pub fn get_label_for_project(&self, project_root: &str) -> (r: Option<String>)
        ensures
            match r {
                Some(label) => self@.contains_key(label@) && self@[label@] == Some(project_root@),
                None => forall|k: Seq<char>|
                    self@.contains_key(k) ==> self@[k] != Some(project_root@),
            },
    {
        proof {
            use_type_invariant(self);
        }
        let wanted: String = project_root.to_owned();
        let ghost es = entry_views(self.entries@);
        proof {
            lemma_as_map(es);
            assert(keys_distinct(es));
        }
        let mut i: usize = 0;
        while i < self.entries.len()
            invariant
                i <= self.entries.len(),
                es == entry_views(self.entries@),
                keys_distinct(es),
                wanted@ == project_root@,
                forall|j: int| 0 <= j < i ==> es[j].1 != Some(project_root@),
            decreases self.entries.len() - i,
        {
            assert(es[i as int] == (self.entries@[i as int].0@, optional_view(
                self.entries@[i as int].1,
            )));
            let hit = match &self.entries[i].1 {
                Some(root) => same_string(root, &wanted),
                None => false,
            };
            if hit {
                proof {
                    lemma_as_map(es);
                    assert(has_key(es, es[i as int].0));
                    assert(as_map(es)[es[i as int].0] == es[i as int].1);
                }
                return Some(self.entries[i].0.clone());
            }
            i += 1;
        }
        assert forall|k: Seq<char>| self@.contains_key(k) implies self@[k] != Some(
            project_root@,
        ) by {
            lemma_as_map(es);
            assert(has_key(es, k));
            let j = choose|j: int| 0 <= j < es.len() && #[trigger] es[j].0 == k;
            assert(as_map(es)[es[j].0] == es[j].1);
        }
        None
    }

    /// The label of a blank window, if there is one.
    pub fn first_blank_window_label(&self) -> (r: Option<String>)
        ensures
            match r {
                Some(label) => self@.contains_key(label@) && self@[label@] is None,
                None => forall|k: Seq<char>| self@.contains_key(k) ==> self@[k] is Some,
            },
    {
        proof {
            use_type_invariant(self);
        }
        let ghost es = entry_views(self.entries@);
        proof {
            lemma_as_map(es);
            assert(keys_distinct(es));
        }
        let mut i: usize = 0;
        while i < self.entries.len()
            invariant
                i <= self.entries.len(),
                es == entry_views(self.entries@),
                keys_distinct(es),
                forall|j: int| 0 <= j < i ==> es[j].1 is Some,
            decreases self.entries.len() - i,
        {
            assert(es[i as int] == (self.entries@[i as int].0@, optional_view(
                self.entries@[i as int].1,
            )));
            if self.entries[i].1.is_none() {
                proof {
                    lemma_as_map(es);
                    assert(has_key(es, es[i as int].0));
                    assert(as_map(es)[es[i as int].0] == es[i as int].1);
                }
                return Some(self.entries[i].0.clone());
            }
            i += 1;
        }
        assert forall|k: Seq<char>| self@.contains_key(k) implies self@[k] is Some by {
            lemma_as_map(es);
            assert(has_key(es, k));
            let j = choose|j: int| 0 <= j < es.len() && #[trigger] es[j].0 == k;
            assert(as_map(es)[es[j].0] == es[j].1);
        }
        None
    }
}

impl Default for WindowRegistry {
    fn default() -> (r: Self)
        ensures
            r@ == Map::<Seq<char>, Option<Seq<char>>>::empty(),
    {
        WindowRegistry::new()
    }
}

} // verus!
