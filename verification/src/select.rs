//! A list of labelled items filtered by a prefix query, with one suggestion
//! selected.
use vstd::prelude::*;

use crate::text::{chars_eq, chars_of, is_prefix, starts_with, string_from_chars};

verus! {

/// A direction of movement through candidates, fields and sections.
#[derive(Clone, Copy, Debug, PartialEq, Eq, Structural)]
pub enum NavigationDirection {
    Previous,
    Next,
}

/// One choice: a key that identifies it across refreshes, the label shown
/// and matched, and the value chosen.
pub struct SelectItem<T> {
    pub key: String,
    pub label: String,
    pub value: T,
}

impl<T> SelectItem<T> {
    pub fn new(key: String, label: String, value: T) -> (res: SelectItem<T>)
        ensures
            res.key == key,
            res.label == label,
            res.value == value,
    {
        SelectItem { key, label, value }
    }
}

/// The positions of the first `n` items whose label starts with `query`.
pub open spec fn matching_upto<T>(items: Seq<SelectItem<T>>, query: Seq<char>, n: int) -> Seq<usize>
    decreases n,
{
    if n <= 0 {
        Seq::empty()
    } else {
        let rest = matching_upto(items, query, n - 1);
        if is_prefix(query, items[n - 1].label@) {
            rest.push((n - 1) as usize)
        } else {
            rest
        }
    }
}

/// The positions of the items whose label starts with `query`, in item
/// order.
pub open spec fn matching<T>(items: Seq<SelectItem<T>>, query: Seq<char>) -> Seq<usize> {
    matching_upto(items, query, items.len() as int)
}

/// The first position of an item with key `key`.
pub open spec fn key_position<T>(items: Seq<SelectItem<T>>, key: Seq<char>, from: int) -> Option<int>
    decreases items.len() - from,
{
    if from < 0 || from >= items.len() {
        None
    } else if items[from].key@ == key {
        Some(from)
    } else {
        key_position(items, key, from + 1)
    }
}

/// The first position at which `s` holds `x`.
pub open spec fn index_in(s: Seq<usize>, x: int, from: int) -> Option<int>
    decreases s.len() - from,
{
    if from < 0 || from >= s.len() {
        None
    } else if s[from] == x {
        Some(from)
    } else {
        index_in(s, x, from + 1)
    }
}

proof fn lemma_matching_bounds<T>(items: Seq<SelectItem<T>>, query: Seq<char>, n: int)
    requires
        0 <= n <= items.len(),
    ensures
        matching_upto(items, query, n).len() <= n,
        forall|k: int|
            0 <= k < matching_upto(items, query, n).len() ==> #[trigger] matching_upto(
                items,
                query,
                n,
            )[k] < n,
    decreases n,
{
    if n > 0 {
        lemma_matching_bounds(items, query, n - 1);
    }
}

/// A prefix-filtered selection.
pub struct Select<T> {
    items: Vec<SelectItem<T>>,
    query: Vec<char>,
    suggestions: Vec<usize>,
    selected: Option<usize>,
}

impl<T> Select<T> {
    #[verifier::type_invariant]
    spec fn consistent(self) -> bool {
        &&& self.suggestions@ == matching(self.items@, self.query@)
        &&& forall|k: int|
            0 <= k < self.suggestions@.len() ==> #[trigger] self.suggestions@[k]
                < self.items@.len()
        &&& match self.selected {
            Some(p) => p < self.suggestions@.len(),
            None => self.suggestions@.len() == 0,
        }
    }

    /// The items, in order.
    pub closed spec fn items(self) -> Seq<SelectItem<T>> {
        self.items@
    }

    /// The query text.
    pub closed spec fn query(self) -> Seq<char> {
        self.query@
    }

    /// The position, among the suggestions, of the selected one.
    pub closed spec fn selected_position(self) -> Option<usize> {
        self.selected
    }

    /// The suggestions: positions of items whose label starts with the
    /// query.
    pub open spec fn suggestions(self) -> Seq<usize> {
        matching(self.items(), self.query())
    }

    /// The selected item, if any.
    pub open spec fn selected_item(self) -> Option<SelectItem<T>> {
        match self.selected_position() {
            Some(p) => Some(self.items()[self.suggestions()[p as int] as int]),
            None => None,
        }
    }

    /// No items and an empty query.
    pub fn new() -> (res: Select<T>)
        ensures
            res.items() == Seq::<SelectItem<T>>::empty(),
            res.query() == Seq::<char>::empty(),
            res.selected_position() is None,
    {
        Select { items: Vec::new(), query: Vec::new(), suggestions: Vec::new(), selected: None }
    }

    fn update_result(items: &Vec<SelectItem<T>>, query: &Vec<char>) -> (res: (Vec<usize>, Option<usize>))
        ensures
            res.0@ == matching(items@, query@),
            forall|k: int| 0 <= k < res.0@.len() ==> #[trigger] res.0@[k] < items@.len(),
            res.1 == if res.0@.len() == 0 {
                None::<usize>
            } else {
                Some(0usize)
            },
    {
        let mut suggestions: Vec<usize> = Vec::new();
        let mut i: usize = 0;
        while i < items.len()
            invariant
                i <= items@.len(),
                suggestions@ == matching_upto(items@, query@, i as int),
            decreases items@.len() - i,
        {
            if starts_with(&chars_of(items[i].label.as_str()), query) {
                suggestions.push(i);
            }
            i += 1;
        }
        proof {
            lemma_matching_bounds(items@, query@, items@.len() as int);
        }
        let selected = if suggestions.len() == 0 {
            None
        } else {
            Some(0)
        };
        (suggestions, selected)
    }

    /// The position among the suggestions of the first item with key `key`.
    fn position_of_key(&self, key: &[char]) -> (res: Option<usize>)
        ensures
            res == match key_position(self.items(), key@, 0) {
                Some(i) => match index_in(self.suggestions(), i, 0) {
                    Some(p) => Some(p as usize),
                    None => None,
                },
                None => None::<usize>,
            },
            res matches Some(p) ==> p < self.suggestions().len(),
    {
        proof {
            use_type_invariant(self);
        }
        let mut i: usize = 0;
        while i < self.items.len()
            invariant
                i <= self.items@.len(),
                self.items@ == self.items(),
                self.suggestions@ == self.suggestions(),
                key_position(self.items@, key@, 0) == key_position(self.items@, key@, i as int),
            decreases self.items@.len() - i,
        {
            if chars_eq(&chars_of(self.items[i].key.as_str()), key) {
                assert(key_position(self.items@, key@, 0) == Some(i as int));
                let mut p: usize = 0;
                while p < self.suggestions.len()
                    invariant
                        self.items@ == self.items(),
                        self.suggestions@ == self.suggestions(),
                        key_position(self.items@, key@, 0) == Some(i as int),
                        p <= self.suggestions@.len(),
                        index_in(self.suggestions@, i as int, 0) == index_in(
                            self.suggestions@,
                            i as int,
                            p as int,
                        ),
                    decreases self.suggestions@.len() - p,
                {
                    if self.suggestions[p] == i {
                        return Some(p);
                    }
                    p += 1;
                }
                return None;
            }
            i += 1;
        }
        None
    }

    /// The selected item's key.
    pub fn selected_key(&self) -> (res: Option<&str>)
        ensures
            match self.selected_item() {
                Some(item) => res matches Some(k) && k@ == item.key@,
                None => res is None,
            },
    {
        proof {
            use_type_invariant(self);
        }
        match self.selected {
            Some(p) => Some(self.items[self.suggestions[p]].key.as_str()),
            None => None,
        }
    }

    /// The selected item's value.
    pub fn selected(&self) -> (res: Option<&T>)
        ensures
            match self.selected_item() {
                Some(item) => res matches Some(v) && *v == item.value,
                None => res is None,
            },
    {
        proof {
            use_type_invariant(self);
        }
        match self.selected {
            Some(p) => Some(&self.items[self.suggestions[p]].value),
            None => None,
        }
    }

    /// The selected item's label.
    pub fn selected_label(&self) -> (res: Option<String>)
        ensures
            match self.selected_item() {
                Some(item) => res matches Some(l) && l@ == item.label@,
                None => res is None,
            },
    {
        proof {
            use_type_invariant(self);
        }
        match self.selected {
            Some(p) => Some(self.items[self.suggestions[p]].label.clone()),
            None => None,
        }
    }

    /// Replaces the items, keeping the query, and keeps the selection on
    /// the item with the same key where that item is still suggested;
    /// otherwise the first suggestion is selected.
    pub fn replace_items(&mut self, items: Vec<SelectItem<T>>)
        ensures
            final(self).items() == items@,
            final(self).query() == old(self).query(),
            final(self).selected_position() == (match old(self).selected_item() {
                Some(item) => match key_position(items@, item.key@, 0) {
                    Some(i) => match index_in(matching(items@, old(self).query()), i, 0) {
                        Some(p) => Some(p as usize),
                        None => first_suggestion(items@, old(self).query()),
                    },
                    None => first_suggestion(items@, old(self).query()),
                },
                None => first_suggestion(items@, old(self).query()),
            }),
    {
        let previous_key: Option<Vec<char>> = match self.selected_key() {
            Some(k) => Some(chars_of(k)),
            None => None,
        };
        let (suggestions, selected) = Self::update_result(&items, &self.query);
        let query = copy_chars(&self.query);
        *self = Select { items, query, suggestions, selected };
        if let Some(key) = previous_key {
            if let Some(p) = self.position_of_key(&key) {
                self.set_selected(p);
            }
        }
    }

    fn set_selected(&mut self, p: usize)
        requires
            p < old(self).suggestions().len(),
        ensures
            final(self).items() == old(self).items(),
            final(self).query() == old(self).query(),
            final(self).selected_position() == Some(p),
    {
        proof {
            use_type_invariant(&*self);
        }
        self.selected = Some(p);
    }

    /// The query typed.
    pub fn query_text(&self) -> (res: &Vec<char>)
        ensures
            res@ == self.query(),
    {
        &self.query
    }

    /// Replaces the query; the first suggestion is then selected.
    pub fn set_query(&mut self, query: &[char])
        ensures
            final(self).items() == old(self).items(),
            final(self).query() == query@,
            final(self).selected_position() == first_suggestion(old(self).items(), query@),
    {
        let q = copy_chars(query);
        let mut previous: Select<T> = Select::new();
        std::mem::swap(self, &mut previous);
        let Select { items, query: _, suggestions: _, selected: _ } = previous;
        let (suggestions, selected) = Self::update_result(&items, &q);
        *self = Select { items, query: q, suggestions, selected };
    }

    /// Moves the selection one suggestion back or forward, where there is
    /// one; says whether it moved.
    pub fn navigate(&mut self, direction: NavigationDirection) -> (moved: bool)
        ensures
            select_navigated(*old(self), *final(self), direction),
            moved == (final(self).selected_position() != old(self).selected_position()),
    {
        proof {
            use_type_invariant(&*self);
        }
        match (direction, self.selected) {
            (NavigationDirection::Previous, Some(p)) => {
                if p > 0 {
                    self.selected = Some(p - 1);
                    return true;
                }
                false
            },
            (NavigationDirection::Next, Some(p)) => {
                let n = self.suggestions.len();
                if p + 1 < n {
                    self.selected = Some(p + 1);
                    return true;
                }
                false
            },
            _ => false,
        }
    }

    /// Selects the suggestion shown at `row`, where there is one.
    pub fn select_at(&mut self, row: usize) -> (res: bool)
        ensures
            final(self).items() == old(self).items(),
            final(self).query() == old(self).query(),
            res == (row < old(self).suggestions().len()),
            final(self).selected_position() == if res {
                Some(row)
            } else {
                old(self).selected_position()
            },
    {
        proof {
            use_type_invariant(&*self);
        }
        if row >= self.suggestions.len() {
            return false;
        }
        self.selected = Some(row);
        true
    }

    /// The labels of the suggestions, in order, and the row of the
    /// selected one.
    pub fn suggestion_labels(&self) -> (res: (Vec<String>, Option<usize>))
        ensures
            res.0@.len() == self.suggestions().len(),
            forall|k: int|
                0 <= k < res.0@.len() ==> #[trigger] res.0@[k]@ == self.items()[self.suggestions()[k] as int].label@,
            res.1 == self.selected_position(),
    {
        proof {
            use_type_invariant(self);
        }
        let mut labels: Vec<String> = Vec::new();
        let mut k: usize = 0;
        while k < self.suggestions.len()
            invariant
                k <= self.suggestions@.len(),
                labels@.len() == k,
                forall|j: int| 0 <= j < k ==> #[trigger] labels@[j]@ == self.items@[self.suggestions@[j] as int].label@,
                forall|j: int|
                    0 <= j < self.suggestions@.len() ==> #[trigger] self.suggestions@[j]
                        < self.items@.len(),
            decreases self.suggestions@.len() - k,
        {
            let label = &self.items[self.suggestions[k]].label;
            labels.push(string_from_chars(&chars_of(label.as_str())));
            k += 1;
        }
        (labels, self.selected)
    }

    /// The query typed where it matches no item and is not empty.
    pub fn custom_query(&self) -> (res: Option<String>)
        ensures
            match res {
                Some(q) => self.suggestions().len() == 0 && self.query().len() > 0 && q@
                    == self.query(),
                None => self.suggestions().len() > 0 || self.query().len() == 0,
            },
    {
        proof {
            use_type_invariant(self);
        }
        if self.suggestions.len() > 0 {
            return None;
        }
        if self.query.len() == 0 {
            return None;
        }
        Some(string_from_chars(&self.query))
    }
}

/// `after` is `before` with the selection moved one suggestion in
/// `direction`, where there is one.
pub open spec fn select_navigated<T>(before: Select<T>, after: Select<T>, direction: NavigationDirection) -> bool {
    &&& after.items() == before.items()
    &&& after.query() == before.query()
    &&& after.selected_position() == (match (direction, before.selected_position()) {
        (NavigationDirection::Previous, Some(p)) if p > 0 => Some((p - 1) as usize),
        (NavigationDirection::Next, Some(p)) if p + 1 < before.suggestions().len() => Some(
            (p + 1) as usize,
        ),
        _ => before.selected_position(),
    })
}

/// The selection after the suggestions are recomputed: the first one, if
/// any.
pub open spec fn first_suggestion<T>(items: Seq<SelectItem<T>>, query: Seq<char>) -> Option<usize> {
    if matching(items, query).len() == 0 {
        None
    } else {
        Some(0usize)
    }
}

fn copy_chars(v: &[char]) -> (res: Vec<char>)
    ensures
        res@ == v@,
{
    let mut res: Vec<char> = Vec::new();
    let mut i: usize = 0;
    while i < v.len()
        invariant
            i <= v@.len(),
            res@ == v@.take(i as int),
        decreases v@.len() - i,
    {
        res.push(v[i]);
        i += 1;
        assert(res@ =~= v@.take(i as int));
    }
    assert(v@.take(i as int) =~= v@);
    res
}

impl Select<String> {
    /// The value that saving would keep: the selected item's value, or the
    /// query where nothing matches it.
    pub fn value(&self) -> (res: Option<String>)
        ensures
            match self.selected_item() {
                Some(item) => res matches Some(v) && v@ == item.value@,
                None => match res {
                    Some(q) => self.suggestions().len() == 0 && self.query().len() > 0 && q@
                        == self.query(),
                    None => self.suggestions().len() > 0 || self.query().len() == 0,
                },
            },
    {
        match self.selected() {
            Some(v) => Some(v.clone()),
            None => self.custom_query(),
        }
    }
}

} // verus!
