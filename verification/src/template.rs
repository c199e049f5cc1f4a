//! Saved input values and the Handlebars templates that they fill.
use vstd::prelude::*;

use std::collections::BTreeMap;

use crate::text::{chars_eq, chars_of};

verus! {

/// The map that a list of key-value pairs denotes, later pairs taking
/// precedence.
pub open spec fn pairs_map(s: Seq<(Seq<char>, Seq<char>)>) -> Map<Seq<char>, Seq<char>>
    decreases s.len(),
{
    if s.len() == 0 {
        Map::empty()
    } else {
        pairs_map(s.drop_last()).insert(s.last().0, s.last().1)
    }
}

pub open spec fn entry_views(s: Seq<(String, String)>) -> Seq<(Seq<char>, Seq<char>)> {
    s.map_values(|e: (String, String)| (e.0@, e.1@))
}

pub open spec fn distinct_keys(s: Seq<(Seq<char>, Seq<char>)>) -> bool {
    forall|i: int, j: int| 0 <= i < j < s.len() ==> s[i].0 != s[j].0
}

proof fn lemma_pairs_map(s: Seq<(Seq<char>, Seq<char>)>)
    requires
        distinct_keys(s),
    ensures
        forall|k: Seq<char>|
            #[trigger] pairs_map(s).dom().contains(k) <==> exists|i: int|
                0 <= i < s.len() && s[i].0 == k,
        forall|i: int| 0 <= i < s.len() ==> #[trigger] pairs_map(s)[s[i].0] == s[i].1,
    decreases s.len(),
{
    if s.len() > 0 {
        let t = s.drop_last();
        lemma_pairs_map(t);
        let last = s[s.len() - 1];
        assert(pairs_map(s) == pairs_map(t).insert(last.0, last.1));
        assert forall|k: Seq<char>|
            #[trigger] pairs_map(s).dom().contains(k) <==> exists|i: int|
                0 <= i < s.len() && s[i].0 == k by {
            if k == last.0 {
                assert(s[s.len() - 1].0 == k);
            } else {
                if pairs_map(s).dom().contains(k) {
                    assert(pairs_map(t).dom().contains(k));
                    let i = choose|i: int| 0 <= i < t.len() && t[i].0 == k;
                    assert(s[i].0 == k);
                }
                if exists|i: int| 0 <= i < s.len() && s[i].0 == k {
                    let i = choose|i: int| 0 <= i < s.len() && s[i].0 == k;
                    assert(i < s.len() - 1);
                    assert(t[i].0 == k);
                    assert(pairs_map(t).dom().contains(k));
                }
            }
        }
        assert forall|i: int| 0 <= i < s.len() implies #[trigger] pairs_map(s)[s[i].0]
            == s[i].1 by {
            if i < s.len() - 1 {
                assert(t[i] == s[i]);
                assert(s[i].0 != last.0);
                assert(pairs_map(t)[t[i].0] == t[i].1);
            }
        }
    }
}

/// Input values saved so far, by input name.
pub struct Values {
    entries: Vec<(String, String)>,
}

impl View for Values {
    type V = Map<Seq<char>, Seq<char>>;

    closed spec fn view(&self) -> Map<Seq<char>, Seq<char>> {
        pairs_map(entry_views(self.entries@))
    }
}

impl Values {
    #[verifier::type_invariant]
    spec fn keys_distinct(self) -> bool {
        distinct_keys(entry_views(self.entries@))
    }

    /// No values.
    pub fn new() -> (res: Values)
        ensures
            res@ == Map::<Seq<char>, Seq<char>>::empty(),
    {
        Values { entries: Vec::new() }
    }

    /// The number of names that have a value.
    pub fn len(&self) -> (res: usize)
        ensures
            res == self@.dom().len(),
            self@.dom().finite(),
    {
        proof {
            use_type_invariant(self);
            lemma_pairs_map(entry_views(self.entries@));
            lemma_dom_len(entry_views(self.entries@));
        }
        self.entries.len()
    }

    fn position(&self, key: &str) -> (res: Option<usize>)
        ensures
            match res {
                Some(i) => i < self.entries@.len() && self.entries@[i as int].0@ == key@,
                None => forall|i: int|
                    0 <= i < self.entries@.len() ==> self.entries@[i].0@ != key@,
            },
    {
        let mut i: usize = 0;
        while i < self.entries.len()
            invariant
                i <= self.entries@.len(),
                forall|j: int| 0 <= j < i ==> self.entries@[j].0@ != key@,
            decreases self.entries@.len() - i,
        {
            if chars_eq(&chars_of(self.entries[i].0.as_str()), &chars_of(key)) {
                return Some(i);
            }
            i += 1;
        }
        None
    }

    /// The value saved for `key`, if any.
    pub fn get(&self, key: &str) -> (res: Option<&String>)
        ensures
            match res {
                Some(v) => self@.dom().contains(key@) && self@[key@] == v@,
                None => !self@.dom().contains(key@),
            },
    {
        proof {
            use_type_invariant(self);
            lemma_pairs_map(entry_views(self.entries@));
        }
        match self.position(key) {
            Some(i) => {
                assert(entry_views(self.entries@)[i as int].0 == key@);
                Some(&self.entries[i].1)
            },
            None => {
                assert forall|i: int| 0 <= i < entry_views(self.entries@).len() implies entry_views(
                    self.entries@,
                )[i].0 != key@ by {
                    assert(entry_views(self.entries@)[i].0 == self.entries@[i].0@);
                }
                None
            },
        }
    }

    /// Whether `key` has a value.
    pub fn contains_key(&self, key: &str) -> (res: bool)
        ensures
            res == self@.dom().contains(key@),
    {
        self.get(key).is_some()
    }

    /// Saves `value` for `key`, replacing any earlier value.
    pub fn insert(&mut self, key: String, value: String)
        ensures
            final(self)@ == old(self)@.insert(key@, value@),
    {
        proof {
            use_type_invariant(&*self);
        }
        let ghost old_entries = entry_views(self.entries@);
        let ghost kv = key@;
        let ghost vv = value@;
        match self.position(key.as_str()) {
            Some(i) => {
                let mut entries = Vec::new();
                std::mem::swap(&mut entries, &mut self.entries);
                entries.set(i, (key, value));
                let ghost new_entries = entry_views(entries@);
                proof {
                    assert(new_entries =~= old_entries.update(i as int, (kv, vv)));
                    assert(old_entries[i as int].0 == kv);
                    lemma_pairs_map(old_entries);
                    lemma_pairs_map(new_entries);
                    assert forall|k: Seq<char>|
                        #[trigger] pairs_map(new_entries).dom().contains(k) == pairs_map(
                            old_entries,
                        ).insert(kv, vv).dom().contains(k) by {
                        if exists|j: int| 0 <= j < old_entries.len() && old_entries[j].0 == k {
                            let j = choose|j: int|
                                0 <= j < old_entries.len() && old_entries[j].0 == k;
                            assert(new_entries[j].0 == k);
                        }
                        if exists|j: int| 0 <= j < new_entries.len() && new_entries[j].0 == k {
                            let j = choose|j: int|
                                0 <= j < new_entries.len() && new_entries[j].0 == k;
                            if j != i {
                                assert(old_entries[j].0 == k);
                            }
                        }
                    }
                    assert forall|k: Seq<char>|
                        #[trigger] pairs_map(new_entries).dom().contains(k) implies pairs_map(
                            new_entries,
                        )[k] == pairs_map(old_entries).insert(kv, vv)[k] by {
                        let j = choose|j: int|
                            0 <= j < new_entries.len() && new_entries[j].0 == k;
                        assert(pairs_map(new_entries)[new_entries[j].0] == new_entries[j].1);
                        if j != i {
                            assert(pairs_map(old_entries)[old_entries[j].0] == old_entries[j].1);
                        }
                    }
                    assert(pairs_map(new_entries) =~= pairs_map(old_entries).insert(kv, vv));
                }
                self.entries = entries;
            },
            None => {
                proof {
                    assert forall|j: int| 0 <= j < old_entries.len() implies old_entries[j].0
                        != kv by {
                        assert(old_entries[j].0 == self.entries@[j].0@);
                    }
                }
                let mut entries = Vec::new();
                std::mem::swap(&mut entries, &mut self.entries);
                entries.push((key, value));
                proof {
                    assert(entry_views(entries@) =~= old_entries.push((kv, vv)));
                    assert(entry_views(entries@).drop_last() =~= old_entries);
                }
                self.entries = entries;
            },
        }
    }

    /// The saved pairs, each name once.
    pub fn entries(&self) -> (res: &Vec<(String, String)>)
        ensures
            pairs_map(entry_views(res@)) == self@,
            distinct_keys(entry_views(res@)),
    {
        proof {
            use_type_invariant(self);
        }
        &self.entries
    }

    /// A copy of the values.
    pub fn duplicate(&self) -> (res: Values)
        ensures
            res@ == self@,
    {
        proof {
            use_type_invariant(self);
        }
        let mut entries: Vec<(String, String)> = Vec::new();
        let mut i: usize = 0;
        while i < self.entries.len()
            invariant
                i <= self.entries@.len(),
                entries@ == self.entries@.take(i as int),
            decreases self.entries@.len() - i,
        {
            let (k, v) = &self.entries[i];
            entries.push((k.clone(), v.clone()));
            i += 1;
            assert(entries@ =~= self.entries@.take(i as int));
        }
        assert(self.entries@.take(i as int) =~= self.entries@);
        Values { entries }
    }
}

proof fn lemma_dom_len(s: Seq<(Seq<char>, Seq<char>)>)
    requires
        distinct_keys(s),
    ensures
        pairs_map(s).dom().finite(),
        pairs_map(s).dom().len() == s.len(),
    decreases s.len(),
{
    if s.len() > 0 {
        let t = s.drop_last();
        assert(distinct_keys(t));
        lemma_dom_len(t);
        lemma_pairs_map(t);
        if pairs_map(t).dom().contains(s.last().0) {
            let i = choose|i: int| 0 <= i < t.len() && t[i].0 == s.last().0;
            assert(s[i].0 == s[s.len() - 1].0);
        }
    }
}

/// A character that may stand between `{{` and the `>` of a partial call:
/// whitespace, the `~` that trims it, or the `#` of a partial block.
pub open spec fn tag_filler(c: char) -> bool {
    c == ' ' || c == '\t' || c == '\n' || c == '\r' || c == '~' || c == '#'
}

/// At `p` a tag opens with `{{` and, past fillers only, reaches the `>` at
/// `q`: the opening of a partial call or partial block.
pub open spec fn partial_tag_at(s: Seq<char>, p: int, q: int) -> bool {
    &&& 0 <= p && p + 2 <= q < s.len()
    &&& s[p] == '{' && s[p + 1] == '{' && s[q] == '>'
    &&& forall|k: int| p + 2 <= k < q ==> tag_filler(#[trigger] s[k])
}

/// The template may call a partial: somewhere a tag opens as a partial
/// call does. A partial, inline ones included, can include itself without
/// end, so such templates are not rendered; text that only looks like such
/// a tag (inside a raw block, a comment or after an escape) counts too.
pub open spec fn calls_partial(s: Seq<char>) -> bool {
    exists|p: int, q: int| #[trigger] partial_tag_at(s, p, q)
}

fn is_tag_filler(c: char) -> (res: bool)
    ensures
        res == tag_filler(c),
{
    c == ' ' || c == '\t' || c == '\n' || c == '\r' || c == '~' || c == '#'
}

/// Whether `template` may call a partial.
pub fn template_calls_partial(template: &str) -> (res: bool)
    ensures
        res == calls_partial(template@),
{
    let s = chars_of(template);
    let mut q: usize = 0;
    while q < s.len()
        invariant
            q <= s@.len(),
            s@ == template@,
            forall|p: int, q2: int| 0 <= q2 < q ==> !#[trigger] partial_tag_at(s@, p, q2),
        decreases s@.len() - q,
    {
        if s[q] == '>' {
            let mut r: usize = q;
            while r > 0 && is_tag_filler(s[r - 1])
                invariant
                    r <= q,
                    q < s@.len(),
                    forall|k: int| r <= k < q ==> tag_filler(#[trigger] s@[k]),
                decreases r,
            {
                r -= 1;
            }
            if r >= 2 && s[r - 2] == '{' && s[r - 1] == '{' {
                assert(partial_tag_at(s@, r - 2, q as int));
                return true;
            }
            assert forall|p: int| !#[trigger] partial_tag_at(s@, p, q as int) by {
                if partial_tag_at(s@, p, q as int) {
                    if p + 2 < r {
                        assert(tag_filler(s@[r - 1]));
                    } else if p + 2 > r {
                        assert(tag_filler(s@[p + 1]));
                    }
                }
            }
        }
        q += 1;
    }
    false
}

/// What Handlebars renders for `template` in strict mode without HTML
/// escaping, with `inputs` available as `inputs.<name>`: the output, or the
/// text of the error.
pub uninterp spec fn handlebars_render(template: Seq<char>, inputs: Map<Seq<char>, Seq<char>>) -> Result<Seq<char>, Seq<char>>;

/// Renders `template` with Handlebars' `Registry::render_template` in
/// strict mode and without HTML escaping, the values given as
/// `inputs.<name>`.  The contract claims that the output, or the error's
/// text, is the named result for the template and the values.  A template
/// that may call a partial is left out: Handlebars guards only named
/// templates against including themselves, and an inline partial has no
/// name, so one that includes itself recurses until the stack is gone.
/// Left unsaid is the stack that parsing and rendering take for blocks
/// nested very deep, which depends on the machine.
#[verifier::external_body]
pub fn render(template: &str, values: &Values) -> (res: Result<String, String>)
    requires
        !calls_partial(template@),
    ensures
        match res {
            Ok(output) => handlebars_render(template@, values@) == Ok::<Seq<char>, Seq<char>>(output@),
            Err(error) => handlebars_render(template@, values@) == Err::<Seq<char>, Seq<char>>(error@),
        },
{
    let mut handlebars = handlebars::Handlebars::new();
    handlebars.set_strict_mode(true);
    handlebars.register_escape_fn(handlebars::no_escape);
    let inputs: BTreeMap<String, String> = values.entries.iter().cloned().collect();
    let context = BTreeMap::from([("inputs", inputs)]);
    match handlebars.render_template(template, &context) {
        Ok(output) => Ok(output),
        Err(error) => Err(error.to_string()),
    }
}

} // verus!
