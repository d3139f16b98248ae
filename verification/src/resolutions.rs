//! The resolutions in which a video is offered.

use crate::text::{compare_text, lemma_text_lt_irreflexive, lemma_text_lt_transitive, text_lt, TextOrder};
use vstd::prelude::*;

verus! {

/// One offer: the label of a resolution and the playlist file that serves it.
#[derive(Debug)]
pub struct Resolution {
    pub label: String,
    pub file_name: String,
}

impl View for Resolution {
    type V = (Seq<char>, Seq<char>);

    open spec fn view(&self) -> (Seq<char>, Seq<char>) {
        (self.label@, self.file_name@)
    }
}

/// The views of a sequence of offers.
pub open spec fn offers(entries: Seq<Resolution>) -> Seq<(Seq<char>, Seq<char>)> {
    Seq::new(entries.len(), |i: int| entries[i]@)
}

/// The labels of `s` stand in strictly ascending order.
pub open spec fn ascending(s: Seq<(Seq<char>, Seq<char>)>) -> bool {
    forall|i: int, j: int| 0 <= i < j < s.len() ==> text_lt(#[trigger] s[i].0, #[trigger] s[j].0)
}

/// Some offer of `s` has the label `label`.
pub open spec fn has_label(s: Seq<(Seq<char>, Seq<char>)>, label: Seq<char>) -> bool {
    exists|i: int| 0 <= i < s.len() && (#[trigger] s[i]).0 == label
}

/// The place of an offer of `s` with the label `label`.
pub open spec fn place_of(s: Seq<(Seq<char>, Seq<char>)>, label: Seq<char>) -> int {
    choose|i: int| 0 <= i < s.len() && (#[trigger] s[i]).0 == label
}

/// The mapping from label to file name that a sequence of offers stands for.
pub open spec fn offers_map(s: Seq<(Seq<char>, Seq<char>)>) -> Map<Seq<char>, Seq<char>> {
    Map::new(|label: Seq<char>| has_label(s, label), |label: Seq<char>| s[place_of(s, label)].1)
}

/// In an ascending sequence a label stands at one place only.
pub proof fn lemma_place_is_unique(s: Seq<(Seq<char>, Seq<char>)>, i: int)
    requires
        ascending(s),
        0 <= i < s.len(),
    ensures
        has_label(s, s[i].0),
        place_of(s, s[i].0) == i,
{
    let p = place_of(s, s[i].0);
    if p < i {
        assert(text_lt(s[p].0, s[i].0));
        lemma_text_lt_irreflexive(s[i].0);
    } else if i < p {
        assert(text_lt(s[i].0, s[p].0));
        lemma_text_lt_irreflexive(s[i].0);
    }
}

/// Putting a new label at a place that keeps the order adds it to the mapping.
proof fn lemma_map_after_insert(s: Seq<(Seq<char>, Seq<char>)>, p: int, e: (Seq<char>, Seq<char>))
    requires
        ascending(s),
        0 <= p <= s.len(),
        ascending(s.insert(p, e)),
    ensures
        offers_map(s.insert(p, e)) == offers_map(s).insert(e.0, e.1),
{
    let t = s.insert(p, e);
    assert forall|label: Seq<char>| has_label(t, label) <==> (label == e.0 || has_label(s, label)) by {
        if has_label(t, label) {
            let i = place_of(t, label);
            if i < p {
                assert(s[i].0 == label);
            } else if i > p {
                assert(s[i - 1].0 == label);
            }
        }
        if label == e.0 {
            assert(t[p].0 == label);
        }
        if has_label(s, label) {
            let i = place_of(s, label);
            if i < p {
                assert(t[i].0 == label);
            } else {
                assert(t[i + 1].0 == label);
            }
        }
    }
    assert forall|label: Seq<char>| has_label(t, label) implies t[place_of(t, label)].1 == (if label
        == e.0 {
        e.1
    } else {
        s[place_of(s, label)].1
    }) by {
        let i = place_of(t, label);
        lemma_place_is_unique(t, i);
        if label == e.0 {
            lemma_place_is_unique(t, p);
        } else {
            let k = place_of(s, label);
            lemma_place_is_unique(s, k);
            if k < p {
                lemma_place_is_unique(t, k);
            } else {
                lemma_place_is_unique(t, k + 1);
            }
        }
    }
    assert(offers_map(t) =~= offers_map(s).insert(e.0, e.1));
}

/// Replacing the file of a label that is present replaces it in the mapping.
proof fn lemma_map_after_update(s: Seq<(Seq<char>, Seq<char>)>, p: int, e: (Seq<char>, Seq<char>))
    requires
        ascending(s),
        0 <= p < s.len(),
        s[p].0 == e.0,
    ensures
        ascending(s.update(p, e)),
        offers_map(s.update(p, e)) == offers_map(s).insert(e.0, e.1),
{
    let t = s.update(p, e);
    assert forall|i: int, j: int| 0 <= i < j < t.len() implies text_lt(
        #[trigger] t[i].0,
        #[trigger] t[j].0,
    ) by {
        assert(text_lt(s[i].0, s[j].0));
    }
    assert forall|label: Seq<char>| has_label(t, label) <==> (label == e.0 || has_label(s, label)) by {
        if has_label(t, label) {
            let i = place_of(t, label);
            assert(s[i].0 == label);
        }
        if label == e.0 {
            assert(t[p].0 == label);
        }
        if has_label(s, label) {
            let i = place_of(s, label);
            assert(t[i].0 == label);
        }
    }
    assert forall|label: Seq<char>| has_label(t, label) implies t[place_of(t, label)].1 == (if label
        == e.0 {
        e.1
    } else {
        s[place_of(s, label)].1
    }) by {
        let i = place_of(t, label);
        lemma_place_is_unique(t, i);
        if label == e.0 {
            lemma_place_is_unique(t, p);
        } else {
            let k = place_of(s, label);
            lemma_place_is_unique(s, k);
            lemma_place_is_unique(t, k);
        }
    }
    assert(offers_map(t) =~= offers_map(s).insert(e.0, e.1));
}

/// A mapping from resolution label to playlist file name, kept in ascending
/// order of the labels.
#[derive(Debug)]
pub struct Resolutions {
    entries: Vec<Resolution>,
}

impl View for Resolutions {
    type V = Map<Seq<char>, Seq<char>>;

    closed spec fn view(&self) -> Map<Seq<char>, Seq<char>> {
        offers_map(offers(self.entries@))
    }
}

impl Resolutions {
    #[verifier::type_invariant]
    spec fn well_formed(&self) -> bool {
        ascending(offers(self.entries@))
    }

    /// The mapping without any label.
    pub fn new() -> (r: Self)
        ensures
            r@ == Map::<Seq<char>, Seq<char>>::empty(),
    {
        let r = Resolutions { entries: Vec::new() };
        assert(r@ =~= Map::<Seq<char>, Seq<char>>::empty());
        r
    }

    /// The number of labels.
    pub fn len(&self) -> (r: usize)
        ensures
            r == self@.len(),
    {
        proof {
            use_type_invariant(self);
            self.lemma_entries_are_the_mapping();
        }
        self.entries.len()
    }

    /// Gives `label` the file `file_name`, in place of any file it had.
    #[verifier::loop_isolation(false)]
    pub fn insert(&mut self, label: String, file_name: String)
        ensures
            final(self)@ == old(self)@.insert(label@, file_name@),
    {
        proof {
            use_type_invariant(&*self);
        }
        let mut entries: Vec<Resolution> = Vec::new();
        std::mem::swap(&mut entries, &mut self.entries);
        let ghost before = offers(entries@);
        let ghost e = (label@, file_name@);
        let mut p: usize = 0;
        while p < entries.len()
            invariant
                p <= entries.len(),
                offers(entries@) == before,
                forall|j: int| 0 <= j < p ==> text_lt(#[trigger] before[j].0, label@),
            decreases entries.len() - p,
        {
            match compare_text(entries[p].label.as_str(), label.as_str()) {
                TextOrder::Before => {
                    assert(before[p as int].0 == entries@[p as int].label@);
                    p += 1;
                },
                TextOrder::Same => {
                    assert(before[p as int].0 == entries@[p as int].label@);
                    entries.set(p, Resolution { label, file_name });
                    proof {
                        lemma_map_after_update(before, p as int, e);
                        assert(offers(entries@) =~= before.update(p as int, e));
                    }
                    self.entries = entries;
                    return;
                },
                TextOrder::After => {
                    assert(before[p as int].0 == entries@[p as int].label@);
                    break;
                },
            }
        }
        entries.insert(p, Resolution { label, file_name });
        proof {
            let after = before.insert(p as int, e);
            assert(offers(entries@) =~= after);
            assert forall|i: int, j: int| 0 <= i < j < after.len() implies text_lt(
                #[trigger] after[i].0,
                #[trigger] after[j].0,
            ) by {
                if j < p {
                    assert(text_lt(before[i].0, before[j].0));
                } else if j == p {
                    assert(text_lt(before[i].0, e.0));
                } else if i == p {
                    if j - 1 > p {
                        assert(text_lt(before[p as int].0, before[j - 1].0));
                        lemma_text_lt_transitive(e.0, before[p as int].0, before[j - 1].0);
                    }
                } else if i < p {
                    assert(text_lt(before[i].0, e.0));
                    if j - 1 > p {
                        assert(text_lt(before[p as int].0, before[j - 1].0));
                        lemma_text_lt_transitive(e.0, before[p as int].0, before[j - 1].0);
                    }
                    lemma_text_lt_transitive(before[i].0, e.0, before[j - 1].0);
                } else {
                    assert(text_lt(before[i - 1].0, before[j - 1].0));
                }
            }
            lemma_map_after_insert(before, p as int, e);
        }
        self.entries = entries;
    }

    /// The file of `label`, if it has one.
    #[verifier::loop_isolation(false)]
    pub fn get(&self, label: &str) -> (r: Option<&String>)
        ensures
            match r {
                Some(file_name) => self@.contains_key(label@) && self@[label@] == file_name@,
                None => !self@.contains_key(label@),
            },
    {
        proof {
            use_type_invariant(self);
        }
        let ghost s = offers(self.entries@);
        let mut i: usize = 0;
        while i < self.entries.len()
            invariant
                i <= self.entries.len(),
                forall|j: int| 0 <= j < i ==> (#[trigger] s[j]).0 != label@,
            decreases self.entries.len() - i,
        {
            match compare_text(self.entries[i].label.as_str(), label) {
                TextOrder::Same => {
                    proof {
                        lemma_place_is_unique(s, i as int);
                    }
                    return Some(&self.entries[i].file_name);
                },
                _ => {
                    proof {
                        lemma_text_lt_irreflexive(label@);
                    }
                },
            }
            i += 1;
        }
        None
    }

    /// The offers in ascending order of their labels: each label of the
    /// mapping once, with its file.
    pub fn entries(&self) -> (r: &Vec<Resolution>)
        ensures
            ascending(offers(r@)),
            offers_map(offers(r@)) == self@,
            r@.len() == self@.len(),
    {
        proof {
            use_type_invariant(self);
            self.lemma_entries_are_the_mapping();
        }
        &self.entries
    }

    /// The place, among the entries, of the offer that a prompt selects at
    /// first: the last one, whose label is the greatest. `None` if there is no
    /// offer at all.
    pub fn default_choice(&self) -> (r: Option<usize>)
        ensures
            match r {
                Some(place) => place + 1 == self@.len(),
                None => self@.len() == 0,
            },
    {
        proof {
            use_type_invariant(self);
            self.lemma_entries_are_the_mapping();
        }
        if self.entries.len() == 0 {
            None
        } else {
            Some(self.entries.len() - 1)
        }
    }

    /// The mapping has as many labels as there are entries.
    proof fn lemma_entries_are_the_mapping(&self)
        requires
            ascending(offers(self.entries@)),
        ensures
            self@.dom().finite(),
            self@.len() == self.entries@.len(),
    {
        lemma_offers_count(offers(self.entries@));
    }
}

/// An ascending sequence of offers stands for a mapping with as many labels.
pub proof fn lemma_offers_count(s: Seq<(Seq<char>, Seq<char>)>)
    requires
        ascending(s),
    ensures
        offers_map(s).dom().finite(),
        offers_map(s).len() == s.len(),
    decreases s.len(),
{
    if s.len() == 0 {
        assert(offers_map(s).dom() =~= Set::<Seq<char>>::empty());
    } else {
        let t = s.drop_last();
        let e = s.last();
        assert(ascending(t)) by {
            assert forall|i: int, j: int| 0 <= i < j < t.len() implies text_lt(
                #[trigger] t[i].0,
                #[trigger] t[j].0,
            ) by {
                assert(text_lt(s[i].0, s[j].0));
            }
        }
        lemma_offers_count(t);
        assert(t.insert(t.len() as int, e) =~= s);
        lemma_map_after_insert(t, t.len() as int, e);
        assert(!has_label(t, e.0)) by {
            if has_label(t, e.0) {
                let i = place_of(t, e.0);
                assert(text_lt(s[i].0, s[s.len() - 1].0));
                lemma_text_lt_irreflexive(e.0);
            }
        }
        assert(offers_map(s).dom() =~= offers_map(t).dom().insert(e.0));
    }
}

} // verus!
