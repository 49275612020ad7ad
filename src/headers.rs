//! An ordered list of HTTP header fields whose names are unique up to ASCII case.

use vstd::prelude::*;
use crate::text::{fold_char, names_match, same_name};

verus! {

/// A header list as a sequence of (name, value) pairs in insertion order.
pub type HeadersView = Seq<(Seq<char>, Seq<char>)>;

/// No two fields share a name.
pub open spec fn names_unique(h: HeadersView) -> bool {
    forall|i: int, j: int|
        0 <= i < h.len() && 0 <= j < h.len() && i != j ==> !same_name(#[trigger] h[i].0, #[trigger] h[j].0)
}

pub open spec fn has_name(h: HeadersView, k: Seq<char>) -> bool {
    exists|i: int| 0 <= i < h.len() && same_name(#[trigger] h[i].0, k)
}

/// The position of the field named `k`, when there is one.
pub open spec fn name_pos(h: HeadersView, k: Seq<char>) -> int {
    choose|i: int| 0 <= i < h.len() && same_name(#[trigger] h[i].0, k)
}

/// The list after setting `k` to `v`: a field already named `k` keeps its place
/// and its name and takes the new value; otherwise the field goes at the end.
pub open spec fn with_header(h: HeadersView, k: Seq<char>, v: Seq<char>) -> HeadersView {
    if has_name(h, k) {
        h.update(name_pos(h, k), (h[name_pos(h, k)].0, v))
    } else {
        h.push((k, v))
    }
}

/// The value of the field named `k`.
pub open spec fn header_value(h: HeadersView, k: Seq<char>) -> Option<Seq<char>> {
    if has_name(h, k) {
        Some(h[name_pos(h, k)].1)
    } else {
        None
    }
}

pub proof fn lemma_same_name_equiv(a: Seq<char>, b: Seq<char>, c: Seq<char>)
    ensures
        same_name(a, a),
        same_name(a, b) ==> same_name(b, a),
        same_name(a, b) && same_name(b, c) ==> same_name(a, c),
{
    if same_name(a, b) && same_name(b, c) {
        assert forall|i: int| 0 <= i < a.len() implies fold_char(#[trigger] a[i]) == fold_char(c[i]) by {
            assert(fold_char(a[i]) == fold_char(b[i]));
            assert(fold_char(b[i]) == fold_char(c[i]));
        }
    }
    if same_name(a, b) {
        assert forall|i: int| 0 <= i < b.len() implies fold_char(#[trigger] b[i]) == fold_char(a[i]) by {
            assert(fold_char(a[i]) == fold_char(b[i]));
        }
    }
}

/// In a list with unique names, the field named `k` is the one at `i`.
pub proof fn lemma_name_pos_unique(h: HeadersView, k: Seq<char>, i: int)
    requires
        names_unique(h),
        0 <= i < h.len(),
        same_name(h[i].0, k),
    ensures
        has_name(h, k),
        name_pos(h, k) == i,
{
    assert(has_name(h, k));
    let j = name_pos(h, k);
    if j != i {
        lemma_same_name_equiv(h[j].0, k, h[i].0);
        lemma_same_name_equiv(h[i].0, k, h[j].0);
        assert(!same_name(h[i].0, h[j].0));
    }
}

/// Setting a field keeps the names unique.
pub proof fn lemma_with_header_unique(h: HeadersView, k: Seq<char>, v: Seq<char>)
    requires
        names_unique(h),
    ensures
        names_unique(with_header(h, k, v)),
{
    let r = with_header(h, k, v);
    if !has_name(h, k) {
        assert forall|i: int, j: int|
            0 <= i < r.len() && 0 <= j < r.len() && i != j implies !same_name(#[trigger] r[i].0, #[trigger] r[j].0) by {
            if i == h.len() {
                lemma_same_name_equiv(r[j].0, k, k);
            } else if j == h.len() {
                assert(!same_name(h[i].0, k));
            }
        }
    }
}

pub struct HeaderList {
    entries: Vec<(String, String)>,
}

impl View for HeaderList {
    type V = HeadersView;

    closed spec fn view(&self) -> HeadersView {
        self.entries@.map_values(|e: (String, String)| (e.0@, e.1@))
    }
}

impl HeaderList {
    pub open spec fn wf(&self) -> bool {
        names_unique(self@)
    }

    pub fn new() -> (r: HeaderList)
        ensures
            r@ == Seq::<(Seq<char>, Seq<char>)>::empty(),
            r.wf(),
    {
        HeaderList { entries: Vec::new() }
    }

    pub fn len(&self) -> (r: usize)
        ensures
            r == self@.len(),
    {
        self.entries.len()
    }

    /// The field at position `i`.
    pub fn entry(&self, i: usize) -> (r: (&String, &String))
        requires
            i < self@.len(),
        ensures
            r.0@ == self@[i as int].0,
            r.1@ == self@[i as int].1,
    {
        let e = &self.entries[i];
        (&e.0, &e.1)
    }

    /// The position of the field named `name`.
    pub fn position(&self, name: &str) -> (r: Option<usize>)
        requires
            self.wf(),
        ensures
            r is Some <==> has_name(self@, name@),
            r is Some ==> r->0 == name_pos(self@, name@),
    {
        let mut i: usize = 0;
        while i < self.entries.len()
            invariant
                i <= self@.len(),
                self.wf(),
                forall|j: int| 0 <= j < i ==> !same_name(#[trigger] self@[j].0, name@),
            decreases self@.len() - i,
        {
            if names_match(self.entries[i].0.as_str(), name) {
                proof {
                    lemma_name_pos_unique(self@, name@, i as int);
                }
                return Some(i);
            }
            i = i + 1;
        }
        None
    }

    /// The value of the field named `name`, up to ASCII case.
    pub fn get(&self, name: &str) -> (r: Option<&String>)
        requires
            self.wf(),
        ensures
            r is Some <==> header_value(self@, name@) is Some,
            r is Some ==> r->0@ == header_value(self@, name@)->0,
    {
        match self.position(name) {
            Some(i) => Some(&self.entries[i].1),
            None => None,
        }
    }

    /// Sets `name` to `value`, in place when a field of that name is there.
    pub fn set(&mut self, name: String, value: String)
        requires
            old(self).wf(),
        ensures
            final(self).wf(),
            final(self)@ == with_header(old(self)@, name@, value@),
    {
        proof {
            lemma_with_header_unique(self@, name@, value@);
        }
        match self.position(name.as_str()) {
            Some(i) => {
                let key = self.entries[i].0.clone();
                self.entries[i] = (key, value);
            },
            None => {
                self.entries.push((name, value));
            },
        }
        proof {
            assert(self@ =~= with_header(old(self)@, name@, value@));
        }
    }
}

} // verus!
