//! The index of deadlines: pairs of an instant and a key, kept in ascending
//! order of instant, and of key where instants are equal, each pair once.

use crate::order::{
    lemma_text_lt_irreflexive, lemma_text_lt_total, lemma_text_lt_transitive, text_less, text_lt,
};
use crate::text::text_eq;
use vstd::prelude::*;

verus! {

/// Whether the deadline `a` comes before the deadline `b`: by instant, and
/// by key between equal instants.
pub open spec fn deadline_lt(a: (u128, Seq<char>), b: (u128, Seq<char>)) -> bool {
    a.0 < b.0 || (a.0 == b.0 && text_lt(a.1, b.1))
}

/// Whether `s` is in strictly ascending order.
pub open spec fn ordered(s: Seq<(u128, Seq<char>)>) -> bool {
    forall|i: int, j: int| 0 <= i < j < s.len() ==> deadline_lt(#[trigger] s[i], #[trigger] s[j])
}

/// The deadlines that `items` stand for.
pub open spec fn deadlines_view(items: Seq<(u128, String)>) -> Seq<(u128, Seq<char>)> {
    Seq::new(items.len(), |i: int| (items[i].0, items[i].1@))
}

/// No deadline comes before itself.
pub proof fn lemma_deadline_lt_irreflexive(a: (u128, Seq<char>))
    ensures
        !deadline_lt(a, a),
{
    lemma_text_lt_irreflexive(a.1);
}

/// The order of deadlines is transitive.
pub proof fn lemma_deadline_lt_transitive(
    a: (u128, Seq<char>),
    b: (u128, Seq<char>),
    c: (u128, Seq<char>),
)
    requires
        deadline_lt(a, b),
        deadline_lt(b, c),
    ensures
        deadline_lt(a, c),
{
    if a.0 == b.0 && b.0 == c.0 {
        lemma_text_lt_transitive(a.1, b.1, c.1);
    }
}

/// Of two different deadlines one comes before the other.
pub proof fn lemma_deadline_lt_total(a: (u128, Seq<char>), b: (u128, Seq<char>))
    requires
        a != b,
    ensures
        deadline_lt(a, b) || deadline_lt(b, a),
{
    if a.0 == b.0 {
        lemma_text_lt_total(a.1, b.1);
    }
}

/// In an ordered index the first deadline is the earliest, and no deadline
/// occurs twice.
pub proof fn lemma_ordered_first_is_earliest(s: Seq<(u128, Seq<char>)>)
    requires
        ordered(s),
    ensures
        forall|i: int| 0 <= i < s.len() ==> s[0].0 <= (#[trigger] s[i]).0,
        forall|i: int, j: int| 0 <= i < j < s.len() ==> #[trigger] s[i] != #[trigger] s[j],
{
    assert forall|i: int, j: int| 0 <= i < j < s.len() implies #[trigger] s[i]
        != #[trigger] s[j] by {
        lemma_deadline_lt_irreflexive(s[i]);
    }
}

/// Putting a deadline where the order wants it keeps the index ordered and
/// adds that deadline and no other.
pub proof fn lemma_insert_in_order(s: Seq<(u128, Seq<char>)>, at: int, x: (u128, Seq<char>))
    requires
        ordered(s),
        0 <= at <= s.len(),
        forall|j: int| 0 <= j < at ==> deadline_lt(#[trigger] s[j], x),
        at < s.len() ==> deadline_lt(x, s[at]),
    ensures
        ordered(s.insert(at, x)),
        forall|d: (u128, Seq<char>)| s.insert(at, x).contains(d) <==> (s.contains(d) || d == x),
{
    let t = s.insert(at, x);
    assert forall|j: int| at <= j < s.len() implies deadline_lt(x, #[trigger] s[j]) by {
        if j > at {
            lemma_deadline_lt_transitive(x, s[at], s[j]);
        }
    }
    assert forall|i: int, j: int| 0 <= i < j < t.len() implies deadline_lt(
        #[trigger] t[i],
        #[trigger] t[j],
    ) by {
        if j < at {
            assert(t[i] == s[i] && t[j] == s[j]);
        } else if j == at {
            assert(t[i] == s[i]);
        } else if i < at {
            assert(t[i] == s[i] && t[j] == s[j - 1]);
            if i == j - 1 {
            }
        } else if i == at {
            assert(t[j] == s[j - 1]);
        } else {
            assert(t[i] == s[i - 1] && t[j] == s[j - 1]);
        }
    }
    assert forall|d: (u128, Seq<char>)| t.contains(d) <==> (s.contains(d) || d == x) by {
        if t.contains(d) {
            let i = choose|i: int| 0 <= i < t.len() && t[i] == d;
            if i < at {
                assert(s[i] == d);
            } else if i > at {
                assert(s[i - 1] == d);
            }
        }
        if s.contains(d) {
            let i = choose|i: int| 0 <= i < s.len() && s[i] == d;
            if i < at {
                assert(t[i] == d);
            } else {
                assert(t[i + 1] == d);
            }
        }
        if d == x {
            assert(t[at] == d);
        }
    }
}

/// Taking a deadline out keeps the index ordered and removes that deadline
/// and no other.
pub proof fn lemma_remove_in_order(s: Seq<(u128, Seq<char>)>, at: int)
    requires
        ordered(s),
        0 <= at < s.len(),
    ensures
        ordered(s.remove(at)),
        forall|d: (u128, Seq<char>)| s.remove(at).contains(d) <==> (s.contains(d) && d != s[at]),
{
    let t = s.remove(at);
    lemma_ordered_first_is_earliest(s);
    assert forall|i: int, j: int| 0 <= i < j < t.len() implies deadline_lt(
        #[trigger] t[i],
        #[trigger] t[j],
    ) by {
        let a = if i < at { i } else { i + 1 };
        let b = if j < at { j } else { j + 1 };
        assert(t[i] == s[a] && t[j] == s[b]);
    }
    assert forall|d: (u128, Seq<char>)| t.contains(d) <==> (s.contains(d) && d != s[at]) by {
        if t.contains(d) {
            let i = choose|i: int| 0 <= i < t.len() && t[i] == d;
            let a = if i < at { i } else { i + 1 };
            assert(s[a] == d);
        }
        if s.contains(d) && d != s[at] {
            let i = choose|i: int| 0 <= i < s.len() && s[i] == d;
            if i < at {
                assert(t[i] == d);
            } else {
                assert(t[i - 1] == d);
            }
        }
    }
}

/// The index of deadlines.
pub struct Expirations {
    items: Vec<(u128, String)>,
}

impl View for Expirations {
    type V = Seq<(u128, Seq<char>)>;

    closed spec fn view(&self) -> Seq<(u128, Seq<char>)> {
        deadlines_view(self.items@)
    }
}

/// Whether the deadline `(a_when, a_key)` comes before `(b_when, b_key)`.
fn deadline_less(a_when: u128, a_key: &str, b_when: u128, b_key: &str) -> (r: bool)
    ensures
        r == deadline_lt((a_when, a_key@), (b_when, b_key@)),
{
    a_when < b_when || (a_when == b_when && text_less(a_key, b_key))
}

impl Expirations {
    /// Whether the index is in order, as every index that this module hands
    /// out is.
    pub open spec fn wf(&self) -> bool {
        ordered(self@)
    }

    /// An empty index.
    pub fn new() -> (r: Expirations)
        ensures
            r.wf(),
            r@.len() == 0,
    {
        Expirations { items: Vec::new() }
    }

    /// The earliest instant in the index, if it holds any.
    pub fn first(&self) -> (r: Option<u128>)
        ensures
            self@.len() == 0 ==> r is None,
            self@.len() > 0 ==> r == Some(self@[0].0),
    {
        if self.items.len() == 0 {
            None
        } else {
            Some(self.items[0].0)
        }
    }

    /// Takes the first deadline out of the index.
    pub fn remove_first(&mut self) -> (r: (u128, String))
        requires
            old(self).wf(),
            old(self)@.len() > 0,
        ensures
            final(self).wf(),
            (r.0, r.1@) == old(self)@[0],
            final(self)@ == old(self)@.remove(0),
    {
        let first = self.items.remove(0);
        proof {
            assert(self@ =~= old(self)@.remove(0));
            lemma_remove_in_order(old(self)@, 0);
        }
        first
    }

    /// Puts the deadline `(when, key)` into the index, unless it is there.
    pub fn insert(&mut self, when: u128, key: String)
        requires
            old(self).wf(),
        ensures
            final(self).wf(),
            forall|d: (u128, Seq<char>)|
                final(self)@.contains(d) <==> (old(self)@.contains(d) || d == (when, key@)),
    {
        let ghost x = (when, key@);
        let mut i: usize = 0;
        while i < self.items.len() && deadline_less(
            self.items[i].0,
            self.items[i].1.as_str(),
            when,
            key.as_str(),
        )
            invariant
                i <= self.items.len(),
                self.items@ == old(self).items@,
                x == (when, key@),
                forall|j: int| 0 <= j < i ==> deadline_lt(#[trigger] self@[j], x),
            decreases self.items.len() - i,
        {
            i += 1;
        }
        if i < self.items.len() && self.items[i].0 == when && text_eq(
            self.items[i].1.as_str(),
            key.as_str(),
        ) {
            assert(self@[i as int] == x);
            return;
        }
        proof {
            if i < self.items.len() {
                lemma_deadline_lt_total(self@[i as int], x);
            }
            lemma_insert_in_order(self@, i as int, x);
        }
        self.items.insert(i, (when, key));
        assert(self@ =~= old(self)@.insert(i as int, x));
        assert forall|d: (u128, Seq<char>)| self@.contains(d) <==> (old(self)@.contains(d) || d
            == x) by {
            assert(self@.contains(d) == old(self)@.insert(i as int, x).contains(d));
        }
    }

    /// Takes the deadline `(when, key)` out of the index, if it is there.
    pub fn remove(&mut self, when: u128, key: &str)
        requires
            old(self).wf(),
        ensures
            final(self).wf(),
            forall|d: (u128, Seq<char>)|
                final(self)@.contains(d) <==> (old(self)@.contains(d) && d != (when, key@)),
    {
        let ghost x = (when, key@);
        let mut i: usize = 0;
        while i < self.items.len() && !(self.items[i].0 == when && text_eq(
            self.items[i].1.as_str(),
            key,
        ))
            invariant
                i <= self.items.len(),
                self.items@ == old(self).items@,
                x == (when, key@),
                forall|j: int| 0 <= j < i ==> #[trigger] self@[j] != x,
            decreases self.items.len() - i,
        {
            i += 1;
        }
        if i < self.items.len() {
            proof {
                lemma_remove_in_order(self@, i as int);
            }
            let _ = self.items.remove(i);
            assert(self@ =~= old(self)@.remove(i as int));
        }
    }
}

} // verus!
