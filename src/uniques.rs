//! The uniqueness collector: the distinct categories and senders of a run,
//! kept in lexicographic order.
use vstd::prelude::*;

use crate::text::{display_vec, joined, lex_lt, lemma_lex_irreflexive, lemma_lex_total,
    lemma_lex_transitive, same_text, text_lt, texts};

verus! {

/// Each element comes strictly before every later one.
pub open spec fn strictly_sorted(q: Seq<Seq<char>>) -> bool {
    forall|i: int, j: int| 0 <= i < j < q.len() ==> lex_lt(#[trigger] q[i], #[trigger] q[j])
}

/// The elements of a finite set in increasing lexicographic order.
pub open spec fn sorted_listing(s: Set<Seq<char>>) -> Seq<Seq<char>> {
    choose|q: Seq<Seq<char>>| strictly_sorted(q) && q.to_set() == s
}

/// The report line for a set: its elements in lexicographic order, joined
/// with commas.
pub open spec fn report_text(s: Set<Seq<char>>) -> Seq<char> {
    joined(sorted_listing(s))
}

/// Two strictly sorted sequences with the same elements are the same sequence.
pub proof fn lemma_sorted_unique(a: Seq<Seq<char>>, b: Seq<Seq<char>>)
    requires
        strictly_sorted(a),
        strictly_sorted(b),
        a.to_set() == b.to_set(),
    ensures
        a == b,
    decreases a.len(),
{
    if a.len() == 0 || b.len() == 0 {
        if b.len() > 0 {
            assert(b.to_set().contains(b[0]));
        }
        if a.len() > 0 {
            assert(a.to_set().contains(a[0]));
        }
        assert(a =~= b);
    } else {
        assert(b.to_set().contains(a[0]));
        assert(a.to_set().contains(b[0]));
        let i = choose|i: int| 0 <= i < a.len() && a[i] == b[0];
        let j = choose|j: int| 0 <= j < b.len() && b[j] == a[0];
        if i > 0 && j > 0 {
            assert(lex_lt(a[0], a[i]));
            assert(lex_lt(b[0], b[j]));
            lemma_lex_total(a[0], b[0]);
        }
        let ta = a.drop_first();
        let tb = b.drop_first();
        assert forall|x: Seq<char>| ta.to_set().contains(x) implies tb.to_set().contains(x) by {
            let k = choose|k: int| 0 <= k < ta.len() && ta[k] == x;
            assert(lex_lt(a[0], a[k + 1]));
            lemma_lex_irreflexive(x);
            assert(a.to_set().contains(x));
            let m = choose|m: int| 0 <= m < b.len() && b[m] == x;
            assert(tb[m - 1] == x);
        }
        assert forall|x: Seq<char>| tb.to_set().contains(x) implies ta.to_set().contains(x) by {
            let k = choose|k: int| 0 <= k < tb.len() && tb[k] == x;
            assert(lex_lt(b[0], b[k + 1]));
            lemma_lex_irreflexive(x);
            assert(b.to_set().contains(x));
            let m = choose|m: int| 0 <= m < a.len() && a[m] == x;
            assert(ta[m - 1] == x);
        }
        assert(ta.to_set() =~= tb.to_set());
        lemma_sorted_unique(ta, tb);
        assert(a =~= seq![a[0]] + ta);
        assert(b =~= seq![b[0]] + tb);
    }
}

/// A strictly sorted sequence is the sorted listing of its own elements.
pub proof fn lemma_listing_of_sorted(q: Seq<Seq<char>>)
    requires
        strictly_sorted(q),
    ensures
        sorted_listing(q.to_set()) == q,
{
    let s = q.to_set();
    assert(strictly_sorted(q) && q.to_set() == s);
    let c = sorted_listing(s);
    lemma_sorted_unique(c, q);
}

/// Adds `x` to a strictly sorted vector of strings unless it is already there.
fn insert_sorted(v: &mut Vec<String>, x: &str)
    requires
        strictly_sorted(texts(old(v)@)),
    ensures
        strictly_sorted(texts(final(v)@)),
        texts(final(v)@).to_set() == texts(old(v)@).to_set().insert(x@),
{
    let ghost old_t = texts(v@);
    let mut p: usize = 0;
    while p < v.len() && text_lt(v[p].as_str(), x)
        invariant
            v@ == old(v)@,
            old_t == texts(v@),
            p <= v@.len(),
            forall|k: int| 0 <= k < p ==> lex_lt(#[trigger] old_t[k], x@),
        decreases v@.len() - p,
    {
        p = p + 1;
    }
    if p < v.len() && same_text(v[p].as_str(), x) {
        assert(old_t.to_set().insert(x@) =~= old_t.to_set()) by {
            assert(old_t.to_set().contains(old_t[p as int]));
        }
        return;
    }
    proof {
        if p < old_t.len() {
            lemma_lex_total(old_t[p as int], x@);
        }
        assert forall|k: int| p <= k < old_t.len() implies lex_lt(x@, #[trigger] old_t[k]) by {
            if k > p {
                lemma_lex_transitive(x@, old_t[p as int], old_t[k]);
            }
        }
    }
    v.insert(p, String::from_str(x));
    let ghost new_t = texts(v@);
    assert(new_t =~= old_t.insert(p as int, x@));
    assert forall|i: int, j: int| 0 <= i < j < new_t.len() implies lex_lt(
        #[trigger] new_t[i],
        #[trigger] new_t[j],
    ) by {
        if j < p {
        } else if j == p {
        } else if i < p {
            lemma_lex_transitive(new_t[i], x@, new_t[j]);
        } else if i == p {
        } else {
            assert(new_t[i] == old_t[i - 1] && new_t[j] == old_t[j - 1]);
        }
    }
    assert forall|y: Seq<char>| #[trigger] new_t.to_set().contains(y) <==> old_t.to_set().insert(
        x@,
    ).contains(y) by {
        if new_t.to_set().contains(y) {
            let k = choose|k: int| 0 <= k < new_t.len() && new_t[k] == y;
            if k < p {
                assert(old_t[k] == y);
            } else if k > p {
                assert(old_t[k - 1] == y);
            }
        }
        if old_t.to_set().contains(y) {
            let k = choose|k: int| 0 <= k < old_t.len() && old_t[k] == y;
            if k < p {
                assert(new_t[k] == y);
            } else {
                assert(new_t[k + 1] == y);
            }
        }
        if y == x@ {
            assert(new_t[p as int] == y);
        }
    }
    assert(new_t.to_set() =~= old_t.to_set().insert(x@));
}

/// The distinct senders (talkers) and categories (message types) seen.
pub struct Uniques {
    pub talkers: Vec<String>,
    pub messages: Vec<String>,
}

impl Uniques {
    /// Both lists are kept strictly sorted, so each holds no repeat.
    pub open spec fn wf(&self) -> bool {
        strictly_sorted(texts(self.talkers@)) && strictly_sorted(texts(self.messages@))
    }

    /// The distinct senders seen.
    pub open spec fn senders(&self) -> Set<Seq<char>> {
        texts(self.talkers@).to_set()
    }

    /// The distinct categories seen.
    pub open spec fn categories(&self) -> Set<Seq<char>> {
        texts(self.messages@).to_set()
    }

    /// A collector that has seen nothing.
    pub fn new() -> (r: Uniques)
        ensures
            r.wf(),
            r.senders() == Set::<Seq<char>>::empty(),
            r.categories() == Set::<Seq<char>>::empty(),
    {
        let r = Uniques { talkers: Vec::new(), messages: Vec::new() };
        assert(texts(r.talkers@).to_set() =~= Set::<Seq<char>>::empty());
        assert(texts(r.messages@).to_set() =~= Set::<Seq<char>>::empty());
        r
    }

    /// Records a category and a sender; an empty one is not recorded.
    pub fn observe(&mut self, category: &str, sender: &str)
        requires
            old(self).wf(),
        ensures
            final(self).wf(),
            final(self).categories() == (if category@.len() > 0 {
                old(self).categories().insert(category@)
            } else {
                old(self).categories()
            }),
            final(self).senders() == (if sender@.len() > 0 {
                old(self).senders().insert(sender@)
            } else {
                old(self).senders()
            }),
    {
        if category.unicode_len() > 0 {
            insert_sorted(&mut self.messages, category);
        }
        if sender.unicode_len() > 0 {
            insert_sorted(&mut self.talkers, sender);
        }
    }

    /// The distinct categories in lexicographic order, comma-joined.
    pub fn categories_report(&self) -> (r: String)
        requires
            self.wf(),
        ensures
            r@ == report_text(self.categories()),
            strictly_sorted(sorted_listing(self.categories())),
            sorted_listing(self.categories()).to_set() == self.categories(),
    {
        proof {
            lemma_listing_of_sorted(texts(self.messages@));
        }
        display_vec(&self.messages)
    }

    /// The distinct senders in lexicographic order, comma-joined.
    pub fn senders_report(&self) -> (r: String)
        requires
            self.wf(),
        ensures
            r@ == report_text(self.senders()),
            strictly_sorted(sorted_listing(self.senders())),
            sorted_listing(self.senders()).to_set() == self.senders(),
    {
        proof {
            lemma_listing_of_sorted(texts(self.talkers@));
        }
        display_vec(&self.talkers)
    }
}

} // verus!
