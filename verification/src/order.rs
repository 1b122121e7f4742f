//! The order of texts by their characters, and sorted lists of texts.

use crate::sheet::texts;
use crate::text::chars_of;
use vstd::prelude::*;

verus! {

/// `a` is `b` or comes before it: at the first place where they differ `a`
/// has the smaller character, or `a` ends there.
pub open spec fn text_le(a: Seq<char>, b: Seq<char>) -> bool
    decreases a.len(),
{
    if a.len() == 0 {
        true
    } else if b.len() == 0 {
        false
    } else if a[0] != b[0] {
        a[0] < b[0]
    } else {
        text_le(a.drop_first(), b.drop_first())
    }
}

/// Each text is followed only by texts that are not before it.
pub open spec fn ascending(s: Seq<Seq<char>>) -> bool {
    forall|i: int, j: int| 0 <= i < j < s.len() ==> text_le(#[trigger] s[i], #[trigger] s[j])
}

pub proof fn lemma_text_le_total(a: Seq<char>, b: Seq<char>)
    ensures
        text_le(a, b) || text_le(b, a),
    decreases a.len(),
{
    if a.len() > 0 && b.len() > 0 && a[0] == b[0] {
        lemma_text_le_total(a.drop_first(), b.drop_first());
    }
}

pub proof fn lemma_text_le_transitive(a: Seq<char>, b: Seq<char>, c: Seq<char>)
    requires
        text_le(a, b),
        text_le(b, c),
    ensures
        text_le(a, c),
    decreases a.len(),
{
    if a.len() > 0 && b.len() > 0 && c.len() > 0 && a[0] == b[0] && b[0] == c[0] {
        lemma_text_le_transitive(a.drop_first(), b.drop_first(), c.drop_first());
    }
}

pub proof fn lemma_text_le_antisymmetric(a: Seq<char>, b: Seq<char>)
    requires
        text_le(a, b),
        text_le(b, a),
    ensures
        a == b,
    decreases a.len(),
{
    if a.len() == 0 || b.len() == 0 {
        assert(a =~= b);
    } else {
        lemma_text_le_antisymmetric(a.drop_first(), b.drop_first());
        assert(a =~= seq![a[0]] + a.drop_first());
        assert(b =~= seq![b[0]] + b.drop_first());
    }
}

/// Where one text stands to another.
#[derive(Debug, Clone, Copy, PartialEq, Eq)]
pub enum Place {
    Before,
    Same,
    After,
}

/// Where `a` stands to `b` in the order of texts.
pub fn place(a: &Vec<char>, b: &Vec<char>) -> (r: Place)
    ensures
        r == Place::Same <==> a@ == b@,
        r == Place::Before ==> text_le(a@, b@),
        r == Place::After ==> text_le(b@, a@),
{
    let mut i: usize = 0;
    assert(a@.subrange(0, a.len() as int) =~= a@);
    assert(b@.subrange(0, b.len() as int) =~= b@);
    while i < a.len() && i < b.len()
        invariant
            i <= a.len(),
            i <= b.len(),
            forall|k: int| 0 <= k < i ==> a@[k] == b@[k],
            text_le(a@, b@) == text_le(
                a@.subrange(i as int, a.len() as int),
                b@.subrange(i as int, b.len() as int),
            ),
            text_le(b@, a@) == text_le(
                b@.subrange(i as int, b.len() as int),
                a@.subrange(i as int, a.len() as int),
            ),
        decreases a.len() - i,
    {
        let x = a[i];
        let y = b[i];
        let ghost ra = a@.subrange(i as int, a.len() as int);
        let ghost rb = b@.subrange(i as int, b.len() as int);
        assert(ra[0] == x && rb[0] == y);
        if x != y {
            if x < y {
                return Place::Before;
            } else {
                return Place::After;
            }
        }
        assert(ra.drop_first() =~= a@.subrange(i + 1, a.len() as int));
        assert(rb.drop_first() =~= b@.subrange(i + 1, b.len() as int));
        i += 1;
    }
    if i < b.len() {
        assert(a@.len() != b@.len());
        Place::Before
    } else if i < a.len() {
        assert(a@.len() != b@.len());
        Place::After
    } else {
        assert(a@ =~= b@);
        Place::Same
    }
}

/// A text put into a sorted list at a place where nothing before it comes
/// after it and what follows is not before it leaves the list sorted.
pub proof fn lemma_insert_ascending(s: Seq<Seq<char>>, p: int, x: Seq<char>)
    requires
        ascending(s),
        0 <= p <= s.len(),
        forall|k: int| 0 <= k < p ==> text_le(#[trigger] s[k], x),
        p < s.len() ==> text_le(x, s[p]),
    ensures
        ascending(s.insert(p, x)),
{
    let t = s.insert(p, x);
    assert forall|i: int, j: int| 0 <= i < j < t.len() implies text_le(
        #[trigger] t[i],
        #[trigger] t[j],
    ) by {
        if j < p {
            assert(t[i] == s[i] && t[j] == s[j]);
        } else if j == p {
            assert(t[i] == s[i]);
        } else if i < p {
            assert(t[i] == s[i] && t[j] == s[j - 1]);
            if i < j - 1 {
            } else {
                lemma_text_le_transitive(s[i], x, s[p]);
            }
        } else if i == p {
            assert(t[j] == s[j - 1]);
            if j - 1 > p {
                assert(text_le(s[p], s[j - 1]));
                lemma_text_le_transitive(x, s[p], s[j - 1]);
            }
        } else {
            assert(t[i] == s[i - 1] && t[j] == s[j - 1]);
        }
    }
}

/// The texts of `items` in ascending order.
pub fn sorted_texts(items: &Vec<String>) -> (out: Vec<String>)
    ensures
        ascending(texts(out@)),
        texts(out@).to_multiset() == texts(items@).to_multiset(),
{
    let mut out: Vec<String> = Vec::new();
    let mut i: usize = 0;
    assert(texts(out@) =~= texts(items@.subrange(0, 0)));
    while i < items.len()
        invariant
            i <= items.len(),
            ascending(texts(out@)),
            texts(out@).to_multiset() == texts(items@.subrange(0, i as int)).to_multiset(),
        decreases items.len() - i,
    {
        let item = items[i].clone();
        let wanted = chars_of(item.as_str());
        let mut p: usize = 0;
        let mut found = false;
        while p < out.len() && !found
            invariant
                p <= out.len(),
                wanted@ == item@,
                forall|k: int| 0 <= k < p ==> text_le(#[trigger] texts(out@)[k], item@),
                found ==> p < out.len() && text_le(item@, texts(out@)[p as int]),
            decreases out.len() - p + (if found { 0int } else { 1int }),
        {
            let here = chars_of(out[p].as_str());
            match place(&here, &wanted) {
                Place::After => {
                    assert(text_le(item@, texts(out@)[p as int]));
                    found = true;
                },
                Place::Before => {
                    assert(text_le(texts(out@)[p as int], item@));
                    p += 1;
                },
                Place::Same => {
                    proof {
                        lemma_text_le_total(item@, item@);
                    }
                    assert(text_le(texts(out@)[p as int], item@));
                    p += 1;
                },
            }
        }
        let ghost before = texts(out@);
        let ghost taken = texts(items@.subrange(0, i as int));
        proof {
            lemma_insert_ascending(before, p as int, item@);
        }
        out.insert(p, item);
        proof {
            let after = texts(out@);
            assert(after =~= before.insert(p as int, item@));
            assert(after.remove(p as int) =~= before);
            broadcast use vstd::seq_lib::group_to_multiset_ensures;
            assert(after.remove(p as int).to_multiset() =~= after.to_multiset().remove(item@));
            assert(after.to_multiset().count(item@) > 0) by {
                assert(after[p as int] == item@);
                assert(after.contains(item@));
            }
            assert(after.to_multiset() =~= before.to_multiset().insert(item@));
            assert(texts(items@.subrange(0, i + 1)) =~= taken.push(item@));
        }
        i += 1;
    }
    assert(items@.subrange(0, items.len() as int) =~= items@);
    out
}

/// Whether `wanted` is among the sorted `entries`.
pub fn holds_sorted(entries: &Vec<String>, wanted: &str) -> (r: bool)
    requires
        ascending(texts(entries@)),
    ensures
        r == texts(entries@).contains(wanted@),
{
    let goal = chars_of(wanted);
    let ghost all = texts(entries@);
    let mut lo: usize = 0;
    let mut hi: usize = entries.len();
    while lo < hi
        invariant
            lo <= hi <= entries.len(),
            all == texts(entries@),
            ascending(all),
            goal@ == wanted@,
            forall|k: int| 0 <= k < lo ==> all[k] != wanted@,
            forall|k: int| hi <= k < all.len() ==> all[k] != wanted@,
        decreases hi - lo,
    {
        let mid = lo + (hi - lo) / 2;
        let here = chars_of(entries[mid].as_str());
        assert(here@ == all[mid as int]);
        match place(&here, &goal) {
            Place::Same => {
                return true;
            },
            Place::Before => {
                assert forall|k: int| 0 <= k < mid + 1 implies all[k] != wanted@ by {
                    if k < mid && all[k] == wanted@ {
                        assert(text_le(all[k], all[mid as int]));
                        lemma_text_le_antisymmetric(all[mid as int], wanted@);
                    }
                }
                lo = mid + 1;
            },
            Place::After => {
                assert forall|k: int| mid <= k < all.len() implies all[k] != wanted@ by {
                    if k > mid && all[k] == wanted@ {
                        assert(text_le(all[mid as int], all[k]));
                        lemma_text_le_antisymmetric(all[mid as int], wanted@);
                    }
                }
                hi = mid;
            },
        }
    }
    false
}

/// Whether `entries` stand in ascending order.
pub fn is_ascending(entries: &Vec<String>) -> (r: bool)
    ensures
        r == ascending(texts(entries@)),
{
    if entries.len() < 2 {
        return true;
    }
    let ghost all = texts(entries@);
    let mut i: usize = 1;
    while i < entries.len()
        invariant
            1 <= i <= entries.len(),
            all == texts(entries@),
            forall|a: int, b: int| 0 <= a < b < i ==> text_le(#[trigger] all[a], #[trigger] all[b]),
        decreases entries.len() - i,
    {
        let earlier = chars_of(entries[i - 1].as_str());
        let later = chars_of(entries[i].as_str());
        match place(&earlier, &later) {
            Place::After => {
                proof {
                    if text_le(all[i - 1], all[i as int]) {
                        lemma_text_le_antisymmetric(all[i - 1], all[i as int]);
                    }
                }
                return false;
            },
            Place::Same => {
                proof {
                    lemma_text_le_total(all[i as int], all[i as int]);
                }
            },
            Place::Before => {},
        }
        assert forall|a: int, b: int| 0 <= a < b < i + 1 implies text_le(
            #[trigger] all[a],
            #[trigger] all[b],
        ) by {
            if b == i && a < i - 1 {
                lemma_text_le_transitive(all[a], all[i - 1], all[i as int]);
            }
        }
        i += 1;
    }
    true
}

} // verus!
