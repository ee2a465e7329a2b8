//! Texts in ascending order without repetitions: the order in which a
//! `BTreeSet<String>` keeps and yields its items.
use vstd::prelude::*;
use crate::utils::text::{chars_of, text_of};

verus! {

/// `a` comes before `b` in the lexicographic order of their characters
/// (code points). This is the order of `String`'s `Ord`: UTF-8 encodes
/// code points so that byte order and code point order agree.
pub open spec fn text_less(a: Seq<char>, b: Seq<char>) -> bool
    decreases a.len(),
{
    if b.len() == 0 {
        false
    } else if a.len() == 0 {
        true
    } else if a[0] != b[0] {
        (a[0] as u32) < (b[0] as u32)
    } else {
        text_less(a.drop_first(), b.drop_first())
    }
}

/// Each text comes strictly before every later one: ascending, no repeats.
pub open spec fn strictly_ordered(s: Seq<Seq<char>>) -> bool {
    forall|i: int, j: int| 0 <= i < j < s.len() ==> text_less(#[trigger] s[i], #[trigger] s[j])
}

/// The texts of a list of strings.
pub open spec fn texts_of(v: Seq<String>) -> Seq<Seq<char>> {
    v.map_values(|s: String| s@)
}

/// Distinct characters have distinct code points.
proof fn lemma_char_code_injective(c: char, d: char)
    ensures
        c != d ==> (c as u32) != (d as u32),
{
    vstd::utf8::char_u32_cast(c, c as u32);
    vstd::utf8::char_u32_cast(d, d as u32);
}

/// No text comes before itself.
pub proof fn lemma_text_less_irreflexive(a: Seq<char>)
    ensures
        !text_less(a, a),
    decreases a.len(),
{
    if a.len() > 0 {
        lemma_text_less_irreflexive(a.drop_first());
    }
}

/// Of two texts that differ, one comes before the other, and never both.
pub proof fn lemma_text_less_total(a: Seq<char>, b: Seq<char>)
    ensures
        a != b ==> (text_less(a, b) || text_less(b, a)),
        !(text_less(a, b) && text_less(b, a)),
    decreases a.len(),
{
    if a.len() > 0 && b.len() > 0 {
        lemma_char_code_injective(a[0], b[0]);
    }
    if a.len() > 0 && b.len() > 0 && a[0] == b[0] {
        lemma_text_less_total(a.drop_first(), b.drop_first());
        if a != b {
            assert(a.drop_first() != b.drop_first()) by {
                if a.drop_first() =~= b.drop_first() {
                    assert(a =~= b) by {
                        assert forall|i: int| 0 <= i < a.len() implies a[i] == b[i] by {
                            if i > 0 {
                                assert(a[i] == a.drop_first()[i - 1]);
                                assert(b[i] == b.drop_first()[i - 1]);
                            }
                        }
                    }
                }
            }
        }
    } else if a.len() == 0 && b.len() == 0 {
        assert(a =~= b);
    }
}

/// The order is transitive.
pub proof fn lemma_text_less_transitive(a: Seq<char>, b: Seq<char>, c: Seq<char>)
    requires
        text_less(a, b),
        text_less(b, c),
    ensures
        text_less(a, c),
    decreases a.len(),
{
    if a.len() > 0 && a[0] == b[0] && b[0] == c[0] {
        lemma_text_less_transitive(a.drop_first(), b.drop_first(), c.drop_first());
    }
}

/// Comparing two texts skips a common prefix.
proof fn lemma_text_less_skip(a: Seq<char>, b: Seq<char>, i: int)
    requires
        0 <= i <= a.len(),
        i <= b.len(),
        forall|j: int| 0 <= j < i ==> a[j] == b[j],
    ensures
        text_less(a, b) == text_less(a.skip(i), b.skip(i)),
    decreases i,
{
    if i == 0 {
        assert(a.skip(0) =~= a);
        assert(b.skip(0) =~= b);
    } else {
        assert(a[0] == b[0]);
        lemma_text_less_skip(a.drop_first(), b.drop_first(), i - 1);
        assert(a.drop_first().skip(i - 1) =~= a.skip(i));
        assert(b.drop_first().skip(i - 1) =~= b.skip(i));
    }
}

/// Where one text stands relative to another.
pub enum TextOrder {
    Less,
    Equal,
    Greater,
}

/// Compares two texts in the order of [`text_less`].
pub fn compare_texts(a: &Vec<char>, b: &Vec<char>) -> (r: TextOrder)
    ensures
        r matches TextOrder::Less ==> text_less(a@, b@),
        r matches TextOrder::Equal ==> a@ == b@,
        r matches TextOrder::Greater ==> text_less(b@, a@),
{
    let n = a.len();
    let m = b.len();
    let mut i: usize = 0;
    while i < n && i < m && a[i] == b[i]
        invariant
            i <= n == a.len(),
            i <= m == b.len(),
            forall|j: int| 0 <= j < i ==> a@[j] == b@[j],
        decreases n - i,
    {
        i = i + 1;
    }
    proof {
        if i < n && i < m {
            lemma_char_code_injective(a@[i as int], b@[i as int]);
        }
        lemma_text_less_skip(a@, b@, i as int);
        lemma_text_less_skip(b@, a@, i as int);
    }
    if i == n && i == m {
        assert(a@ =~= b@);
        TextOrder::Equal
    } else if i == n {
        TextOrder::Less
    } else if i == m {
        TextOrder::Greater
    } else if (a[i] as u32) < (b[i] as u32) {
        TextOrder::Less
    } else {
        TextOrder::Greater
    }
}


/// Two ascending lists without repeats that hold the same texts are the
/// same list: such a list is determined by its set of texts.
pub proof fn law_ordered_texts_unique(s1: Seq<Seq<char>>, s2: Seq<Seq<char>>)
    requires
        strictly_ordered(s1),
        strictly_ordered(s2),
        s1.to_set() == s2.to_set(),
    ensures
        s1 == s2,
    decreases s1.len(),
{
    if s1.len() == 0 {
        if s2.len() > 0 {
            assert(s2.to_set().contains(s2[0]));
        }
        assert(s1 =~= s2);
    } else {
        assert(s1.to_set().contains(s1[0]));
        assert(s2.contains(s1[0]));
        let k = choose|k: int| 0 <= k < s2.len() && s2[k] == s1[0];
        assert(s2.to_set().contains(s2[0]));
        assert(s1.contains(s2[0]));
        let m = choose|m: int| 0 <= m < s1.len() && s1[m] == s2[0];
        if k > 0 {
            assert(text_less(s2[0], s2[k]));
            if m > 0 {
                assert(text_less(s1[0], s1[m]));
                lemma_text_less_total(s1[0], s2[0]);
            } else {
                lemma_text_less_irreflexive(s2[0]);
            }
        }
        assert(s1[0] == s2[0]);
        let x = s1[0];
        let t1 = s1.drop_first();
        let t2 = s2.drop_first();
        assert(strictly_ordered(t1)) by {
            assert forall|i: int, j: int| 0 <= i < j < t1.len() implies text_less(#[trigger] t1[i], #[trigger] t1[j]) by {
                assert(t1[i] == s1[i + 1] && t1[j] == s1[j + 1]);
            }
        }
        assert(strictly_ordered(t2)) by {
            assert forall|i: int, j: int| 0 <= i < j < t2.len() implies text_less(#[trigger] t2[i], #[trigger] t2[j]) by {
                assert(t2[i] == s2[i + 1] && t2[j] == s2[j + 1]);
            }
        }
        assert(t1.to_set() =~= s1.to_set().remove(x)) by {
            assert forall|e: Seq<char>| t1.to_set().contains(e) implies s1.to_set().remove(x).contains(e) by {
                let i = choose|i: int| 0 <= i < t1.len() && t1[i] == e;
                assert(s1[i + 1] == e);
                assert(text_less(s1[0], s1[i + 1]));
                lemma_text_less_irreflexive(x);
            }
            assert forall|e: Seq<char>| s1.to_set().remove(x).contains(e) implies t1.to_set().contains(e) by {
                let i = choose|i: int| 0 <= i < s1.len() && s1[i] == e;
                assert(i > 0);
                assert(t1[i - 1] == e);
            }
        }
        assert(t2.to_set() =~= s2.to_set().remove(x)) by {
            assert forall|e: Seq<char>| t2.to_set().contains(e) implies s2.to_set().remove(x).contains(e) by {
                let i = choose|i: int| 0 <= i < t2.len() && t2[i] == e;
                assert(s2[i + 1] == e);
                assert(text_less(s2[0], s2[i + 1]));
                lemma_text_less_irreflexive(x);
            }
            assert forall|e: Seq<char>| s2.to_set().remove(x).contains(e) implies t2.to_set().contains(e) by {
                let i = choose|i: int| 0 <= i < s2.len() && s2[i] == e;
                assert(i > 0);
                assert(t2[i - 1] == e);
            }
        }
        law_ordered_texts_unique(t1, t2);
        assert(s1 =~= s2) by {
            assert forall|i: int| 0 <= i < s1.len() implies s1[i] == s2[i] by {
                if i > 0 {
                    assert(s1[i] == t1[i - 1]);
                    assert(s2[i] == t2[i - 1]);
                }
            }
        }
    }
}

/// A set of texts kept in ascending order without repeats, as a
/// `BTreeSet<String>` keeps them.
pub struct TextSet {
    items: Vec<Vec<char>>,
}

impl View for TextSet {
    type V = Seq<Seq<char>>;

    closed spec fn view(&self) -> Seq<Seq<char>> {
        self.items@.map_values(|v: Vec<char>| v@)
    }
}

impl TextSet {
    /// The set holds its texts in ascending order, each once.
    pub open spec fn wf(&self) -> bool {
        strictly_ordered(self@)
    }

    /// An empty set.
    pub fn new() -> (r: TextSet)
        ensures
            r.wf(),
            r@ == Seq::<Seq<char>>::empty(),
    {
        let r = TextSet { items: Vec::new() };
        assert(r@ =~= Seq::<Seq<char>>::empty());
        r
    }

    /// Adds `text` unless it is there already.
    pub fn insert(&mut self, text: &str)
        requires
            old(self).wf(),
        ensures
            final(self).wf(),
            final(self)@.to_set() == old(self)@.to_set().insert(text@),
    {
        let x = chars_of(text);
        let ghost s = self@;
        let n = self.items.len();
        let mut lo: usize = 0;
        let mut hi: usize = n;
        while lo < hi
            invariant
                s == self@,
                s == old(self)@,
                x@ == text@,
                strictly_ordered(s),
                s.len() == n == self.items.len(),
                lo <= hi <= n,
                forall|i: int| 0 <= i < lo ==> text_less(#[trigger] s[i], x@),
                forall|i: int| hi <= i < n ==> text_less(x@, #[trigger] s[i]),
            decreases hi - lo,
        {
            let mid = lo + (hi - lo) / 2;
            assert(s[mid as int] == self.items[mid as int]@);
            match compare_texts(&self.items[mid], &x) {
                TextOrder::Less => {
                    assert forall|i: int| 0 <= i < mid + 1 implies text_less(#[trigger] s[i], x@) by {
                        if i < mid {
                            lemma_text_less_transitive(s[i], s[mid as int], x@);
                        }
                    }
                    lo = mid + 1;
                },
                TextOrder::Equal => {
                    assert(x@ == text@);
                    assert(s.to_set().insert(text@) =~= s.to_set()) by {
                        assert(s.to_set().contains(s[mid as int]));
                    }
                    return;
                },
                TextOrder::Greater => {
                    assert forall|i: int| mid <= i < n implies text_less(x@, #[trigger] s[i]) by {
                        if i > mid {
                            lemma_text_less_transitive(x@, s[mid as int], s[i]);
                        }
                    }
                    hi = mid;
                },
            }
        }
        self.items.insert(lo, x);
        let ghost t = self@;
        assert(t =~= s.insert(lo as int, x@));
        assert(strictly_ordered(t)) by {
            assert forall|i: int, j: int| 0 <= i < j < t.len() implies text_less(#[trigger] t[i], #[trigger] t[j]) by {
                if j < lo {
                } else if j == lo {
                } else if i < lo {
                    lemma_text_less_transitive(s[i], x@, s[j - 1]);
                } else if i == lo {
                } else {
                    assert(t[i] == s[i - 1] && t[j] == s[j - 1]);
                }
            }
        }
        assert(t.to_set() =~= s.to_set().insert(x@)) by {
            assert forall|e: Seq<char>| t.to_set().contains(e) implies s.to_set().insert(x@).contains(e) by {
                let i = choose|i: int| 0 <= i < t.len() && t[i] == e;
                if i < lo {
                    assert(s[i] == e);
                } else if i > lo {
                    assert(s[i - 1] == e);
                }
            }
            assert forall|e: Seq<char>| s.to_set().insert(x@).contains(e) implies t.to_set().contains(e) by {
                if e == x@ {
                    assert(t[lo as int] == e);
                } else {
                    let i = choose|i: int| 0 <= i < s.len() && s[i] == e;
                    if i < lo {
                        assert(t[i] == e);
                    } else {
                        assert(t[i + 1] == e);
                    }
                }
            }
        }
    }

    /// Adds every text of `texts`.
    pub fn extend(&mut self, texts: &Vec<String>)
        requires
            old(self).wf(),
        ensures
            final(self).wf(),
            final(self)@.to_set() == old(self)@.to_set() + texts_of(texts@).to_set(),
    {
        let ghost start = self@.to_set();
        let mut i: usize = 0;
        while i < texts.len()
            invariant
                i <= texts.len(),
                self.wf(),
                self@.to_set() == start + texts_of(texts@.take(i as int)).to_set(),
            decreases texts.len() - i,
        {
            self.insert(texts[i].as_str());
            proof {
                let before = texts_of(texts@.take(i as int));
                let after = texts_of(texts@.take(i + 1));
                assert(after =~= before.push(texts@[i as int]@));
                assert(after.to_set() =~= before.to_set().insert(texts@[i as int]@)) by {
                    assert forall|e: Seq<char>| after.to_set().contains(e) implies before.to_set().insert(texts@[i as int]@).contains(e) by {
                        let k = choose|k: int| 0 <= k < after.len() && after[k] == e;
                        if k < before.len() {
                            assert(before[k] == e);
                        }
                    }
                    assert forall|e: Seq<char>| before.to_set().insert(texts@[i as int]@).contains(e) implies after.to_set().contains(e) by {
                        if e == texts@[i as int]@ {
                            assert(after[i as int] == e);
                        } else {
                            let k = choose|k: int| 0 <= k < before.len() && before[k] == e;
                            assert(after[k] == e);
                        }
                    }
                }
                assert(start + after.to_set() =~= start + before.to_set() + set![texts@[i as int]@]);
                assert(self@.to_set() =~= start + after.to_set());
            }
            i = i + 1;
        }
        assert(texts@.take(texts.len() as int) =~= texts@);
    }

    /// The texts, in ascending order, as strings.
    pub fn into_strings(self) -> (r: Vec<String>)
        requires
            self.wf(),
        ensures
            texts_of(r@) == self@,
            strictly_ordered(texts_of(r@)),
    {
        let mut r: Vec<String> = Vec::new();
        let mut i: usize = 0;
        while i < self.items.len()
            invariant
                i <= self.items.len(),
                texts_of(r@) == self@.take(i as int),
            decreases self.items.len() - i,
        {
            let v = &self.items[i];
            let t = text_of(v, 0, v.len());
            let ghost old_r = r@;
            r.push(t);
            proof {
                assert(v@.subrange(0, v@.len() as int) =~= v@);
                assert(self@[i as int] == v@);
                assert(texts_of(r@) =~= texts_of(r@.drop_last()).push(t@));
                assert(r@.drop_last() =~= old_r);
                assert(texts_of(r@) =~= self@.take(i + 1));
            }
            i = i + 1;
        }
        assert(self@.take(self.items.len() as int) =~= self@);
        r
    }
}

} // verus!
