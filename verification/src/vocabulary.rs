//! The values that a column takes, the most frequent first.
use crate::text;
use crate::text::{same_text, text_less};
use vstd::prelude::*;

verus! {

/// The most values that count as a vocabulary. A column with more is no list
/// to choose from.
pub const MAX_VOCABULARY: usize = 256;

/// How often `value` stands in `seen`.
pub open spec fn occurrences(seen: Seq<Seq<char>>, value: Seq<char>) -> nat
    decreases seen.len(),
{
    if seen.len() == 0 {
        0
    } else if seen.last() == value {
        occurrences(seen.drop_last(), value) + 1
    } else {
        occurrences(seen.drop_last(), value)
    }
}

/// The different values in `seen`, by first appearance.
pub open spec fn distinct(seen: Seq<Seq<char>>) -> Seq<Seq<char>>
    decreases seen.len(),
{
    if seen.len() == 0 {
        Seq::empty()
    } else {
        let rest = distinct(seen.drop_last());
        if rest.contains(seen.last()) {
            rest
        } else {
            rest.push(seen.last())
        }
    }
}

/// `a` goes before `b`: it is more frequent, or as frequent and earlier in order.
pub open spec fn goes_before(seen: Seq<Seq<char>>, a: Seq<char>, b: Seq<char>) -> bool {
    ||| occurrences(seen, a) > occurrences(seen, b)
    ||| occurrences(seen, a) == occurrences(seen, b) && text::lex_less(a, b)
}

/// `out` goes by falling frequency, and by order where that is equal.
pub open spec fn in_rank_order(seen: Seq<Seq<char>>, out: Seq<Seq<char>>) -> bool {
    forall|i: int, j: int|
        0 <= i < j < out.len() ==> goes_before(seen, #[trigger] out[i], #[trigger] out[j])
}

/// `out` lists every value of `seen` once, in rank order.
pub open spec fn ranked(seen: Seq<Seq<char>>, out: Seq<Seq<char>>) -> bool {
    &&& in_rank_order(seen, out)
    &&& out.len() == distinct(seen).len()
    &&& forall|v: Seq<char>| #[trigger] out.contains(v) <==> seen.contains(v)
}

/// The vocabulary of a column with these values; none where there are no
/// values or too many different ones.
pub open spec fn is_vocabulary(seen: Seq<Seq<char>>, out: Option<Seq<Seq<char>>>) -> bool {
    match out {
        Some(list) => seen.len() > 0 && distinct(seen).len() <= MAX_VOCABULARY && ranked(
            seen,
            list,
        ),
        None => seen.len() == 0 || distinct(seen).len() > MAX_VOCABULARY,
    }
}

proof fn lemma_distinct(seen: Seq<Seq<char>>)
    ensures
        forall|v: Seq<char>| #[trigger] distinct(seen).contains(v) <==> seen.contains(v),
        distinct(seen).len() <= seen.len(),
        seen.len() > 0 ==> distinct(seen).len() > 0,
        forall|i: int, j: int|
            0 <= i < j < distinct(seen).len() ==> distinct(seen)[i] != distinct(seen)[j],
    decreases seen.len(),
{
    if seen.len() > 0 {
        let rest = seen.drop_last();
        lemma_distinct(rest);
        assert(seen == rest.push(seen.last()));
        assert forall|v: Seq<char>| #[trigger] distinct(seen).contains(v) <==> seen.contains(v) by {
            if seen.contains(v) {
                let k = choose|k: int| 0 <= k < seen.len() && seen[k] == v;
                if k < rest.len() {
                    assert(rest[k] == v);
                    assert(rest.contains(v));
                    assert(distinct(rest).contains(v));
                    let m = choose|m: int| 0 <= m < distinct(rest).len() && distinct(rest)[m] == v;
                    assert(distinct(seen)[m] == v);
                } else if !distinct(rest).contains(seen.last()) {
                    assert(distinct(seen)[distinct(rest).len() as int] == v);
                }
            }
            if distinct(seen).contains(v) {
                let m = choose|m: int| 0 <= m < distinct(seen).len() && distinct(seen)[m] == v;
                if m < distinct(rest).len() {
                    assert(distinct(rest)[m] == v);
                    assert(distinct(rest).contains(v));
                    assert(rest.contains(v));
                    let k = choose|k: int| 0 <= k < rest.len() && rest[k] == v;
                    assert(seen[k] == v);
                } else {
                    assert(seen[seen.len() - 1] == v);
                }
            }
        }
        if !distinct(rest).contains(seen.last()) {
            assert forall|i: int, j: int| 0 <= i < j < distinct(seen).len() implies distinct(
                seen,
            )[i] != distinct(seen)[j] by {
                if j == distinct(rest).len() {
                    assert(distinct(rest)[i] == distinct(seen)[i]);
                }
            }
        }
    }
}

proof fn lemma_distinct_grows(seen: Seq<Seq<char>>, n: int)
    requires
        0 <= n <= seen.len(),
    ensures
        distinct(seen.take(n)).len() <= distinct(seen).len(),
    decreases seen.len(),
{
    if n == seen.len() {
        assert(seen.take(n) == seen);
    } else {
        lemma_distinct_grows(seen.drop_last(), n);
        assert(seen.drop_last().take(n) == seen.take(n));
    }
}

proof fn lemma_before_transitive(
    seen: Seq<Seq<char>>,
    a: Seq<char>,
    b: Seq<char>,
    c: Seq<char>,
)
    requires
        goes_before(seen, a, b),
        goes_before(seen, b, c),
    ensures
        goes_before(seen, a, c),
{
    if occurrences(seen, a) == occurrences(seen, b) && occurrences(seen, b) == occurrences(seen, c) {
        text::lemma_lex_transitive(a, b, c);
    }
}

/// Counts the values of a column as they come.
pub struct Vocabulary {
    values: Vec<String>,
    counts: Vec<u64>,
    added: Ghost<Seq<Seq<char>>>,
}

impl Vocabulary {
    /// The values added so far, in order.
    pub closed spec fn seen(self) -> Seq<Seq<char>> {
        self.added@
    }

    pub closed spec fn wf(self) -> bool {
        &&& text::texts(self.values@) == distinct(self.added@)
        &&& self.counts@.len() == self.values@.len()
        &&& forall|i: int|
            0 <= i < self.counts@.len() ==> #[trigger] self.counts@[i] == occurrences(
                self.added@,
                self.values@[i]@,
            )
        &&& forall|v: Seq<char>| occurrences(self.added@, v) <= self.added@.len()
        &&& distinct(self.added@).len() <= MAX_VOCABULARY
    }

    pub fn new() -> (v: Vocabulary)
        ensures
            v.wf(),
            v.seen() == Seq::<Seq<char>>::empty(),
    {
        let v = Vocabulary {
            values: Vec::new(),
            counts: Vec::new(),
            added: Ghost(Seq::<Seq<char>>::empty()),
        };
        assert(text::texts(v.values@) =~= distinct(v.added@));
        v
    }

    /// Counts one more value. A value that would be one too many is not counted.
    pub fn add(&mut self, value: &str) -> (counted: bool)
        requires
            old(self).wf(),
            old(self).seen().len() < u64::MAX,
        ensures
            final(self).wf(),
            counted == (old(self).seen().contains(value@) || distinct(old(self).seen()).len()
                < MAX_VOCABULARY),
            final(self).seen() == if counted {
                old(self).seen().push(value@)
            } else {
                old(self).seen()
            },
    {
        let ghost before = self.added@;
        let ghost after = self.added@.push(value@);
        proof {
            lemma_distinct(before);
            assert(after.drop_last() == before);
        }
        let mut i: usize = 0;
        while i < self.values.len()
            invariant
                i <= self.values@.len(),
                self.wf(),
                self.added@ == before,
                after == before.push(value@),
                after.drop_last() == before,
                before.len() < u64::MAX,
                *self == *old(self),
                forall|v: Seq<char>| #[trigger] distinct(before).contains(v) <==> before.contains(v),
                forall|a: int, b: int|
                    0 <= a < b < distinct(before).len() ==> distinct(before)[a] != distinct(
                        before,
                    )[b],
                forall|j: int| 0 <= j < i ==> (#[trigger] self.values@[j])@ != value@,
            decreases self.values@.len() - i,
        {
            if same_text(self.values[i].as_str(), value) {
                assert(text::texts(self.values@)[i as int] == value@);
                assert(distinct(before).contains(value@));
                let count: u64 = self.counts[i];
                assert(count == occurrences(before, self.values@[i as int]@));
                self.counts[i] = count + 1;
                self.added = Ghost(after);
                proof {
                    assert forall|j: int| 0 <= j < self.counts@.len() implies #[trigger] self.counts@[j]
                        == occurrences(after, self.values@[j]@) by {
                        assert(distinct(before)[j] == self.values@[j]@);
                        assert(old(self).counts@[j] == occurrences(before, old(self).values@[j]@));
                        if j != i {
                            assert(self.values@[j]@ != value@);
                        }
                    }
                    assert forall|v: Seq<char>| occurrences(after, v) <= after.len() by {
                        assert(occurrences(before, v) <= before.len());
                    }
                }
                return true;
            }
            i = i + 1;
        }
        proof {
            if distinct(before).contains(value@) {
                let m = choose|m: int|
                    0 <= m < distinct(before).len() && distinct(before)[m] == value@;
                assert(text::texts(self.values@)[m] == self.values@[m]@);
            }
            lemma_absent(before, value@);
        }
        if self.values.len() >= MAX_VOCABULARY {
            return false;
        }
        self.values.push(value.to_string());
        self.counts.push(1);
        self.added = Ghost(after);
        proof {
            assert(text::texts(self.values@) =~= distinct(after));
            assert forall|j: int| 0 <= j < self.counts@.len() implies #[trigger] self.counts@[j]
                == occurrences(after, self.values@[j]@) by {
                if j < old(self).counts@.len() {
                    assert(old(self).counts@[j] == occurrences(before, old(self).values@[j]@));
                    assert(old(self).values@[j]@ != value@);
                }
            }
            assert forall|v: Seq<char>| occurrences(after, v) <= after.len() by {
                assert(occurrences(before, v) <= before.len());
            }
        }
        true
    }

    /// The values by falling frequency; `None` where none was added.
    pub fn finish(&self) -> (list: Option<Vec<String>>)
        requires
            self.wf(),
        ensures
            match list {
                Some(out) => self.seen().len() > 0 && ranked(self.seen(), text::texts(out@)),
                None => self.seen().len() == 0,
            },
    {
        let ghost seen = self.added@;
        proof {
            lemma_distinct(seen);
        }
        if self.values.len() == 0 {
            assert(text::texts(self.values@).len() == 0);
            return None;
        }
        let mut out: Vec<String> = Vec::new();
        let mut ranks: Vec<u64> = Vec::new();
        let mut i: usize = 0;
        while i < self.values.len()
            invariant
                i <= self.values@.len(),
                self.wf(),
                seen == self.added@,
                out@.len() == i,
                ranks@.len() == i,
                in_rank_order(seen, text::texts(out@)),
                forall|k: int| 0 <= k < i ==> #[trigger] ranks@[k] == occurrences(seen, out@[k]@),
                forall|v: Seq<char>| #[trigger]
                    text::texts(out@).contains(v) <==> distinct(seen).take(i as int).contains(v),
                forall|a: int, b: int|
                    0 <= a < b < distinct(seen).len() ==> distinct(seen)[a] != distinct(seen)[b],
            decreases self.values@.len() - i,
        {
            let ghost held = out@;
            let ghost value = self.values@[i as int]@;
            proof {
                assert(text::texts(self.values@)[i as int] == value);
                assert(!text::texts(out@).contains(value)) by {
                    if distinct(seen).take(i as int).contains(value) {
                        let m = choose|m: int|
                            0 <= m < i && distinct(seen).take(i as int)[m] == value;
                        assert(distinct(seen)[m] == distinct(seen)[i as int]);
                    }
                }
            }
            assert(self.counts@[i as int] == occurrences(seen, value));
            let at = place(&out, &ranks, &self.values[i], self.counts[i], Ghost(seen));
            out.insert(at, self.values[i].clone());
            ranks.insert(at, self.counts[i]);
            proof {
                let listed = text::texts(out@);
                assert(listed =~= text::texts(held).insert(at as int, value));
                lemma_inserted(seen, text::texts(held), value, at as int);
                assert(distinct(seen).take(i + 1) == distinct(seen).take(i as int).push(value));
                assert forall|v: Seq<char>| #[trigger] listed.contains(v) <==> distinct(seen).take(
                    i + 1,
                ).contains(v) by {
                    lemma_push_contains(distinct(seen).take(i as int), value, v);
                    lemma_insert_contains(text::texts(held), value, at as int, v);
                }
                assert forall|k: int| 0 <= k < i + 1 implies #[trigger] ranks@[k] == occurrences(
                    seen,
                    out@[k]@,
                ) by {}
            }
            i = i + 1;
        }
        assert(distinct(seen).take(i as int) == distinct(seen));
        Some(out)
    }
}

proof fn lemma_push_contains(s: Seq<Seq<char>>, x: Seq<char>, v: Seq<char>)
    ensures
        s.push(x).contains(v) == (s.contains(v) || v == x),
{
    if s.contains(v) {
        let k = choose|k: int| 0 <= k < s.len() && s[k] == v;
        assert(s.push(x)[k] == v);
    }
    if v == x {
        assert(s.push(x)[s.len() as int] == v);
    }
}

proof fn lemma_insert_contains(s: Seq<Seq<char>>, x: Seq<char>, at: int, v: Seq<char>)
    requires
        0 <= at <= s.len(),
    ensures
        s.insert(at, x).contains(v) == (s.contains(v) || v == x),
{
    let t = s.insert(at, x);
    if s.contains(v) {
        let k = choose|k: int| 0 <= k < s.len() && s[k] == v;
        if k < at {
            assert(t[k] == v);
        } else {
            assert(t[k + 1] == v);
        }
    }
    if v == x {
        assert(t[at] == v);
    }
    if t.contains(v) {
        let k = choose|k: int| 0 <= k < t.len() && t[k] == v;
        if k < at {
            assert(s[k] == v);
        } else if k > at {
            assert(s[k - 1] == v);
        }
    }
}

proof fn lemma_absent(seen: Seq<Seq<char>>, v: Seq<char>)
    ensures
        !seen.contains(v) ==> occurrences(seen, v) == 0,
    decreases seen.len(),
{
    if seen.len() > 0 && !seen.contains(v) {
        assert(seen[seen.len() - 1] == seen.last());
        if seen.drop_last().contains(v) {
            let k = choose|k: int| 0 <= k < seen.drop_last().len() && seen.drop_last()[k] == v;
            assert(seen[k] == v);
        }
        lemma_absent(seen.drop_last(), v);
    }
}

/// The place of `value` among `out`, which is in rank order.
fn place(
    out: &Vec<String>,
    ranks: &Vec<u64>,
    value: &String,
    count: u64,
    seen: Ghost<Seq<Seq<char>>>,
) -> (at: usize)
    requires
        in_rank_order(seen@, text::texts(out@)),
        ranks@.len() == out@.len(),
        forall|k: int| 0 <= k < out@.len() ==> #[trigger] ranks@[k] == occurrences(seen@, out@[k]@),
        count == occurrences(seen@, value@),
        !text::texts(out@).contains(value@),
    ensures
        at <= out@.len(),
        forall|k: int| 0 <= k < at ==> goes_before(seen@, #[trigger] text::texts(out@)[k], value@),
        at < out@.len() ==> goes_before(seen@, value@, text::texts(out@)[at as int]),
{
    let mut at: usize = 0;
    while at < out.len()
        invariant
            at <= out@.len(),
            ranks@.len() == out@.len(),
            forall|k: int|
                0 <= k < out@.len() ==> #[trigger] ranks@[k] == occurrences(seen@, out@[k]@),
            count == occurrences(seen@, value@),
            !text::texts(out@).contains(value@),
            forall|k: int|
                0 <= k < at ==> goes_before(seen@, #[trigger] text::texts(out@)[k], value@),
        decreases out@.len() - at,
    {
        let rank: u64 = ranks[at];
        let listed = &out[at];
        assert(text::texts(out@)[at as int] == listed@);
        if count > rank {
            return at;
        }
        if count == rank && text_less(value.as_str(), listed.as_str()) {
            return at;
        }
        proof {
            text::lemma_lex_total(value@, listed@);
        }
        at = at + 1;
    }
    at
}

proof fn lemma_inserted(seen: Seq<Seq<char>>, s: Seq<Seq<char>>, value: Seq<char>, at: int)
    requires
        in_rank_order(seen, s),
        0 <= at <= s.len(),
        forall|k: int| 0 <= k < at ==> goes_before(seen, #[trigger] s[k], value),
        at < s.len() ==> goes_before(seen, value, s[at]),
    ensures
        in_rank_order(seen, s.insert(at, value)),
{
    let t = s.insert(at, value);
    assert forall|i: int, j: int| 0 <= i < j < t.len() implies goes_before(
        seen,
        #[trigger] t[i],
        #[trigger] t[j],
    ) by {
        if i == at {
            assert(t[j] == s[j - 1]);
            if j - 1 > at {
                assert(goes_before(seen, s[at], s[j - 1]));
                lemma_before_transitive(seen, value, s[at], s[j - 1]);
            }
        } else if j == at {
            assert(t[i] == s[i]);
        } else {
            let a = if i < at {
                i
            } else {
                i - 1
            };
            let b = if j < at {
                j
            } else {
                j - 1
            };
            assert(t[i] == s[a] && t[j] == s[b]);
        }
    }
}

/// The values of a column by falling frequency, and by order where that is
/// equal, so that the list comes out the same whenever it is made.
pub fn vocabulary_of(values: &Vec<String>) -> (list: Option<Vec<String>>)
    ensures
        is_vocabulary(
            text::texts(values@),
            match list {
                Some(out) => Some(text::texts(out@)),
                None => None,
            },
        ),
{
    let ghost all = text::texts(values@);
    let mut v = Vocabulary::new();
    let mut i: usize = 0;
    assert(all.take(0) == Seq::<Seq<char>>::empty());
    while i < values.len()
        invariant
            i <= values@.len(),
            all == text::texts(values@),
            v.wf(),
            v.seen() == all.take(i as int),
            distinct(all.take(i as int)).len() <= MAX_VOCABULARY,
        decreases values@.len() - i,
    {
        proof {
            assert(all.take(i + 1) == all.take(i as int).push(values@[i as int]@));
            assert(all.take(i + 1).drop_last() == all.take(i as int));
            lemma_distinct(all.take(i as int));
            lemma_distinct_grows(all, i + 1);
        }
        if !v.add(values[i].as_str()) {
            return None;
        }
        i = i + 1;
    }
    assert(all.take(i as int) == all);
    v.finish()
}

/// Two vocabularies of the same values are the same list.
pub proof fn law_vocabulary_is_unique(
    seen: Seq<Seq<char>>,
    a: Seq<Seq<char>>,
    b: Seq<Seq<char>>,
)
    requires
        ranked(seen, a),
        ranked(seen, b),
    ensures
        a == b,
{
    assert forall|k: int| 0 <= k < a.len() implies a[k] == b[k] by {
        lemma_same_until(seen, a, b, k + 1);
    }
    assert(a =~= b);
}

proof fn lemma_same_until(seen: Seq<Seq<char>>, a: Seq<Seq<char>>, b: Seq<Seq<char>>, n: int)
    requires
        ranked(seen, a),
        ranked(seen, b),
        0 <= n <= a.len(),
    ensures
        forall|k: int| 0 <= k < n ==> a[k] == b[k],
    decreases n,
{
    if n > 0 {
        lemma_same_until(seen, a, b, n - 1);
        let k = n - 1;
        if a[k] != b[k] {
            assert(a.contains(a[k]));
            assert(b.contains(a[k]));
            let m = choose|m: int| 0 <= m < b.len() && b[m] == a[k];
            assert(b.contains(b[k]));
            assert(a.contains(b[k]));
            let l = choose|l: int| 0 <= l < a.len() && a[l] == b[k];
            if m < k {
                assert(a[m] == b[m]);
                assert(goes_before(seen, a[m], a[k]));
                lemma_before_irreflexive(seen, a[k]);
            } else if l < k {
                assert(a[l] == b[l]);
                assert(goes_before(seen, b[l], b[k]));
                lemma_before_irreflexive(seen, b[k]);
            } else {
                assert(goes_before(seen, b[k], b[m]));
                assert(goes_before(seen, a[k], a[l]));
                lemma_before_transitive(seen, a[k], b[k], a[k]);
                lemma_before_irreflexive(seen, a[k]);
            }
        }
    }
}

proof fn lemma_before_irreflexive(seen: Seq<Seq<char>>, a: Seq<char>)
    ensures
        !goes_before(seen, a, a),
{
    text::lemma_lex_irreflexive(a);
}

/// How many of the values are that one.
pub open spec fn number_of(seen: Seq<Seq<char>>, value: Seq<char>) -> nat {
    seen.filter(|v: Seq<char>| v == value).len()
}

/// The values of two columns, one behind the other, are counted together. One
/// value counts once.
pub proof fn law_counts_add_up(a: Seq<Seq<char>>, b: Seq<Seq<char>>, value: Seq<char>)
    ensures
        occurrences(a + b, value) == occurrences(a, value) + occurrences(b, value),
        occurrences(b, value) == number_of(b, value),
    decreases b.len(),
{
    reveal(Seq::filter);
    if b.len() == 0 {
        assert(a + b =~= a);
    } else {
        law_counts_add_up(a, b.drop_last(), value);
        assert((a + b).drop_last() =~= a + b.drop_last());
    }
}

/// The different values are those that were seen, each once.
pub proof fn law_each_value_is_listed_once(seen: Seq<Seq<char>>)
    ensures
        forall|v: Seq<char>| #[trigger] distinct(seen).contains(v) <==> seen.contains(v),
        distinct(seen).no_duplicates(),
{
    lemma_distinct(seen);
    let d = distinct(seen);
    assert forall|i: int, j: int|
        0 <= i < d.len() && 0 <= j < d.len() && i != j implies d[i] != d[j] by {
        if i < j {
            assert(d[i] != d[j]);
        } else {
            assert(d[j] != d[i]);
        }
    }
}

/// A column with values has a vocabulary where no more than 256 of them differ,
/// and only there. It lists each value once, more frequent ones first, and
/// where two are as frequent the one that is earlier in order.
pub proof fn law_vocabularies_are_short(
    seen: Seq<Seq<char>>,
    out: Option<Seq<Seq<char>>>,
    i: int,
    j: int,
)
    requires
        is_vocabulary(seen, out),
    ensures
        out is Some <==> seen.len() > 0 && distinct(seen).len() <= 256,
        out is Some ==> forall|v: Seq<char>| #[trigger] out->0.contains(v) <==> seen.contains(v),
        out is Some && 0 <= i < j < out->0.len() ==> {
            let a = number_of(seen, out->0[i]);
            let b = number_of(seen, out->0[j]);
            a > b || (a == b && text::lex_less(out->0[i], out->0[j]))
        },
{
    if out is Some && 0 <= i < j < out->0.len() {
        law_counts_add_up(Seq::empty(), seen, out->0[i]);
        law_counts_add_up(Seq::empty(), seen, out->0[j]);
        assert(goes_before(seen, out->0[i], out->0[j]));
    }
}

} // verus!
