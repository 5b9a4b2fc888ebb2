//! Searching and selecting in sequences.
use vstd::prelude::*;
use vstd::string::*;

verus! {

/// Position of the first element that satisfies `p`.
pub open spec fn first_index<T>(s: Seq<T>, p: spec_fn(T) -> bool) -> Option<int>
    decreases s.len(),
{
    if s.len() == 0 {
        None
    } else {
        match first_index(s.drop_last(), p) {
            Some(i) => Some(i),
            None => if p(s.last()) {
                Some(s.len() - 1)
            } else {
                None
            },
        }
    }
}

/// What [`first_index`] finds.
pub proof fn lemma_first_index<T>(s: Seq<T>, p: spec_fn(T) -> bool)
    ensures
        match first_index(s, p) {
            Some(i) => 0 <= i < s.len() && p(s[i]) && forall|j: int|
                0 <= j < i ==> !p(#[trigger] s[j]),
            None => forall|j: int| 0 <= j < s.len() ==> !p(#[trigger] s[j]),
        },
    decreases s.len(),
{
    if s.len() > 0 {
        let t = s.drop_last();
        lemma_first_index(t, p);
        match first_index(t, p) {
            Some(i) => {
                assert(s[i] == t[i]);
                assert forall|j: int| 0 <= j < i implies !p(#[trigger] s[j]) by {
                    assert(!p(t[j]));
                }
            },
            None => {
                assert forall|j: int| 0 <= j < s.len() - 1 implies !p(#[trigger] s[j]) by {
                    assert(!p(t[j]));
                }
            },
        }
    }
}

/// An element that satisfies `p` and has none such before it is the first.
pub proof fn lemma_is_first<T>(s: Seq<T>, p: spec_fn(T) -> bool, i: int)
    requires
        0 <= i < s.len(),
        p(s[i]),
        forall|j: int| 0 <= j < i ==> !p(#[trigger] s[j]),
    ensures
        first_index(s, p) == Some(i),
{
    lemma_first_index(s, p);
    match first_index(s, p) {
        Some(k) => {
            if k < i {
                assert(!p(s[k]));
            } else if i < k {
                assert(!p(s[i]));
            }
        },
        None => {
            assert(!p(s[i]));
        },
    }
}

/// Where no element satisfies `p` there is no first.
pub proof fn lemma_no_first<T>(s: Seq<T>, p: spec_fn(T) -> bool)
    requires
        forall|j: int| 0 <= j < s.len() ==> !p(#[trigger] s[j]),
    ensures
        first_index(s, p) is None,
{
    lemma_first_index(s, p);
    match first_index(s, p) {
        Some(k) => {
            assert(!p(s[k]));
        },
        None => {},
    }
}

/// Positions of the elements that satisfy `p`, in order.
pub open spec fn indices_where<T>(s: Seq<T>, p: spec_fn(T) -> bool) -> Seq<int>
    decreases s.len(),
{
    if s.len() == 0 {
        Seq::empty()
    } else {
        let before = indices_where(s.drop_last(), p);
        if p(s.last()) {
            before.push(s.len() - 1)
        } else {
            before
        }
    }
}

/// Taking one element more.
pub proof fn lemma_indices_step<T>(s: Seq<T>, p: spec_fn(T) -> bool, i: int)
    requires
        0 <= i < s.len(),
    ensures
        indices_where(s.take(i + 1), p) == (if p(s[i]) {
            indices_where(s.take(i), p).push(i)
        } else {
            indices_where(s.take(i), p)
        }),
{
    assert(s.take(i + 1).drop_last() =~= s.take(i));
    assert(s.take(i + 1).last() == s[i]);
}

/// The positions found are within the sequence and satisfy `p`.
pub proof fn lemma_indices_where<T>(s: Seq<T>, p: spec_fn(T) -> bool)
    ensures
        forall|k: int|
            0 <= k < indices_where(s, p).len() ==> 0 <= #[trigger] indices_where(s, p)[k] < s.len()
                && p(s[indices_where(s, p)[k]]),
        indices_where(s, p).len() <= s.len(),
    decreases s.len(),
{
    if s.len() > 0 {
        let t = s.drop_last();
        lemma_indices_where(t, p);
        let before = indices_where(t, p);
        let all = indices_where(s, p);
        assert forall|k: int| 0 <= k < all.len() implies 0 <= #[trigger] all[k] < s.len() && p(
            s[all[k]],
        ) by {
            if k < before.len() {
                assert(all[k] == before[k]);
                assert(s[before[k]] == t[before[k]]);
            }
        }
    }
}

/// A position whose element satisfies `p` is found.
pub proof fn lemma_index_found<T>(s: Seq<T>, p: spec_fn(T) -> bool, k: int)
    requires
        0 <= k < s.len(),
        p(s[k]),
    ensures
        indices_where(s, p).contains(k),
    decreases s.len(),
{
    let t = s.drop_last();
    let before = indices_where(t, p);
    if k < t.len() {
        lemma_index_found(t, p, k);
        let j = choose|j: int| 0 <= j < before.len() && before[j] == k;
        assert(indices_where(s, p)[j] == k);
    } else {
        assert(s.last() == s[k]);
        assert(indices_where(s, p)[before.len() as int] == k);
    }
}

/// What `f` keeps of the elements, in order.
pub open spec fn kept<T, U>(s: Seq<T>, f: spec_fn(T) -> Option<U>) -> Seq<U>
    decreases s.len(),
{
    if s.len() == 0 {
        Seq::empty()
    } else {
        let before = kept(s.drop_last(), f);
        match f(s.last()) {
            Some(u) => before.push(u),
            None => before,
        }
    }
}

/// Taking one element more.
pub proof fn lemma_kept_step<T, U>(s: Seq<T>, f: spec_fn(T) -> Option<U>, i: int)
    requires
        0 <= i < s.len(),
    ensures
        kept(s.take(i + 1), f) == (match f(s[i]) {
            Some(u) => kept(s.take(i), f).push(u),
            None => kept(s.take(i), f),
        }),
{
    assert(s.take(i + 1).drop_last() =~= s.take(i));
    assert(s.take(i + 1).last() == s[i]);
}

/// The views of a list of texts.
pub open spec fn texts_view(s: Seq<String>) -> Seq<Seq<char>> {
    Seq::new(s.len(), |i: int| s[i]@)
}

/// Copies of the texts, in order.
pub fn copy_texts(s: &Vec<String>) -> (r: Vec<String>)
    ensures
        texts_view(r@) == texts_view(s@),
{
    let mut out: Vec<String> = Vec::new();
    let mut i: usize = 0;
    while i < s.len()
        invariant
            i <= s@.len(),
            out@.len() == i,
            forall|j: int| 0 <= j < i ==> (#[trigger] out@[j])@ == s@[j]@,
        decreases s@.len() - i,
    {
        out.push(s[i].clone());
        i = i + 1;
    }
    assert(texts_view(out@) =~= texts_view(s@));
    out
}

/// Indices as mathematical integers.
pub open spec fn ints(s: Seq<usize>) -> Seq<int> {
    Seq::new(s.len(), |i: int| s[i] as int)
}

/// Whether a list of indices holds `x`.
pub fn holds_index(list: &Vec<usize>, x: usize) -> (r: bool)
    ensures
        r == list@.contains(x),
{
    let mut i: usize = 0;
    while i < list.len()
        invariant
            i <= list@.len(),
            forall|j: int| 0 <= j < i ==> list@[j] != x,
        decreases list@.len() - i,
    {
        if list[i] == x {
            assert(list@[i as int] == x);
            return true;
        }
        i = i + 1;
    }
    false
}

/// The texts one after the other, with `sep` between them.
pub open spec fn joined(parts: Seq<Seq<char>>, sep: Seq<char>) -> Seq<char>
    decreases parts.len(),
{
    if parts.len() == 0 {
        Seq::empty()
    } else if parts.len() == 1 {
        parts[0]
    } else {
        joined(parts.drop_last(), sep) + sep + parts.last()
    }
}

/// Whether a text is not empty and has no dot.
pub open spec fn dot_free(s: Seq<char>) -> bool {
    s.len() > 0 && forall|i: int| 0 <= i < s.len() ==> s[i] != '.'
}

proof fn lemma_joined_not_empty(parts: Seq<Seq<char>>)
    requires
        parts.len() > 0,
        forall|i: int| 0 <= i < parts.len() ==> dot_free(#[trigger] parts[i]),
    ensures
        joined(parts, "."@).len() > 0,
{
    reveal_strlit(".");
    assert(dot_free(parts[0]));
    assert(dot_free(parts[parts.len() - 1]));
}

/// Texts without dots are told apart by what they are joined to with dots.
pub proof fn lemma_joined_injective(p: Seq<Seq<char>>, q: Seq<Seq<char>>)
    requires
        forall|i: int| 0 <= i < p.len() ==> dot_free(#[trigger] p[i]),
        forall|i: int| 0 <= i < q.len() ==> dot_free(#[trigger] q[i]),
        joined(p, "."@) == joined(q, "."@),
    ensures
        p == q,
    decreases p.len(),
{
    reveal_strlit(".");
    let dot = "."@;
    let text = joined(p, dot);
    if p.len() == 0 {
        if q.len() > 0 {
            lemma_joined_not_empty(q);
        }
        assert(p =~= q);
    } else if q.len() == 0 {
        lemma_joined_not_empty(p);
    } else if p.len() == 1 && q.len() == 1 {
        assert(p =~= q);
    } else if p.len() == 1 {
        let b = joined(q.drop_last(), dot);
        assert(text == b + dot + q.last());
        assert(text[b.len() as int] == '.');
        assert(dot_free(p[0]));
    } else if q.len() == 1 {
        let a = joined(p.drop_last(), dot);
        assert(text == a + dot + p.last());
        assert(text[a.len() as int] == '.');
        assert(dot_free(q[0]));
    } else {
        let a = joined(p.drop_last(), dot);
        let b = joined(q.drop_last(), dot);
        let x = p.last();
        let y = q.last();
        assert(dot_free(p[p.len() - 1]));
        assert(dot_free(q[q.len() - 1]));
        assert(text == a + dot + x);
        assert(text == b + dot + y);
        assert(text[a.len() as int] == '.');
        assert(text[b.len() as int] == '.');
        if a.len() < b.len() {
            assert(text[b.len() as int] == x[b.len() - a.len() - 1]);
        } else if b.len() < a.len() {
            assert(text[a.len() as int] == y[a.len() - b.len() - 1]);
        }
        assert(a =~= text.take(a.len() as int));
        assert(b =~= text.take(a.len() as int));
        assert(x =~= text.skip((a.len() + 1) as int));
        assert(y =~= text.skip((a.len() + 1) as int));
        assert forall|i: int| 0 <= i < p.drop_last().len() implies dot_free(
            #[trigger] p.drop_last()[i],
        ) by {
            assert(p.drop_last()[i] == p[i]);
        }
        assert forall|i: int| 0 <= i < q.drop_last().len() implies dot_free(
            #[trigger] q.drop_last()[i],
        ) by {
            assert(q.drop_last()[i] == q[i]);
        }
        lemma_joined_injective(p.drop_last(), q.drop_last());
        assert(p =~= p.drop_last().push(x));
        assert(q =~= q.drop_last().push(y));
    }
}

/// The texts one after the other, with `sep` between them.
pub fn join_all(parts: &Vec<String>, sep: &str) -> (r: String)
    ensures
        r@ == joined(texts_view(parts@), sep@),
{
    let ghost views = texts_view(parts@);
    if parts.len() == 0 {
        let r: String = "".to_owned();
        proof {
            reveal_strlit("");
            assert(r@ =~= Seq::<char>::empty());
        }
        return r;
    }
    let mut out: String = parts[0].clone();
    let mut i: usize = 1;
    while i < parts.len()
        invariant
            1 <= i <= parts@.len(),
            views == texts_view(parts@),
            out@ == joined(views.take(i as int), sep@),
        decreases parts@.len() - i,
    {
        proof {
            assert(views.take(i + 1).drop_last() =~= views.take(i as int));
            assert(views.take(i + 1).last() == parts@[i as int]@);
        }
        out.append(sep);
        out.append(parts[i].as_str());
        i = i + 1;
    }
    assert(views.take(views.len() as int) =~= views);
    out
}

/// Every item that is kept comes from an item of the list, and two kept items
/// stand in the order of the items that they come from.
pub proof fn kept_items_keep_their_order<T, U>(
    s: Seq<T>,
    f: spec_fn(T) -> Option<U>,
    k: int,
    l: int,
) -> (r: (int, int))
    requires
        0 <= k < l < kept(s, f).len(),
    ensures
        0 <= r.0 < r.1 < s.len(),
        f(s[r.0]) == Some(kept(s, f)[k]),
        f(s[r.1]) == Some(kept(s, f)[l]),
    decreases s.len(),
{
    let t = s.drop_last();
    let before = kept(t, f);
    if l < before.len() {
        let r = kept_items_keep_their_order(t, f, k, l);
        assert(s[r.0] == t[r.0] && s[r.1] == t[r.1]);
        r
    } else {
        let i = kept_items_come_from_the_list(t, f, k);
        assert(s[i] == t[i]);
        (i, s.len() - 1)
    }
}

/// Every item that is kept comes from an item of the list.
pub proof fn kept_items_come_from_the_list<T, U>(
    s: Seq<T>,
    f: spec_fn(T) -> Option<U>,
    k: int,
) -> (i: int)
    requires
        0 <= k < kept(s, f).len(),
    ensures
        0 <= i < s.len(),
        f(s[i]) == Some(kept(s, f)[k]),
    decreases s.len(),
{
    let t = s.drop_last();
    if k < kept(t, f).len() {
        let i = kept_items_come_from_the_list(t, f, k);
        assert(s[i] == t[i]);
        i
    } else {
        s.len() - 1
    }
}

/// No item that is to be kept is lost.
pub proof fn no_kept_item_is_lost<T, U>(s: Seq<T>, f: spec_fn(T) -> Option<U>, i: int) -> (k: int)
    requires
        0 <= i < s.len(),
        f(s[i]) is Some,
    ensures
        0 <= k < kept(s, f).len(),
        kept(s, f)[k] == f(s[i])->0,
    decreases s.len(),
{
    let t = s.drop_last();
    if i < t.len() {
        assert(s[i] == t[i]);
        no_kept_item_is_lost(t, f, i)
    } else {
        kept(t, f).len() as int
    }
}

/// The positions at which something holds stand in increasing order.
pub proof fn positions_increase<T>(s: Seq<T>, p: spec_fn(T) -> bool, k: int, l: int)
    requires
        0 <= k < l < indices_where(s, p).len(),
    ensures
        indices_where(s, p)[k] < indices_where(s, p)[l],
    decreases s.len(),
{
    let t = s.drop_last();
    lemma_indices_where(t, p);
    if l < indices_where(t, p).len() {
        positions_increase(t, p, k, l);
    }
}

} // verus!
