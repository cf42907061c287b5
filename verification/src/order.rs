//! Lexicographic order and stable sorting.
use crate::text;
use vstd::prelude::*;

verus! {

/// Whether `a` comes before `b` in lexicographic order.
pub open spec fn lex_less(a: Seq<u16>, b: Seq<u16>) -> bool
    decreases a.len(),
{
    if b.len() == 0 {
        false
    } else if a.len() == 0 {
        true
    } else if a[0] != b[0] {
        a[0] < b[0]
    } else {
        lex_less(a.drop_first(), b.drop_first())
    }
}

/// Of two sequences, one comes before the other unless they are equal.
pub proof fn lemma_lex_total(a: Seq<u16>, b: Seq<u16>)
    ensures
        lex_less(a, b) || lex_less(b, a) || a == b,
        !(lex_less(a, b) && lex_less(b, a)),
        !lex_less(a, a),
    decreases a.len(),
{
    if a.len() > 0 && b.len() > 0 && a[0] == b[0] {
        lemma_lex_total(a.drop_first(), b.drop_first());
        if a.drop_first() == b.drop_first() {
            assert(a =~= seq![a[0]] + a.drop_first());
            assert(b =~= seq![b[0]] + b.drop_first());
        }
    } else if a.len() == 0 && b.len() == 0 {
        assert(a =~= b);
    }
    if a.len() > 0 {
        lemma_lex_total(a.drop_first(), a.drop_first());
    }
}

/// The order is transitive.
pub proof fn lemma_lex_transitive(a: Seq<u16>, b: Seq<u16>, c: Seq<u16>)
    requires
        lex_less(a, b),
        lex_less(b, c),
    ensures
        lex_less(a, c),
    decreases a.len(),
{
    if a.len() > 0 && a[0] == b[0] && b[0] == c[0] {
        lemma_lex_transitive(a.drop_first(), b.drop_first(), c.drop_first());
    }
}

/// Whether `a` comes before `b` in lexicographic order.
pub fn is_lex_less(a: &Vec<u16>, b: &Vec<u16>) -> (r: bool)
    ensures
        r == lex_less(a@, b@),
{
    let mut i: usize = 0;
    assert(a@.skip(0) =~= a@);
    assert(b@.skip(0) =~= b@);
    while i < a.len() && i < b.len()
        invariant
            i <= a.len(),
            i <= b.len(),
            lex_less(a@, b@) == lex_less(a@.skip(i as int), b@.skip(i as int)),
        decreases a.len() - i,
    {
        if a[i] != b[i] {
            return a[i] < b[i];
        }
        assert(a@.skip(i as int).drop_first() =~= a@.skip(i + 1));
        assert(b@.skip(i as int).drop_first() =~= b@.skip(i + 1));
        i = i + 1;
    }
    i < b.len()
}

/// The sort key of a text: its bytes.
pub open spec fn text_key(s: Seq<char>) -> Seq<u16> {
    text::bytes(s).map_values(|b: u8| b as u16)
}

/// Whether one text is sorted before another.
pub open spec fn text_less(a: Seq<char>, b: Seq<char>) -> bool {
    lex_less(text_key(a), text_key(b))
}

/// Of two texts, one is sorted before the other unless they are equal.
pub proof fn lemma_text_total(a: Seq<char>, b: Seq<char>)
    ensures
        text_less(a, b) || text_less(b, a) || a == b,
        !(text_less(a, b) && text_less(b, a)),
        !text_less(a, a),
{
    lemma_lex_total(text_key(a), text_key(b));
    if text_key(a) == text_key(b) {
        let x = text::bytes(a);
        let y = text::bytes(b);
        assert(x.len() == text_key(a).len());
        assert forall|i: int| 0 <= i < x.len() implies x[i] == y[i] by {
            assert(text_key(a)[i] == x[i] as u16);
            assert(text_key(b)[i] == y[i] as u16);
        }
        assert(x =~= y);
        text::lemma_bytes_injective(a, b);
    }
}

/// Whether `a` is sorted before `b`.
pub fn is_text_less(a: &str, b: &str) -> (r: bool)
    ensures
        r == text_less(a@, b@),
{
    let x: &[u8] = a.as_bytes();
    let y: &[u8] = b.as_bytes();
    let ghost p = text_key(a@);
    let ghost q = text_key(b@);
    let mut i: usize = 0;
    assert(p.skip(0) =~= p);
    assert(q.skip(0) =~= q);
    while i < x.len() && i < y.len()
        invariant
            x@ == text::bytes(a@),
            y@ == text::bytes(b@),
            p == text_key(a@),
            q == text_key(b@),
            i <= x@.len(),
            i <= y@.len(),
            lex_less(p, q) == lex_less(p.skip(i as int), q.skip(i as int)),
        decreases x.len() - i,
    {
        assert(p.skip(i as int)[0] == x@[i as int] as u16);
        assert(q.skip(i as int)[0] == y@[i as int] as u16);
        if x[i] != y[i] {
            return x[i] < y[i];
        }
        assert(p.skip(i as int).drop_first() =~= p.skip(i + 1));
        assert(q.skip(i as int).drop_first() =~= q.skip(i + 1));
        i = i + 1;
    }
    i < y.len()
}

/// A sorted list with an item put in its place, unless it is there already.
pub open spec fn with_sorted(list: Seq<Seq<char>>, item: Seq<char>) -> Seq<Seq<char>>
    decreases list.len(),
{
    if list.len() == 0 {
        seq![item]
    } else if list.last() == item {
        list
    } else if text_less(list.last(), item) {
        list.push(item)
    } else {
        with_sorted(list.drop_last(), item).push(list.last())
    }
}

/// Whether a list is sorted, with nothing in it twice.
pub open spec fn strictly_sorted(list: Seq<Seq<char>>) -> bool {
    forall|i: int, j: int| 0 <= i < j < list.len() ==> text_less(#[trigger] list[i], #[trigger] list[j])
}

/// Putting an item in its place keeps a list sorted and free of repetitions,
/// and adds that item alone.
pub proof fn law_insertion_keeps_order(list: Seq<Seq<char>>, item: Seq<char>)
    requires
        strictly_sorted(list),
    ensures
        strictly_sorted(with_sorted(list, item)),
        with_sorted(list, item).contains(item),
        forall|x: Seq<char>| #[trigger]
            with_sorted(list, item).contains(x) <==> list.contains(x) || x == item,
    decreases list.len(),
{
    let r = with_sorted(list, item);
    if list.len() == 0 {
        assert(r[0] == item);
        assert forall|x: Seq<char>| #[trigger] r.contains(x) implies list.contains(x) || x == item by {}
    } else {
        let init = list.drop_last();
        let last = list.last();
        assert(list =~= init.push(last));
        assert(strictly_sorted(init)) by {
            assert forall|i: int, j: int| 0 <= i < j < init.len() implies text_less(
                #[trigger] init[i],
                #[trigger] init[j],
            ) by {
                assert(text_less(list[i], list[j]));
            }
        }
        lemma_text_total(last, item);
        if last == item {
            assert(list[list.len() - 1] == item);
        } else if text_less(last, item) {
            assert forall|i: int, j: int| 0 <= i < j < r.len() implies text_less(
                #[trigger] r[i],
                #[trigger] r[j],
            ) by {
                if j == list.len() {
                    if i < list.len() - 1 {
                        assert(text_less(list[i], list[list.len() - 1]));
                        lemma_lex_transitive(text_key(list[i]), text_key(last), text_key(item));
                    }
                } else {
                    assert(text_less(list[i], list[j]));
                }
            }
            assert(r[list.len() as int] == item);
            assert forall|x: Seq<char>| #[trigger] r.contains(x) <==> list.contains(x) || x == item by {
                if list.contains(x) {
                    let i = choose|i: int| 0 <= i < list.len() && list[i] == x;
                    assert(r[i] == x);
                }
                if r.contains(x) && x != item {
                    let i = choose|i: int| 0 <= i < r.len() && r[i] == x;
                    assert(list[i] == x);
                }
            }
        } else {
            law_insertion_keeps_order(init, item);
            let head = with_sorted(init, item);
            assert forall|i: int, j: int| 0 <= i < j < r.len() implies text_less(
                #[trigger] r[i],
                #[trigger] r[j],
            ) by {
                if j == head.len() {
                    assert(head.contains(head[i]));
                    if head[i] == item {
                    } else {
                        assert(init.contains(head[i]));
                        let k = choose|k: int| 0 <= k < init.len() && init[k] == head[i];
                        assert(text_less(list[k], list[list.len() - 1]));
                    }
                } else {
                    assert(text_less(head[i], head[j]));
                }
            }
            assert(r[head.len() as int] == last);
            assert forall|x: Seq<char>| #[trigger] r.contains(x) <==> list.contains(x) || x == item by {
                if head.contains(x) {
                    let i = choose|i: int| 0 <= i < head.len() && head[i] == x;
                    assert(r[i] == x);
                }
                if list.contains(x) && x != last {
                    let i = choose|i: int| 0 <= i < list.len() && list[i] == x;
                    assert(init[i] == x);
                    assert(init.contains(x));
                }
                if init.contains(x) {
                    let i = choose|i: int| 0 <= i < init.len() && init[i] == x;
                    assert(list[i] == x);
                }
                if r.contains(x) && x != last {
                    let i = choose|i: int| 0 <= i < r.len() && r[i] == x;
                    assert(head[i] == x);
                    assert(head.contains(x));
                }
                if x == last {
                    assert(list[list.len() - 1] == x);
                    assert(r[head.len() as int] == x);
                }
            }
            assert(r.contains(item));
        }
    }
}

/// Puts an item in its place in a sorted list, unless it is there already.
pub fn insert_sorted(list: &mut Vec<String>, item: String)
    ensures
        text::texts(final(list)@) == with_sorted(text::texts(old(list)@), item@),
{
    let ghost all = text::texts(list@);
    let mut i: usize = list.len();
    assert(all.take(i as int) =~= all);
    assert(with_sorted(all.take(i as int), item@) + all.skip(i as int) =~= with_sorted(all, item@));
    while i > 0 && is_text_less(item.as_str(), list[i - 1].as_str())
        invariant
            i <= list@.len(),
            *list == *old(list),
            all == text::texts(list@),
            with_sorted(all.take(i as int), item@) + all.skip(i as int) == with_sorted(all, item@),
        decreases i,
    {
        proof {
            let part = all.take(i as int);
            assert(part.last() == list@[i - 1]@);
            assert(part.drop_last() =~= all.take(i - 1));
            lemma_text_total(item@, part.last());
            assert(with_sorted(part, item@) == with_sorted(all.take(i - 1), item@).push(
                all[i - 1],
            ));
            assert(with_sorted(all.take(i - 1), item@) + all.skip(i - 1) =~= with_sorted(
                part,
                item@,
            ) + all.skip(i as int));
        }
        i = i - 1;
    }
    proof {
        let part = all.take(i as int);
        if i > 0 {
            assert(part.last() == list@[i - 1]@);
            lemma_text_total(item@, part.last());
        }
    }
    if i > 0 && text::same(list[i - 1].as_str(), item.as_str()) {
        assert(all.take(i as int) + all.skip(i as int) =~= all);
        return ;
    }
    let ghost given = item@;
    list.insert(i, item);
    proof {
        assert(with_sorted(all.take(i as int), given) =~= all.take(i as int).push(given));
        assert(text::texts(list@) =~= all.take(i as int).push(given) + all.skip(i as int));
    }
}

/// What an item is sorted by: a text-like key, then a number.
pub struct SortKey {
    pub major: Vec<u16>,
    pub minor: u64,
}

/// Whether the item at index `i` is sorted before the one at index `j`. Items
/// with equal keys keep their order.
pub open spec fn sorts_before(keys: Seq<SortKey>, i: int, j: int) -> bool {
    let a = keys[i];
    let b = keys[j];
    ||| lex_less(a.major@, b.major@)
    ||| a.major@ == b.major@ && a.minor < b.minor
    ||| a.major@ == b.major@ && a.minor == b.minor && i < j
}

/// Distinct indices are sorted one way or the other.
pub proof fn lemma_sorts_total(keys: Seq<SortKey>, i: int, j: int)
    ensures
        i != j ==> sorts_before(keys, i, j) || sorts_before(keys, j, i),
        !(sorts_before(keys, i, j) && sorts_before(keys, j, i)),
{
    lemma_lex_total(keys[i].major@, keys[j].major@);
}

/// The order of indices is transitive.
pub proof fn lemma_sorts_transitive(keys: Seq<SortKey>, i: int, j: int, k: int)
    requires
        sorts_before(keys, i, j),
        sorts_before(keys, j, k),
    ensures
        sorts_before(keys, i, k),
{
    let a = keys[i].major@;
    let b = keys[j].major@;
    let c = keys[k].major@;
    if lex_less(a, b) && lex_less(b, c) {
        lemma_lex_transitive(a, b, c);
    }
}

/// Whether the item at index `i` is sorted before the one at index `j`.
fn is_before(keys: &Vec<SortKey>, i: usize, j: usize) -> (r: bool)
    requires
        i < keys.len(),
        j < keys.len(),
        i != j,
    ensures
        r == sorts_before(keys@, i as int, j as int),
{
    proof {
        lemma_lex_total(keys@[i as int].major@, keys@[j as int].major@);
    }
    if is_lex_less(&keys[i].major, &keys[j].major) {
        return true;
    }
    if is_lex_less(&keys[j].major, &keys[i].major) {
        return false;
    }
    if keys[i].minor != keys[j].minor {
        return keys[i].minor < keys[j].minor;
    }
    i < j
}

/// Whether a list of indices is in sorted order.
pub open spec fn in_order(keys: Seq<SortKey>, list: Seq<usize>) -> bool {
    forall|a: int, b: int|
        0 <= a < b < list.len() ==> sorts_before(
            keys,
            #[trigger] list[a] as int,
            #[trigger] list[b] as int,
        )
}

/// Whether a list holds each index of a range once.
pub open spec fn covers(list: Seq<usize>, from: int, to: int) -> bool {
    &&& list.len() == to - from
    &&& forall|a: int| 0 <= a < list.len() ==> from <= (#[trigger] list[a]) < to
    &&& list.no_duplicates()
}

/// A list that holds each index of a range once leaves none out.
pub proof fn lemma_covers_all(list: Seq<usize>, n: int, v: int)
    requires
        covers(list, 0, n),
        0 <= v < n,
    ensures
        exists|p: int| 0 <= p < list.len() && #[trigger] list[p] == v,
{
    let wide = list.map_values(|x: usize| x as int);
    assert(wide.no_duplicates()) by {
        assert forall|i: int, j: int| 0 <= i < wide.len() && 0 <= j < wide.len() && i != j implies wide[i]
            != wide[j] by {
            assert(list[i] != list[j]);
        }
    }
    wide.unique_seq_to_set();
    vstd::set_lib::lemma_int_range(0, n);
    let range = vstd::set_lib::set_int_range(0, n);
    assert(wide.to_set().subset_of(range)) by {
        assert forall|x: int| wide.to_set().contains(x) implies range.contains(x) by {
            let i = choose|i: int| 0 <= i < wide.len() && wide[i] == x;
            assert(0 <= list[i] < n);
        }
    }
    vstd::set_lib::lemma_len_subset(wide.to_set(), range);
    vstd::set_lib::lemma_subset_equality(wide.to_set(), range);
    assert(wide.to_set().contains(v));
    let p = choose|p: int| 0 <= p < wide.len() && wide[p] == v;
    assert(list[p] == v);
}

/// The sorted merge of two sorted lists over neighbouring ranges.
fn merge(
    keys: &Vec<SortKey>,
    left: Vec<usize>,
    right: Vec<usize>,
    Ghost(from): Ghost<int>,
    Ghost(mid): Ghost<int>,
    Ghost(to): Ghost<int>,
) -> (r: Vec<usize>)
    requires
        0 <= from <= mid <= to <= keys.len(),
        covers(left@, from, mid),
        covers(right@, mid, to),
        in_order(keys@, left@),
        in_order(keys@, right@),
    ensures
        covers(r@, from, to),
        in_order(keys@, r@),
{
    let mut out: Vec<usize> = Vec::new();
    let mut i: usize = 0;
    let mut j: usize = 0;
    while i < left.len() || j < right.len()
        invariant
            0 <= from <= mid <= to <= keys.len(),
            covers(left@, from, mid),
            covers(right@, mid, to),
            in_order(keys@, left@),
            in_order(keys@, right@),
            i <= left.len(),
            j <= right.len(),
            out.len() == i + j,
            in_order(keys@, out@),
            out@.no_duplicates(),
            forall|a: int|
                0 <= a < out.len() ==> {
                    ||| exists|b: int| 0 <= b < i && #[trigger] left@[b] == #[trigger] out@[a]
                    ||| exists|b: int| 0 <= b < j && #[trigger] right@[b] == #[trigger] out@[a]
                },
            forall|a: int, b: int|
                0 <= a < out.len() && i <= b < left.len() ==> sorts_before(
                    keys@,
                    #[trigger] out@[a] as int,
                    #[trigger] left@[b] as int,
                ),
            forall|a: int, b: int|
                0 <= a < out.len() && j <= b < right.len() ==> sorts_before(
                    keys@,
                    #[trigger] out@[a] as int,
                    #[trigger] right@[b] as int,
                ),
        decreases left.len() - i + right.len() - j,
    {
        let take_left: bool = if i == left.len() {
            false
        } else if j == right.len() {
            true
        } else {
            is_before(keys, left[i], right[j])
        };
        if take_left {
            let next: usize = left[i];
            proof {
                lemma_append(keys@, out@, next, left@, i as int, right@, j as int);
            }
            out.push(next);
            i = i + 1;
        } else {
            let next: usize = right[j];
            proof {
                if i < left.len() {
                    lemma_sorts_total(keys@, left@[i as int] as int, right@[j as int] as int);
                }
                lemma_append(keys@, out@, next, right@, j as int, left@, i as int);
            }
            out.push(next);
            j = j + 1;
        }
    }
    proof {
        assert forall|a: int| 0 <= a < out.len() implies from <= (#[trigger] out@[a]) < to by {
            if exists|b: int| 0 <= b < i && #[trigger] left@[b] == out@[a] {
                let b = choose|b: int| 0 <= b < i && #[trigger] left@[b] == out@[a];
                assert(from <= left@[b] < mid);
            } else {
                let b = choose|b: int| 0 <= b < j && #[trigger] right@[b] == out@[a];
                assert(mid <= right@[b] < to);
            }
        }
    }
    out
}

/// Appending the least remaining index keeps a partial merge sorted.
proof fn lemma_append(
    keys: Seq<SortKey>,
    out: Seq<usize>,
    next: usize,
    own: Seq<usize>,
    i: int,
    other: Seq<usize>,
    j: int,
)
    requires
        0 <= i < own.len(),
        0 <= j <= other.len(),
        own[i] == next,
        in_order(keys, out),
        out.no_duplicates(),
        in_order(keys, own),
        in_order(keys, other),
        forall|a: int, b: int|
            0 <= a < out.len() && i <= b < own.len() ==> sorts_before(
                keys,
                #[trigger] out[a] as int,
                #[trigger] own[b] as int,
            ),
        forall|a: int, b: int|
            0 <= a < out.len() && j <= b < other.len() ==> sorts_before(
                keys,
                #[trigger] out[a] as int,
                #[trigger] other[b] as int,
            ),
        j < other.len() ==> sorts_before(keys, next as int, other[j] as int),
    ensures
        in_order(keys, out.push(next)),
        out.push(next).no_duplicates(),
        forall|a: int, b: int|
            0 <= a < out.len() + 1 && i < b < own.len() ==> sorts_before(
                keys,
                #[trigger] out.push(next)[a] as int,
                #[trigger] own[b] as int,
            ),
        forall|a: int, b: int|
            0 <= a < out.len() + 1 && j <= b < other.len() ==> sorts_before(
                keys,
                #[trigger] out.push(next)[a] as int,
                #[trigger] other[b] as int,
            ),
{
    let all = out.push(next);
    assert forall|a: int| 0 <= a < out.len() implies sorts_before(
        keys,
        #[trigger] out[a] as int,
        next as int,
    ) by {
        assert(own[i] == next);
    }
    assert forall|a: int| 0 <= a < out.len() implies #[trigger] out[a] != next by {
        lemma_sorts_total(keys, out[a] as int, next as int);
        assert(sorts_before(keys, out[a] as int, next as int));
    }
    assert forall|b: int| j <= b < other.len() implies sorts_before(
        keys,
        next as int,
        #[trigger] other[b] as int,
    ) by {
        if b > j {
            assert(sorts_before(keys, other[j] as int, other[b] as int));
            lemma_sorts_transitive(keys, next as int, other[j] as int, other[b] as int);
        }
    }
}

/// The indices from `from` to `to`, sorted.
fn sort_range(keys: &Vec<SortKey>, from: usize, to: usize) -> (r: Vec<usize>)
    requires
        from <= to <= keys.len(),
    ensures
        covers(r@, from as int, to as int),
        in_order(keys@, r@),
    decreases to - from,
{
    if to - from == 0 {
        return Vec::new();
    }
    if to - from == 1 {
        let mut single: Vec<usize> = Vec::new();
        single.push(from);
        return single;
    }
    let mid: usize = from + (to - from) / 2;
    let left: Vec<usize> = sort_range(keys, from, mid);
    let right: Vec<usize> = sort_range(keys, mid, to);
    merge(keys, left, right, Ghost(from as int), Ghost(mid as int), Ghost(to as int))
}

/// The indices of all items, in the order of a stable sort by key.
pub fn sorted_indices(keys: &Vec<SortKey>) -> (r: Vec<usize>)
    ensures
        covers(r@, 0, keys.len() as int),
        in_order(keys@, r@),
{
    sort_range(keys, 0, keys.len())
}

/// Two keys are in the order of the first place where they differ, and a key
/// comes before those that go on from it.
pub proof fn law_the_first_difference_decides(
    start: Seq<u16>,
    a: u16,
    b: u16,
    left: Seq<u16>,
    right: Seq<u16>,
)
    ensures
        a < b ==> lex_less(start + (seq![a] + left), start + (seq![b] + right)),
        lex_less(start, start + (seq![b] + right)),
        !lex_less(start + right, start),
    decreases start.len(),
{
    let x = start + (seq![a] + left);
    let y = start + (seq![b] + right);
    if start.len() == 0 {
        assert(x[0] == a && y[0] == b);
        assert(start + right =~= right);
    } else {
        law_the_first_difference_decides(start.drop_first(), a, b, left, right);
        assert(x.drop_first() =~= start.drop_first() + (seq![a] + left));
        assert(y.drop_first() =~= start.drop_first() + (seq![b] + right));
        assert((start + right).drop_first() =~= start.drop_first() + right);
        assert(x[0] == start[0] && y[0] == start[0]);
    }
}

/// Texts are ordered by their bytes.
pub proof fn law_texts_are_ordered_by_their_bytes(a: Seq<char>, b: Seq<char>, k: int)
    requires
        0 <= k < text::bytes(a).len(),
        0 <= k < text::bytes(b).len(),
        text::bytes(a).take(k) == text::bytes(b).take(k),
        text::bytes(a)[k] < text::bytes(b)[k],
    ensures
        text_less(a, b),
        !text_less(b, a),
{
    let x = text_key(a);
    let y = text_key(b);
    assert(x.take(k) =~= text::bytes(a).take(k).map_values(|c: u8| c as u16));
    assert(y.take(k) =~= text::bytes(b).take(k).map_values(|c: u8| c as u16));
    law_the_first_difference_decides(x.take(k), x[k], y[k], x.skip(k + 1), y.skip(k + 1));
    assert(x =~= x.take(k) + (seq![x[k]] + x.skip(k + 1)));
    assert(y =~= x.take(k) + (seq![y[k]] + y.skip(k + 1)));
    lemma_lex_total(x, y);
}

} // verus!
