//! File paths, as UTF-8 text with `/` between their components.
use crate::lines;
use crate::order;
use crate::text;
use crate::text::texts;
use vstd::prelude::*;

verus! {

/// The parts of a path between slashes.
pub open spec fn segments(path: Seq<u8>) -> Seq<Seq<u8>>
    decreases path.len(),
{
    if path.len() == 0 {
        seq![Seq::empty()]
    } else {
        let init = segments(path.drop_last());
        if path.last() == 47 {
            init.push(Seq::empty())
        } else {
            init.drop_last().push(init.last().push(path.last()))
        }
    }
}

/// The sort key of a segment. Empty segments do not count, nor does `.`
/// unless it leads the path; `.` is sorted before `..`, and that before names.
pub open spec fn segment_key(segment: Seq<u8>, leading: bool) -> Seq<u16> {
    if segment.len() == 0 {
        Seq::empty()
    } else if segment == seq![46u8] {
        if leading {
            seq![1u16, 0u16]
        } else {
            Seq::empty()
        }
    } else if segment == seq![46u8, 46u8] {
        seq![2u16, 0u16]
    } else {
        seq![3u16] + segment.map_values(|b: u8| (b + 1) as u16) + seq![0u16]
    }
}

/// The sort keys of the segments of a path in a row.
pub open spec fn segments_key(list: Seq<Seq<u8>>) -> Seq<u16>
    decreases list.len(),
{
    if list.len() == 0 {
        Seq::empty()
    } else {
        segments_key(list.drop_last()) + segment_key(list.last(), list.len() == 1)
    }
}

/// The sort key of a path. Paths are sorted component by component, an
/// absolute path before a relative one.
pub open spec fn path_key(path: Seq<char>) -> Seq<u16> {
    let b = text::bytes(path);
    let root = if b.len() > 0 && b[0] == 47 {
        seq![0u16, 0u16]
    } else {
        Seq::empty()
    };
    root + segments_key(segments(b))
}

/// Whether two paths name the same components.
pub open spec fn same_path(a: Seq<char>, b: Seq<char>) -> bool {
    path_key(a) == path_key(b)
}

/// Whether one path is sorted before another.
pub open spec fn path_less(a: Seq<char>, b: Seq<char>) -> bool {
    order::lex_less(path_key(a), path_key(b))
}

/// Appends the sort key of a segment.
fn push_segment_key(segment: &Vec<u8>, leading: bool, out: &mut Vec<u16>)
    ensures
        final(out)@ == old(out)@ + segment_key(segment@, leading),
{
    if segment.len() == 0 {
        assert(out@ =~= old(out)@ + segment_key(segment@, leading));
        return ;
    }
    if segment.len() == 1 && segment[0] == 46 {
        assert(segment@ =~= seq![46u8]);
        if leading {
            out.push(1);
            out.push(0);
        }
        assert(out@ =~= old(out)@ + segment_key(segment@, leading));
        return ;
    }
    if segment.len() == 2 && segment[0] == 46 && segment[1] == 46 {
        assert(segment@ =~= seq![46u8, 46u8]);
        out.push(2);
        out.push(0);
        assert(out@ =~= old(out)@ + segment_key(segment@, leading));
        return ;
    }
    proof {
        assert(segment@ != seq![46u8]);
        assert(segment@ != seq![46u8, 46u8]);
    }
    out.push(3);
    let mut i: usize = 0;
    while i < segment.len()
        invariant
            i <= segment.len(),
            out@ == old(out)@ + seq![3u16] + segment@.take(i as int).map_values(
                |b: u8| (b + 1) as u16,
            ),
        decreases segment.len() - i,
    {
        out.push(segment[i] as u16 + 1);
        assert(segment@.take(i + 1).map_values(|b: u8| (b + 1) as u16) =~= segment@.take(
            i as int,
        ).map_values(|b: u8| (b + 1) as u16).push((segment@[i as int] + 1) as u16));
        assert(out@ =~= old(out)@ + seq![3u16] + segment@.take(i + 1).map_values(
            |b: u8| (b + 1) as u16,
        ));
        i = i + 1;
    }
    out.push(0);
    assert(segment@.take(i as int) =~= segment@);
    assert(out@ =~= old(out)@ + segment_key(segment@, leading));
}

/// The sort key of a path.
pub fn sort_key(path: &str) -> (r: Vec<u16>)
    ensures
        r@ == path_key(path@),
{
    let b: &[u8] = path.as_bytes();
    let total: usize = b.len();
    let mut key: Vec<u16> = Vec::new();
    if total > 0 && b[0] == 47 {
        key.push(0);
        key.push(0);
    }
    let ghost root = key@;
    let mut segment: Vec<u8> = Vec::new();
    let mut leading: bool = true;
    let mut i: usize = 0;
    assert(b@.take(0) =~= Seq::<u8>::empty());
    assert(segments(b@.take(0)).drop_last() =~= Seq::empty());
    assert(key@ =~= root + segments_key(segments(b@.take(0)).drop_last()));
    assert(segment@ =~= segments(b@.take(0)).last());
    while i < total
        invariant
            i <= total,
            total == b@.len(),
            segments(b@.take(i as int)).len() >= 1,
            key@ == root + segments_key(segments(b@.take(i as int)).drop_last()),
            segment@ == segments(b@.take(i as int)).last(),
            leading == (segments(b@.take(i as int)).len() == 1),
        decreases total - i,
    {
        let ghost before = segments(b@.take(i as int));
        let ghost after = segments(b@.take(i + 1));
        assert(b@.take(i + 1).drop_last() =~= b@.take(i as int));
        let c: u8 = b[i];
        if c == 47 {
            push_segment_key(&segment, leading, &mut key);
            segment = Vec::new();
            leading = false;
            proof {
                assert(after.drop_last() =~= before);
                assert(key@ =~= root + segments_key(before));
                assert(segment@ =~= after.last());
            }
        } else {
            segment.push(c);
            assert(after.drop_last() =~= before.drop_last());
        }
        i = i + 1;
    }
    assert(b@.take(i as int) =~= b@);
    push_segment_key(&segment, leading, &mut key);
    assert(key@ =~= root + segments_key(segments(b@)));
    assert(root =~= if text::bytes(path@).len() > 0 && text::bytes(path@)[0] == 47 {
        seq![0u16, 0u16]
    } else {
        Seq::<u16>::empty()
    });
    key
}

/// Whether a path stands in a list, with no path of its components before it.
pub open spec fn leads(list: Seq<String>, path: Seq<char>) -> bool {
    exists|k: int| #[trigger] is_first(list, k) && list[k]@ == path
}

/// Whether the list has a path at index `k`, and none of its components before.
pub open spec fn is_first(list: Seq<String>, k: int) -> bool {
    &&& 0 <= k < list.len()
    &&& forall|m: int| 0 <= m < k ==> !same_path(#[trigger] list[m]@, list[k]@)
}

/// Whether a list has a path with the components of `path`.
pub open spec fn lists(list: Seq<String>, path: Seq<char>) -> bool {
    exists|i: int| 0 <= i < list.len() && same_path(#[trigger] list[i]@, path)
}

/// Whether `r` lists the paths of `list` in order, each once. Of paths with
/// the same components the first stays.
pub open spec fn sorted_once(list: Seq<String>, r: Seq<String>) -> bool {
    &&& forall|i: int, j: int| 0 <= i < j < r.len() ==> path_less(#[trigger] r[i]@, #[trigger] r[j]@)
    &&& forall|i: int| 0 <= i < r.len() ==> leads(list, #[trigger] r[i]@)
    &&& forall|k: int| 0 <= k < list.len() ==> lists(r, #[trigger] list[k]@)
}

/// The sort keys of a list of paths.
pub fn sort_keys(list: &[String]) -> (r: Vec<order::SortKey>)
    ensures
        r@.len() == list@.len(),
        forall|i: int|
            0 <= i < r@.len() ==> (#[trigger] r@[i]).major@ == path_key(list@[i]@) && r@[i].minor == 0,
{
    let mut keys: Vec<order::SortKey> = Vec::new();
    let mut i: usize = 0;
    while i < list.len()
        invariant
            i <= list@.len(),
            keys@.len() == i,
            forall|j: int|
                0 <= j < i ==> (#[trigger] keys@[j]).major@ == path_key(list@[j]@) && keys@[j].minor
                    == 0,
        decreases list.len() - i,
    {
        keys.push(order::SortKey { major: sort_key(list[i].as_str()), minor: 0 });
        i = i + 1;
    }
    keys
}

/// Between two sorted paths with the same components there is none with others.
proof fn lemma_no_other_between(keys: Seq<order::SortKey>, order: Seq<usize>, a: int, b: int, c: int)
    requires
        order::in_order(keys, order),
        0 <= a <= b <= c < order.len(),
        keys[order[a] as int].major@ == keys[order[c] as int].major@,
    ensures
        keys[order[b] as int].major@ == keys[order[c] as int].major@,
{
    let x = keys[order[a] as int].major@;
    let y = keys[order[b] as int].major@;
    order::lemma_lex_total(x, y);
    if a < b {
        assert(order::sorts_before(keys, order[a] as int, order[b] as int));
    }
    if b < c {
        assert(order::sorts_before(keys, order[b] as int, order[c] as int));
    }
}

/// The paths of a list in order, each once.
pub fn sort_paths(list: &[String]) -> (r: Vec<String>)
    ensures
        sorted_once(list@, r@),
{
    let keys: Vec<order::SortKey> = sort_keys(list);
    let order: Vec<usize> = order::sorted_indices(&keys);
    let mut r: Vec<String> = Vec::new();
    let ghost mut from: Seq<int> = Seq::empty();
    let mut i: usize = 0;
    while i < order.len()
        invariant
            i <= order.len(),
            keys@.len() == list@.len(),
            forall|j: int|
                0 <= j < keys@.len() ==> (#[trigger] keys@[j]).major@ == path_key(list@[j]@)
                    && keys@[j].minor == 0,
            order::covers(order@, 0, list@.len() as int),
            order::in_order(keys@, order@),
            from.len() == r@.len(),
            forall|j: int|
                0 <= j < from.len() ==> 0 <= #[trigger] from[j] < i && list@[order@[from[j]] as int]@
                    == r@[j]@ && is_first(list@, order@[from[j]] as int),
            forall|j: int, k: int|
                0 <= j < k < from.len() ==> #[trigger] from[j] < #[trigger] from[k] && path_less(
                    r@[j]@,
                    r@[k]@,
                ),
            forall|p: int| 0 <= p < i ==> lists(r@, list@[#[trigger] order@[p] as int]@),
            i > 0 ==> r@.len() > 0 && same_path(list@[order@[i - 1] as int]@, r@.last()@),
        decreases order.len() - i,
    {
        let k: usize = order[i];
        let fresh: bool = i == 0 || order::is_lex_less(&keys[order[i - 1]].major, &keys[k].major);
        let ghost old_r = r@;
        proof {
            if i > 0 {
                assert(order::sorts_before(keys@, order@[i - 1] as int, order@[i as int] as int));
                order::lemma_lex_total(
                    keys@[order@[i - 1] as int].major@,
                    keys@[order@[i as int] as int].major@,
                );
            }
        }
        if fresh {
            r.push(list[k].clone());
            proof {
                assert forall|m: int| 0 <= m < k implies !same_path(
                    #[trigger] list@[m]@,
                    list@[k as int]@,
                ) by {
                    if same_path(list@[m]@, list@[k as int]@) {
                        order::lemma_covers_all(order@, list@.len() as int, m);
                        let q = choose|q: int| 0 <= q < order@.len() && #[trigger] order@[q] == m;
                        order::lemma_sorts_total(keys@, m, k as int);
                        assert(order::sorts_before(keys@, m, k as int));
                        if q > i {
                            assert(order::sorts_before(
                                keys@,
                                order@[i as int] as int,
                                order@[q] as int,
                            ));
                        }
                        assert(q < i);
                        lemma_no_other_between(keys@, order@, q, i - 1, i as int);
                        order::lemma_lex_total(keys@[k as int].major@, keys@[k as int].major@);
                        assert(false);
                    }
                }
                assert forall|j: int| 0 <= j < from.len() implies path_less(
                    #[trigger] r@[j]@,
                    list@[k as int]@,
                ) by {
                    let a = from[j];
                    assert(order::sorts_before(keys@, order@[a] as int, order@[i as int] as int));
                    if keys@[order@[a] as int].major@ == keys@[k as int].major@ {
                        lemma_no_other_between(keys@, order@, a, i - 1, i as int);
                        order::lemma_lex_total(keys@[k as int].major@, keys@[k as int].major@);
                    }
                }
                from = from.push(i as int);
            }
        }
        proof {
            assert forall|p: int| 0 <= p < i + 1 implies lists(
                r@,
                list@[#[trigger] order@[p] as int]@,
            ) by {
                if p < i {
                    let path = list@[order@[p] as int]@;
                    assert(lists(old_r, path));
                    let j = choose|j: int|
                        0 <= j < old_r.len() && same_path(#[trigger] old_r[j]@, path);
                    assert(r@[j] == old_r[j]);
                } else {
                    assert(same_path(r@[r@.len() - 1]@, list@[order@[p] as int]@));
                }
            }
        }
        i = i + 1;
    }
    proof {
        assert forall|k: int| 0 <= k < list@.len() implies lists(r@, #[trigger] list@[k]@) by {
            order::lemma_covers_all(order@, list@.len() as int, k);
            let p = choose|p: int| 0 <= p < order@.len() && #[trigger] order@[p] == k;
            assert(lists(r@, list@[order@[p] as int]@));
        }
        assert forall|i: int| 0 <= i < r@.len() implies leads(list@, #[trigger] r@[i]@) by {
            assert(is_first(list@, order@[from[i]] as int));
        }
        assert forall|i: int, j: int| 0 <= i < j < r@.len() implies path_less(
            #[trigger] r@[i]@,
            #[trigger] r@[j]@,
        ) by {
            assert(from[i] < from[j]);
        }
    }
    r
}

/// Whether a path is absolute, which is to start with `/`. A drive letter does
/// not make it so.
pub open spec fn absolute(path: Seq<char>) -> bool {
    path.len() > 0 && path[0] == '/'
}

/// A path seen from a base directory.
pub open spec fn joined(base: Seq<char>, path: Seq<char>) -> Seq<char> {
    if absolute(path) || base.len() == 0 {
        path
    } else if base.last() == '/' {
        base + path
    } else {
        base.push('/') + path
    }
}

/// Whether a path is absolute, which is to start with `/`. A drive letter does
/// not make it so.
pub fn is_absolute(path: &str) -> (r: bool)
    ensures
        r == absolute(path@),
{
    path.unicode_len() > 0 && path.get_char(0) == '/'
}

/// A path seen from a base directory. An absolute path stays as it is.
pub fn join(base: &str, path: &str) -> (r: String)
    ensures
        r@ == joined(base@, path@),
{
    let total: usize = base.unicode_len();
    if is_absolute(path) || total == 0 {
        return path.to_owned();
    }
    let mut out: String = base.to_owned();
    if base.get_char(total - 1) != '/' {
        out.push('/');
    }
    out.append(path);
    out
}

/// The pieces of a path that name something. Empty pieces do not count, nor
/// does `.` unless it leads a relative path.
pub open spec fn named_pieces(pieces: Seq<Seq<char>>, relative: bool) -> Seq<Seq<char>>
    decreases pieces.len(),
{
    if pieces.len() == 0 {
        Seq::empty()
    } else {
        let init = named_pieces(pieces.drop_last(), relative);
        let last = pieces.last();
        if last.len() == 0 || (last == "."@ && !(relative && pieces.len() == 1)) {
            init
        } else {
            init.push(last)
        }
    }
}

/// The components of a path; that of the root directory is `/`.
pub open spec fn components(path: Seq<char>) -> Seq<Seq<char>> {
    let named = named_pieces(lines::split(path, '/'), !absolute(path));
    if absolute(path) {
        seq!["/"@] + named
    } else {
        named
    }
}

/// The components of a path.
pub fn split_components(path: &str) -> (r: Vec<String>)
    ensures
        texts(r@) == components(path@),
{
    let relative: bool = !is_absolute(path);
    let mut out: Vec<String> = Vec::new();
    if !relative {
        out.push("/".to_owned());
    }
    let ghost root = texts(out@);
    let pieces: Vec<String> = lines::split_text(path, '/');
    let ghost all = texts(pieces@);
    let mut i: usize = 0;
    assert(texts(out@) =~= root + named_pieces(all.take(0), relative));
    while i < pieces.len()
        invariant
            i <= pieces@.len(),
            all == texts(pieces@),
            texts(out@) == root + named_pieces(all.take(i as int), relative),
        decreases pieces.len() - i,
    {
        let ghost next = all.take(i + 1);
        let ghost before = out@;
        assert(next.drop_last() =~= all.take(i as int));
        assert(next.last() == pieces@[i as int]@);
        let piece: &str = pieces[i].as_str();
        let skipped: bool = piece.unicode_len() == 0 || (text::same(piece, ".") && !(relative && i
            == 0));
        if !skipped {
            out.push(pieces[i].clone());
            assert(texts(out@) =~= texts(before).push(next.last()));
        }
        assert(texts(out@) =~= root + named_pieces(next, relative));
        i = i + 1;
    }
    assert(all.take(i as int) =~= all);
    assert(root =~= if relative {
        Seq::empty()
    } else {
        seq!["/"@]
    });
    assert(texts(out@) =~= components(path@));
    out
}

/// A path without a base, when it lies below the base; else the path itself.
pub open spec fn below(base: Seq<Seq<char>>, path: Seq<Seq<char>>) -> Seq<Seq<char>> {
    if base.len() <= path.len() && path.take(base.len() as int) == base {
        path.skip(base.len() as int)
    } else {
        path
    }
}

/// A path without a base, when it lies below the base; else the path itself.
pub fn strip_base(base: &Vec<String>, path: Vec<String>) -> (r: Vec<String>)
    ensures
        texts(r@) == below(texts(base@), texts(path@)),
{
    let ghost b = texts(base@);
    let ghost p = texts(path@);
    if base.len() > path.len() {
        return path;
    }
    let mut i: usize = 0;
    while i < base.len()
        invariant
            i <= base@.len() <= path@.len(),
            b == texts(base@),
            p == texts(path@),
            forall|j: int| 0 <= j < i ==> #[trigger] p[j] == b[j],
        decreases base.len() - i,
    {
        if !text::same(base[i].as_str(), path[i].as_str()) {
            proof {
                assert(p.take(b.len() as int)[i as int] == p[i as int]);
                assert(p[i as int] != b[i as int]);
            }
            return path;
        }
        assert(p[i as int] == b[i as int]);
        i = i + 1;
    }
    assert(p.take(b.len() as int) =~= b);
    let mut out: Vec<String> = Vec::new();
    let mut k: usize = base.len();
    assert(texts(out@) =~= p.subrange(b.len() as int, k as int));
    while k < path.len()
        invariant
            b.len() <= k <= path@.len(),
            p == texts(path@),
            texts(out@) == p.subrange(b.len() as int, k as int),
        decreases path.len() - k,
    {
        let ghost before = out@;
        out.push(path[k].clone());
        assert(texts(out@) =~= texts(before).push(p[k as int]));
        assert(texts(out@) =~= p.subrange(b.len() as int, k + 1));
        k = k + 1;
    }
    assert(p.subrange(b.len() as int, k as int) =~= p.skip(b.len() as int));
    out
}

/// The last dot of a name, or -1.
pub open spec fn last_dot(name: Seq<char>) -> int
    decreases name.len(),
{
    if name.len() == 0 {
        -1
    } else if name.last() == '.' {
        name.len() - 1
    } else {
        last_dot(name.drop_last())
    }
}

/// A file name without its extension. A leading dot does not start one.
pub open spec fn stem(name: Seq<char>) -> Seq<char> {
    if last_dot(name) <= 0 || name == ".."@ {
        name
    } else {
        name.take(last_dot(name))
    }
}

/// The extension of a file name.
pub open spec fn extension(name: Seq<char>) -> Option<Seq<char>> {
    if last_dot(name) <= 0 || name == ".."@ {
        None
    } else {
        Some(name.skip(last_dot(name) + 1))
    }
}

/// Where the stem of a file name ends, and whether an extension follows.
fn find_stem(name: &str, list: &Vec<char>) -> (r: (usize, bool))
    requires
        list@ == name@,
    ensures
        r.0 <= list@.len(),
        r.1 == (extension(name@) is Some),
        r.1 ==> r.0 == last_dot(name@) && r.0 < list@.len(),
        !r.1 ==> r.0 == list@.len(),
{
    let total: usize = list.len();
    if text::same(name, "..") {
        return (total, false);
    }
    let mut i: usize = total;
    assert(list@.take(i as int) =~= list@);
    while i > 0
        invariant
            i <= total,
            total == list@.len(),
            list@ == name@,
            name@ != ".."@,
            last_dot(name@) == last_dot(list@.take(i as int)),
        decreases i,
    {
        assert(list@.take(i as int).drop_last() =~= list@.take(i - 1));
        if list[i - 1] == '.' {
            if i == 1 {
                return (total, false);
            }
            return (i - 1, true);
        }
        i = i - 1;
    }
    (total, false)
}

/// A file name without its extension.
pub fn file_stem(name: &str) -> (r: String)
    ensures
        r@ == stem(name@),
{
    let list: Vec<char> = lines::chars(name);
    let (end, _) = find_stem(name, &list);
    let out: String = lines::text_of(&list, 0, end);
    assert(list@.subrange(0, end as int) =~= name@.take(end as int));
    assert(name@.take(name@.len() as int) =~= name@);
    out
}

/// Whether a file name has the given extension.
pub fn has_extension(name: &str, wanted: &str) -> (r: bool)
    ensures
        r == (extension(name@) == Some(wanted@)),
{
    let list: Vec<char> = lines::chars(name);
    let (end, found) = find_stem(name, &list);
    if !found {
        return false;
    }
    let total: usize = list.len();
    let tail: String = lines::text_of(&list, end + 1, total);
    assert(tail@ =~= name@.skip(end + 1));
    text::same(tail.as_str(), wanted)
}

/// A path without separators and `.` components at its end.
pub open spec fn trimmed(path: Seq<char>) -> Seq<char>
    decreases path.len(),
{
    if path.len() > 1 && (path.last() == '/' || path.last() == '.' && path[path.len() - 2] == '/') {
        trimmed(path.drop_last())
    } else {
        path
    }
}

/// The index behind the last separator, and 0 where there is none.
pub open spec fn name_start(path: Seq<char>) -> int
    decreases path.len(),
{
    if path.len() == 0 {
        0
    } else if path.last() == '/' {
        path.len() as int
    } else {
        name_start(path.drop_last())
    }
}

/// The directory that holds the last component of a path. A root and an
/// empty path have none.
pub open spec fn parent_of(path: Seq<char>) -> Option<Seq<char>> {
    let p = trimmed(path);
    if p.len() == 0 || p == seq!['/'] {
        None
    } else {
        Some(trimmed(p.take(name_start(p))))
    }
}

/// The length of a path without separators and `.` components at its end.
fn find_trimmed(list: &Vec<char>, end: usize) -> (r: usize)
    requires
        end <= list@.len(),
    ensures
        r <= end,
        list@.take(r as int) == trimmed(list@.take(end as int)),
{
    let mut n: usize = end;
    while n > 1 && (list[n - 1] == '/' || list[n - 1] == '.' && list[n - 2] == '/')
        invariant
            n <= end <= list@.len(),
            trimmed(list@.take(n as int)) == trimmed(list@.take(end as int)),
        decreases n,
    {
        assert(list@.take(n as int).drop_last() =~= list@.take(n - 1));
        n = n - 1;
    }
    n
}

/// The directory that holds the last component of a path.
pub fn parent(path: &str) -> (r: Option<String>)
    ensures
        match parent_of(path@) {
            Some(dir) => r matches Some(s) && s@ == dir,
            None => r is None,
        },
{
    let list: Vec<char> = lines::chars(path);
    assert(list@.take(list@.len() as int) =~= path@);
    let end: usize = find_trimmed(&list, list.len());
    let ghost p = list@.take(end as int);
    if end == 0 {
        return None;
    }
    if end == 1 && list[0] == '/' {
        assert(p =~= seq!['/']);
        return None;
    }
    assert(p != seq!['/']) by {
        if p == seq!['/'] {
            assert(p.len() == 1 && p[0] == '/');
        }
    }
    let mut start: usize = end;
    while start > 0 && list[start - 1] != '/'
        invariant
            start <= end <= list@.len(),
            p == list@.take(end as int),
            name_start(list@.take(start as int)) == name_start(p),
        decreases start,
    {
        assert(list@.take(start as int).drop_last() =~= list@.take(start - 1));
        start = start - 1;
    }
    assert(name_start(p) == start);
    assert(p.take(start as int) =~= list@.take(start as int));
    let n: usize = find_trimmed(&list, start);
    let out: String = lines::text_of(&list, 0, n);
    assert(list@.subrange(0, n as int) =~= list@.take(n as int));
    Some(out)
}

/// Whether two path keys are the same.
pub(crate) fn same_key(a: &Vec<u16>, b: &Vec<u16>) -> (r: bool)
    ensures
        r == (a@ == b@),
{
    if a.len() != b.len() {
        return false;
    }
    let mut i: usize = 0;
    while i < a.len()
        invariant
            i <= a@.len(),
            a@.len() == b@.len(),
            forall|j: int| 0 <= j < i ==> a@[j] == b@[j],
        decreases a.len() - i,
    {
        if a[i] != b[i] {
            return false;
        }
        i = i + 1;
    }
    assert(a@ =~= b@);
    true
}

/// The segments of a path that count: all that are not empty, and of those that
/// are a dot only one at the very start.
pub open spec fn named_segments(list: Seq<Seq<u8>>) -> Seq<Seq<u8>> {
    let first = list.take(1).filter(|s: Seq<u8>| s != Seq::<u8>::empty());
    let rest = list.skip(1).filter(|s: Seq<u8>| s != Seq::<u8>::empty() && s != seq![46u8]);
    first + rest
}

/// Whether a key is that of one segment: it ends with its only zero.
spec fn is_code(code: Seq<u16>) -> bool {
    &&& code.len() >= 2
    &&& code.last() == 0
    &&& code[0] != 0
    &&& forall|i: int| 0 <= i < code.len() - 1 ==> #[trigger] code[i] != 0
}

proof fn lemma_code(segment: Seq<u8>)
    requires
        segment.len() > 0,
    ensures
        is_code(segment_key(segment, true)),
{
    let code = segment_key(segment, true);
    assert forall|i: int| 0 <= i < code.len() - 1 implies #[trigger] code[i] != 0 by {}
}

proof fn lemma_codes_differ(a: Seq<u8>, b: Seq<u8>)
    requires
        a.len() > 0,
        b.len() > 0,
        segment_key(a, true) == segment_key(b, true),
    ensures
        a == b,
{
    let x = segment_key(a, true);
    let y = segment_key(b, true);
    if x[0] == 3 {
        assert(a != seq![46u8] && a != seq![46u8, 46u8]);
        assert(b != seq![46u8] && b != seq![46u8, 46u8]);
        assert(x.len() == a.len() + 2 && y.len() == b.len() + 2);
        assert forall|i: int| 0 <= i < a.len() implies a[i] == b[i] by {
            assert(x[i + 1] == a[i] + 1);
            assert(y[i + 1] == b[i] + 1);
        }
        assert(a =~= b);
    } else if x[0] == 1 {
        assert(a == seq![46u8]);
        assert(b == seq![46u8]);
    } else {
        assert(a == seq![46u8, 46u8]);
        assert(b == seq![46u8, 46u8]);
    }
}

/// The key of segments that all count.
spec fn codes(list: Seq<Seq<u8>>) -> Seq<u16>
    decreases list.len(),
{
    if list.len() == 0 {
        Seq::empty()
    } else {
        segment_key(list[0], true) + codes(list.drop_first())
    }
}

proof fn lemma_codes_push(list: Seq<Seq<u8>>, segment: Seq<u8>)
    ensures
        codes(list.push(segment)) == codes(list) + segment_key(segment, true),
    decreases list.len(),
{
    let all = list.push(segment);
    if list.len() == 0 {
        assert(all.drop_first() =~= Seq::<Seq<u8>>::empty());
        assert(codes(all.drop_first()) =~= Seq::<u16>::empty());
        assert(all[0] == segment);
        assert(codes(list) =~= Seq::<u16>::empty());
        assert(codes(all) =~= segment_key(segment, true));
    } else {
        lemma_codes_push(list.drop_first(), segment);
        assert(all.drop_first() =~= list.drop_first().push(segment));
        assert(codes(all) =~= codes(list) + segment_key(segment, true));
    }
}

proof fn lemma_codes_are_told_apart(a: Seq<Seq<u8>>, b: Seq<Seq<u8>>)
    requires
        forall|i: int| 0 <= i < a.len() ==> (#[trigger] a[i]).len() > 0,
        forall|i: int| 0 <= i < b.len() ==> (#[trigger] b[i]).len() > 0,
        codes(a) == codes(b),
    ensures
        a == b,
    decreases a.len(),
{
    if a.len() == 0 {
        if b.len() > 0 {
            lemma_code(b[0]);
            assert(codes(b).len() > 0);
        }
        assert(a =~= b);
    } else {
        lemma_code(a[0]);
        assert(codes(a).len() > 0);
        lemma_code(b[0]);
        let x = segment_key(a[0], true);
        let y = segment_key(b[0], true);
        let all = codes(a);
        assert(all == x + codes(a.drop_first()));
        assert(all == y + codes(b.drop_first()));
        assert(all[x.len() - 1] == 0);
        assert(all[y.len() - 1] == 0);
        if x.len() < y.len() {
            assert(y[x.len() - 1] != 0);
        }
        if y.len() < x.len() {
            assert(x[y.len() - 1] != 0);
        }
        assert(x =~= all.take(x.len() as int));
        assert(y =~= all.take(x.len() as int));
        lemma_codes_differ(a[0], b[0]);
        assert(codes(a.drop_first()) =~= all.skip(x.len() as int));
        assert(codes(b.drop_first()) =~= all.skip(x.len() as int));
        lemma_codes_are_told_apart(a.drop_first(), b.drop_first());
        assert(a =~= seq![a[0]] + a.drop_first());
        assert(b =~= seq![b[0]] + b.drop_first());
    }
}

proof fn lemma_named_segments(list: Seq<Seq<u8>>)
    requires
        list.len() > 0,
    ensures
        segments_key(list) == codes(named_segments(list)),
        forall|i: int|
            0 <= i < named_segments(list).len() ==> (#[trigger] named_segments(list)[i]).len() > 0,
    decreases list.len(),
{
    reveal(Seq::filter);
    let counts = |s: Seq<u8>| s != Seq::<u8>::empty();
    let others = |s: Seq<u8>| s != Seq::<u8>::empty() && s != seq![46u8];
    let none = Seq::<Seq<u8>>::empty();
    let named = named_segments(list);
    let last = list.last();
    assert(named == list.take(1).filter(counts) + list.skip(1).filter(others));
    assert(none.filter(counts) =~= none);
    assert(none.filter(others) =~= none);
    if last.len() == 0 {
        assert(last =~= Seq::<u8>::empty());
    }
    if list.len() == 1 {
        assert(list.take(1) =~= list);
        assert(list.drop_last() =~= none);
        assert(list.skip(1) =~= none);
        assert(segments_key(none) =~= Seq::<u16>::empty());
        assert(segments_key(list) =~= segment_key(last, true));
        assert(codes(none) =~= Seq::<u16>::empty());
        if last.len() > 0 {
            assert(named =~= seq![last]);
            assert(named.drop_first() =~= none);
            assert(codes(named) =~= segment_key(last, true));
        } else {
            assert(named =~= none);
        }
    } else {
        let rest = list.drop_last();
        lemma_named_segments(rest);
        assert(rest.take(1) =~= list.take(1));
        assert(list.skip(1).drop_last() =~= rest.skip(1));
        assert(list.skip(1).last() == last);
        if last.len() > 0 && last != seq![46u8] {
            assert(named =~= named_segments(rest).push(last));
            lemma_codes_push(named_segments(rest), last);
            assert(segments_key(list) =~= codes(named));
        } else {
            assert(named =~= named_segments(rest));
            assert(segments_key(list) =~= codes(named));
        }
    }
}

/// Two paths are the same exactly when both or neither start at the root and
/// their segments that count are the same ones, in the same order.
pub proof fn law_same_paths_have_the_same_segments(a: Seq<char>, b: Seq<char>)
    ensures
        ({
            let x = text::bytes(a);
            let y = text::bytes(b);
            same_path(a, b) <==> (x.len() > 0 && x[0] == 47 <==> y.len() > 0 && y[0] == 47)
                && named_segments(segments(x)) == named_segments(segments(y))
        }),
{
    let x = text::bytes(a);
    let y = text::bytes(b);
    let p = named_segments(segments(x));
    let q = named_segments(segments(y));
    lemma_some_segment(x);
    lemma_some_segment(y);
    lemma_named_segments(segments(x));
    lemma_named_segments(segments(y));
    if p.len() > 0 {
        lemma_code(p[0]);
    }
    if q.len() > 0 {
        lemma_code(q[0]);
    }
    if same_path(a, b) {
        let rooted = x.len() > 0 && x[0] == 47;
        let other = y.len() > 0 && y[0] == 47;
        if rooted {
            assert(path_key(a)[0] == 0);
        } else if p.len() > 0 {
            assert(path_key(a)[0] == segment_key(p[0], true)[0]);
        }
        if other {
            assert(path_key(b)[0] == 0);
        } else if q.len() > 0 {
            assert(path_key(b)[0] == segment_key(q[0], true)[0]);
        }
        assert(rooted == other);
        if rooted {
            assert(codes(p) =~= path_key(a).skip(2));
            assert(codes(q) =~= path_key(b).skip(2));
        } else {
            assert(codes(p) =~= path_key(a));
            assert(codes(q) =~= path_key(b));
        }
        lemma_codes_are_told_apart(p, q);
    }
}

/// A path is cut at its slashes: a run of bytes without one is one segment, and
/// the segments of two parts with a slash between them are those of the one and
/// the other.
pub proof fn law_paths_are_cut_at_slashes(a: Seq<u8>, b: Seq<u8>)
    ensures
        segments(a).len() > 0,
        !a.contains(47) ==> segments(a) == seq![a],
        segments(a.push(47) + b) == segments(a) + segments(b),
    decreases a.len() + b.len(),
{
    if a.len() > 0 {
        let init = a.drop_last();
        law_paths_are_cut_at_slashes(init, Seq::empty());
        if !a.contains(47) {
            assert(!init.contains(47)) by {
                if init.contains(47) {
                    let k = choose|k: int| 0 <= k < init.len() && init[k] == 47;
                    assert(a.contains(a[k]));
                }
            }
            assert(a.contains(a.last()));
            assert(a =~= init.push(a.last()));
            assert(segments(a) =~= seq![a]);
        }
    }
    if a.len() == 0 {
        assert(a =~= Seq::<u8>::empty());
        assert(segments(a) =~= seq![a]);
    }
    let both = a.push(47) + b;
    if b.len() == 0 {
        assert(both =~= a.push(47));
        assert(both.drop_last() =~= a);
        assert(segments(both) =~= segments(a) + segments(b));
    } else {
        law_paths_are_cut_at_slashes(a, b.drop_last());
        if b.len() >= 1 {
            lemma_some_segment(b.drop_last());
        }
        assert(both.drop_last() =~= a.push(47) + b.drop_last());
        assert(both.last() == b.last());
        assert(segments(both) =~= segments(a) + segments(b));
    }
}

proof fn lemma_some_segment(path: Seq<u8>)
    ensures
        segments(path).len() > 0,
    decreases path.len(),
{
    if path.len() > 0 {
        lemma_some_segment(path.drop_last());
    }
}

/// The components of a path are its pieces between slashes that count, behind
/// the root if it starts there: all that are not empty, and of those that are a
/// dot only one at the very start.
pub proof fn law_components_are_the_named_pieces(path: Seq<char>)
    ensures
        ({
            let pieces = lines::split(path, '/');
            let root = if path.len() > 0 && path[0] == '/' {
                seq!["/"@]
            } else {
                Seq::empty()
            };
            components(path) == root + pieces.take(1).filter(
                |p: Seq<char>| p != Seq::<char>::empty(),
            ) + pieces.skip(1).filter(|p: Seq<char>| p != Seq::<char>::empty() && p != "."@)
        }),
{
    let pieces = lines::split(path, '/');
    lines::law_pieces_make_the_text(path, '/');
    if absolute(path) {
        lemma_first_piece(path);
    }
    lemma_named_pieces(pieces, !absolute(path));
    let head = pieces.take(1).filter(|p: Seq<char>| p != Seq::<char>::empty());
    if absolute(path) {
        lemma_first_piece(path);
        reveal(Seq::filter);
        assert(pieces.take(1) =~= seq![Seq::<char>::empty()]);
        assert(pieces.take(1).drop_last() =~= Seq::<Seq<char>>::empty());
        assert(pieces.take(1).drop_last().filter(|p: Seq<char>| p != Seq::<char>::empty())
            =~= Seq::<Seq<char>>::empty());
        assert(pieces.take(1).last() == Seq::<char>::empty());
        assert(head =~= Seq::<Seq<char>>::empty());
    }
    let tail = pieces.skip(1).filter(|p: Seq<char>| p != Seq::<char>::empty() && p != "."@);
    assert(components(path) =~= (if path.len() > 0 && path[0] == '/' {
        seq!["/"@]
    } else {
        Seq::empty()
    }) + head + tail);
}

proof fn lemma_first_piece(path: Seq<char>)
    requires
        absolute(path),
    ensures
        lines::split(path, '/').len() > 0,
        lines::split(path, '/')[0] == Seq::<char>::empty(),
{
    let none = Seq::<char>::empty();
    lines::law_splitting_goes_over_separators(none, path.drop_first(), '/');
    assert(none.push('/') + path.drop_first() =~= path);
    assert(!none.contains('/'));
    assert(lines::split(path, '/')[0] == none);
}

proof fn lemma_named_pieces(pieces: Seq<Seq<char>>, relative: bool)
    requires
        pieces.len() > 0,
        !relative ==> pieces[0].len() == 0,
    ensures
        named_pieces(pieces, relative) == pieces.take(1).filter(
            |p: Seq<char>| p != Seq::<char>::empty(),
        ) + pieces.skip(1).filter(|p: Seq<char>| p != Seq::<char>::empty() && p != "."@),
    decreases pieces.len(),
{
    reveal(Seq::filter);
    let counts = |p: Seq<char>| p != Seq::<char>::empty();
    let others = |p: Seq<char>| p != Seq::<char>::empty() && p != "."@;
    let none = Seq::<Seq<char>>::empty();
    assert(none.filter(counts) =~= none);
    assert(none.filter(others) =~= none);
    let last = pieces.last();
    if last.len() == 0 {
        assert(last =~= Seq::<char>::empty());
    }
    if pieces.len() == 1 {
        assert(pieces.take(1) =~= pieces);
        assert(pieces.drop_last() =~= Seq::<Seq<char>>::empty());
        assert(pieces.skip(1) =~= Seq::<Seq<char>>::empty());
        assert(named_pieces(pieces.drop_last(), relative) =~= Seq::<Seq<char>>::empty());
        assert(pieces[0] == last);
        assert(named_pieces(pieces, relative) =~= pieces.take(1).filter(counts) + pieces.skip(
            1,
        ).filter(others));
    } else {
        let rest = pieces.drop_last();
        lemma_named_pieces(rest, relative);
        assert(rest.take(1) =~= pieces.take(1));
        assert(pieces.skip(1).drop_last() =~= rest.skip(1));
        assert(pieces.skip(1).last() == last);
        let head = pieces.take(1).filter(|p: Seq<char>| p != Seq::<char>::empty());
        let tail = pieces.skip(1).filter(|p: Seq<char>| p != Seq::<char>::empty() && p != "."@);
        assert(named_pieces(pieces, relative) =~= head + tail);
    }
}

/// A relative path is put behind the base, with one slash between them if the
/// base does not end with one. An absolute path stays as it is.
pub proof fn law_joining_paths(base: Seq<char>, path: Seq<char>)
    ensures
        joined(base, seq!['/'] + path) == seq!['/'] + path,
        joined(Seq::empty(), path) == path,
        path.len() == 0 || path[0] != '/' ==> joined(base.push('/'), path) == base.push('/') + path,
        (path.len() == 0 || path[0] != '/') && base.len() > 0 && base.last() != '/' ==> joined(
            base,
            path,
        ) == joined(base.push('/'), path),
{
}

/// What lies under the base is left when the base is taken off; another path
/// stays as it is.
pub proof fn law_the_base_is_taken_off(
    base: Seq<Seq<char>>,
    rest: Seq<Seq<char>>,
    path: Seq<Seq<char>>,
)
    ensures
        below(base, base + rest) == rest,
        (forall|tail: Seq<Seq<char>>| path != #[trigger] (base + tail)) ==> below(base, path)
            == path,
{
    assert((base + rest).take(base.len() as int) =~= base);
    assert((base + rest).skip(base.len() as int) =~= rest);
    if base.len() <= path.len() && path.take(base.len() as int) == base {
        assert(path =~= base + path.skip(base.len() as int));
    }
}

proof fn lemma_last_dot(start: Seq<char>, end: Seq<char>)
    requires
        !end.contains('.'),
    ensures
        last_dot(start.push('.') + end) == start.len(),
        last_dot(end) == -1,
    decreases end.len(),
{
    let name = start.push('.') + end;
    if end.len() == 0 {
        assert(name =~= start.push('.'));
    } else {
        let less = end.drop_last();
        assert(!less.contains('.')) by {
            if less.contains('.') {
                let k = choose|k: int| 0 <= k < less.len() && less[k] == '.';
                assert(end.contains(end[k]));
            }
        }
        lemma_last_dot(start, less);
        assert(end.contains(end.last()));
        assert(name.drop_last() =~= start.push('.') + less);
        assert(name.last() == end.last());
    }
}

/// The extension of a file name is what follows its last dot, and the stem is
/// what stands before it. A name whose only dot is its first character, or
/// that has none, has no extension, and neither has `..`.
pub proof fn law_names_have_a_stem_and_an_extension(start: Seq<char>, end: Seq<char>)
    requires
        !end.contains('.'),
    ensures
        start.len() > 0 && start.push('.') + end != ".."@ ==> stem(start.push('.') + end) == start
            && extension(start.push('.') + end) == Some(end),
        stem(end) == end && extension(end) is None,
        stem(seq!['.'] + end) == seq!['.'] + end && extension(seq!['.'] + end) is None,
        stem(".."@) == ".."@ && extension(".."@) is None,
{
    lemma_last_dot(start, end);
    lemma_last_dot(Seq::empty(), end);
    assert(Seq::<char>::empty().push('.') + end =~= seq!['.'] + end);
    assert((start.push('.') + end).take(start.len() as int) =~= start);
    assert((start.push('.') + end).skip(start.len() as int + 1) =~= end);
}

/// Slashes, and dots behind slashes, are trimmed from the end of a path.
pub proof fn law_paths_are_trimmed(path: Seq<char>)
    requires
        path.len() > 0,
    ensures
        trimmed(path.push('/')) == trimmed(path),
        trimmed(path.push('/').push('.')) == trimmed(path),
        path.last() != '/' && !(path.len() > 1 && path.last() == '.' && path[path.len() - 2] == '/')
            ==> trimmed(path) == path,
        trimmed(seq!['/']) == seq!['/'],
{
    let slash = path.push('/');
    let dot = slash.push('.');
    assert(slash.drop_last() =~= path);
    assert(dot.drop_last() =~= slash);
    assert(dot[dot.len() - 2] == '/');
}

proof fn lemma_name_start(dir: Seq<char>, name: Seq<char>)
    requires
        !name.contains('/'),
    ensures
        name_start(dir.push('/') + name) == dir.len() + 1,
        name_start(name) == 0,
    decreases name.len(),
{
    let path = dir.push('/') + name;
    if name.len() == 0 {
        assert(path =~= dir.push('/'));
    } else {
        let less = name.drop_last();
        assert(!less.contains('/')) by {
            if less.contains('/') {
                let k = choose|k: int| 0 <= k < less.len() && less[k] == '/';
                assert(name.contains(name[k]));
            }
        }
        lemma_name_start(dir, less);
        assert(name.contains(name.last()));
        assert(path.drop_last() =~= dir.push('/') + less);
        assert(path.last() == name.last());
    }
}

/// The parent of a file in a directory is the directory, that of a bare name is
/// the empty path, and the root and the empty path have none.
pub proof fn law_files_lie_in_their_parent(dir: Seq<char>, name: Seq<char>)
    requires
        name.len() > 0,
        !name.contains('/'),
        name != seq!['.'],
    ensures
        dir.len() > 0 ==> parent_of(dir.push('/') + name) == Some(trimmed(dir)),
        parent_of(seq!['/'] + name) == Some(seq!['/']),
        parent_of(name) == Some(Seq::<char>::empty()),
        parent_of(seq!['/']) is None,
        parent_of(Seq::empty()) is None,
{
    assert(name.contains(name.last()));
    assert(name.contains(name[0]));
    let path = dir.push('/') + name;
    assert(path.last() == name.last());
    if name.len() == 1 {
        assert(name[0] != '.') by {
            if name[0] == '.' {
                assert(name =~= seq!['.']);
            }
        }
        assert(name.last() == name[0]);
    } else {
        assert(name.contains(name[name.len() - 2]));
        assert(path[path.len() - 2] == name[name.len() - 2]);
    }
    assert(trimmed(path) == path);
    lemma_name_start(dir, name);
    assert(path.take(dir.len() as int + 1) =~= dir.push('/'));
    assert(path != seq!['/']) by {
        assert(path.len() >= 2);
    }
    if dir.len() > 0 {
        law_paths_are_trimmed(dir);
    }
    let rooted = seq!['/'] + name;
    assert(Seq::<char>::empty().push('/') + name =~= rooted);
    lemma_name_start(Seq::empty(), name);
    assert(rooted.last() == name.last());
    if name.len() > 1 {
        assert(rooted[rooted.len() - 2] == name[name.len() - 2]);
    }
    assert(trimmed(rooted) == rooted);
    assert(rooted.take(1) =~= seq!['/']);
    assert(rooted.len() >= 2);
    assert(trimmed(seq!['/']) == seq!['/']);
    assert(trimmed(name) == name);
    assert(name.take(0) =~= Seq::<char>::empty());
    assert(trimmed(Seq::<char>::empty()) == Seq::<char>::empty());
    assert(name != seq!['/']) by {
        assert(name[0] != '/');
    }
}

/// Sorted paths hold every file once: each path that was given is there as the
/// same file, what is there was given, and no file comes twice or out of order.
pub proof fn law_sorting_paths_loses_nothing(list: Seq<String>, r: Seq<String>, k: int, i: int)
    requires
        sorted_once(list, r),
    ensures
        0 <= k < list.len() ==> exists|p: int|
            0 <= p < r.len() && path_key(#[trigger] r[p]@) == path_key(list[k]@),
        0 <= i < r.len() ==> exists|p: int|
            0 <= p < list.len() && #[trigger] list[p]@ == r[i]@ && forall|m: int|
                0 <= m < p ==> path_key(#[trigger] list[m]@) != path_key(r[i]@),
        0 <= i < k < r.len() ==> order::lex_less(path_key(r[i]@), path_key(r[k]@)),
{
    if 0 <= k < list.len() {
        assert(lists(r, list[k]@));
        let p = choose|p: int| 0 <= p < r.len() && same_path(#[trigger] r[p]@, list[k]@);
        assert(path_key(r[p]@) == path_key(list[k]@));
    }
    if 0 <= i < r.len() {
        assert(leads(list, r[i]@));
        let p = choose|p: int| #[trigger] is_first(list, p) && list[p]@ == r[i]@;
        assert(list[p]@ == r[i]@);
        assert forall|m: int| 0 <= m < p implies path_key(#[trigger] list[m]@) != path_key(
            r[i]@,
        ) by {
            assert(!same_path(list[m]@, list[p]@));
        }
    }
    if 0 <= i < k < r.len() {
        assert(path_less(r[i]@, r[k]@));
    }
}

} // verus!
