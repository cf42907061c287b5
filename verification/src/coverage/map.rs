//! Which tests exercise which source lines.
use crate::order;
use crate::paths;
use crate::text::texts;
use std::collections::HashMap;
use vstd::prelude::*;

verus! {

/// A mapping from `(source_file, line_number)` to the list of test IDs that
/// covered that line.
///
/// Line numbers are 1-based, and files are told apart by the components of
/// their paths.
#[derive(Debug)]
pub struct CoverageMap {
    /// Keys of the paths, each once.
    files: Vec<Vec<u16>>,
    /// Tests by file and line, in one number.
    entries: HashMap<u128, Vec<String>>,
}

/// The number for a line of a file.
pub open spec fn code(slot: int, line: u32) -> u128 {
    (slot * 0x1_0000_0000 + line) as u128
}

/// The first index that holds a key, or -1.
pub open spec fn slot_of(files: Seq<Vec<u16>>, key: Seq<u16>) -> int
    decreases files.len(),
{
    if files.len() == 0 {
        -1
    } else {
        let earlier = slot_of(files.drop_last(), key);
        if earlier >= 0 {
            earlier
        } else if files.last()@ == key {
            files.len() - 1
        } else {
            -1
        }
    }
}

/// A slot lies within the list and holds its key.
proof fn lemma_slot(files: Seq<Vec<u16>>, key: Seq<u16>)
    ensures
        -1 <= slot_of(files, key) < files.len(),
        slot_of(files, key) >= 0 ==> files[slot_of(files, key)]@ == key,
        slot_of(files, key) < 0 ==> forall|i: int| 0 <= i < files.len() ==> #[trigger] files[i]@
            != key,
    decreases files.len(),
{
    if files.len() > 0 {
        lemma_slot(files.drop_last(), key);
        if slot_of(files, key) < 0 {
            assert forall|i: int| 0 <= i < files.len() implies #[trigger] files[i]@ != key by {
                if i < files.len() - 1 {
                    assert(files.drop_last()[i]@ != key);
                }
            }
        }
    }
}

/// The tests at the lines of files, by the sort key of the path.
pub open spec fn coverage_of(files: Seq<Vec<u16>>, entries: Map<u128, Vec<String>>) -> Map<
    (Seq<u16>, u32),
    Seq<Seq<char>>,
> {
    Map::new(
        |k: (Seq<u16>, u32)|
            slot_of(files, k.0) >= 0 && entries.contains_key(code(slot_of(files, k.0), k.1)),
        |k: (Seq<u16>, u32)| texts(entries[code(slot_of(files, k.0), k.1)]@),
    )
}

impl View for CoverageMap {
    type V = Map<(Seq<u16>, u32), Seq<Seq<char>>>;

    closed spec fn view(&self) -> Map<(Seq<u16>, u32), Seq<Seq<char>>> {
        coverage_of(self.files@, self.entries@)
    }
}

/// The tests at a key, none where there is no entry.
pub open spec fn tests_at(
    map: Map<(Seq<u16>, u32), Seq<Seq<char>>>,
    key: (Seq<u16>, u32),
) -> Seq<Seq<char>> {
    if map.contains_key(key) {
        map[key]
    } else {
        Seq::empty()
    }
}

/// A map with a test added after those at a key.
pub open spec fn with_test(
    map: Map<(Seq<u16>, u32), Seq<Seq<char>>>,
    key: (Seq<u16>, u32),
    test: Seq<char>,
) -> Map<(Seq<u16>, u32), Seq<Seq<char>>> {
    map.insert(key, tests_at(map, key).push(test))
}

/// A map with a test put in its place among the sorted ones at a key.
pub open spec fn with_sorted_test(
    map: Map<(Seq<u16>, u32), Seq<Seq<char>>>,
    key: (Seq<u16>, u32),
    test: Seq<char>,
) -> Map<(Seq<u16>, u32), Seq<Seq<char>>> {
    map.insert(key, order::with_sorted(tests_at(map, key), test))
}

/// Numbers tell files and lines apart.
proof fn lemma_code(a: int, b: int, line: u32, other: u32)
    requires
        0 <= a <= usize::MAX,
        0 <= b <= usize::MAX,
    ensures
        code(a, line) == a * 0x1_0000_0000 + line,
        code(a, line) == code(b, other) <==> a == b && line == other,
        code(a, line) as int / 0x1_0000_0000 == a,
        code(a, line) as int % 0x1_0000_0000 == line,
{
}

impl CoverageMap {
    /// Whether each file is listed once, and each entry is for a listed file.
    pub closed spec fn wf(self) -> bool {
        &&& forall|i: int|
            0 <= i < self.files@.len() ==> slot_of(self.files@, (#[trigger] self.files@[i])@) == i
        &&& forall|c: u128| #[trigger]
            self.entries@.contains_key(c) ==> c as int / 0x1_0000_0000 < self.files@.len()
        &&& self.files@.len() <= usize::MAX
    }

    /// A map without entries.
    pub fn new() -> (r: Self)
        ensures
            r.wf(),
            r@ == Map::<(Seq<u16>, u32), Seq<Seq<char>>>::empty(),
    {
        let r: CoverageMap = CoverageMap { files: Vec::new(), entries: HashMap::new() };
        assert(r@ =~= Map::empty());
        r
    }

    /// The slot of a path key, if there is one.
    fn find_slot(&self, key: &Vec<u16>) -> (r: Option<usize>)
        ensures
            r matches Some(i) ==> i == slot_of(self.files@, key@),
            r is None ==> slot_of(self.files@, key@) < 0,
    {
        let mut i: usize = 0;
        assert(self.files@.take(0) =~= Seq::empty());
        while i < self.files.len()
            invariant
                i <= self.files@.len(),
                slot_of(self.files@.take(i as int), key@) < 0,
            decreases self.files.len() - i,
        {
            assert(self.files@.take(i + 1).drop_last() =~= self.files@.take(i as int));
            if paths::same_key(&self.files[i], key) {
                proof {
                    lemma_slot_stays(self.files@, i + 1, key@);
                }
                return Some(i);
            }
            i = i + 1;
        }
        assert(self.files@.take(i as int) =~= self.files@);
        None
    }

    /// Whether a slot is that of a path key.
    pub closed spec fn is_slot(self, slot: usize, key: Seq<u16>) -> bool {
        slot < self.files@.len() && self.files@[slot as int]@ == key
    }

    /// The slot of a path, which is made if there is none.
    pub(crate) fn make_slot(&mut self, path: &str) -> (r: usize)
        requires
            old(self).wf(),
        ensures
            final(self).wf(),
            final(self)@ == old(self)@,
            final(self).is_slot(r, paths::path_key(path@)),
    {
        let key: Vec<u16> = paths::sort_key(path);
        proof {
            lemma_slot(self.files@, key@);
        }
        if let Some(i) = self.find_slot(&key) {
            return i;
        }
        let slot: usize = self.files.len();
        let ghost before = self.files@;
        let ghost added = key@;
        self.files.push(key);
        proof {
            let after = self.files@;
            assert(after.len() == self.files.len());
            assert(after.drop_last() =~= before);
            lemma_slot(before, added);
            assert forall|k: Seq<u16>| k != added implies #[trigger] slot_of(after, k) == slot_of(
                before,
                k,
            ) by {}
            assert forall|i: int| 0 <= i < after.len() implies slot_of(
                after,
                (#[trigger] after[i])@,
            ) == i by {
                if i < before.len() {
                    assert(after[i] == before[i]);
                    assert(before[i]@ != added);
                }
            }
            assert forall|line: u32| !self.entries@.contains_key(#[trigger] code(slot as int, line)) by {
                lemma_code(slot as int, slot as int, line, line);
            }
            assert(self@ =~= coverage_of(before, old(self).entries@)) by {
                assert forall|k: (Seq<u16>, u32)| #[trigger] self@.contains_key(k) <==> coverage_of(
                    before,
                    old(self).entries@,
                ).contains_key(k) by {}
            }
        }
        slot
    }

    /// The tests that covered a line.
    pub fn get(&self, path: &str, line: u32) -> (r: Option<&Vec<String>>)
        requires
            self.wf(),
        ensures
            r is Some <==> self@.contains_key((paths::path_key(path@), line)),
            r matches Some(tests) ==> texts(tests@) == self@[(paths::path_key(path@), line)],
    {
        let key: Vec<u16> = paths::sort_key(path);
        match self.find_slot(&key) {
            Some(slot) => {
                proof {
                    lemma_slot(self.files@, key@);
                    lemma_code(slot as int, slot as int, line, line);
                }
                self.entries.get(&(slot as u128 * 0x1_0000_0000 + line as u128))
            },
            None => None,
        }
    }

    /// Whether a line is covered.
    pub fn contains_key(&self, path: &str, line: u32) -> (r: bool)
        requires
            self.wf(),
        ensures
            r == self@.contains_key((paths::path_key(path@), line)),
    {
        self.get(path, line).is_some()
    }

    /// Sets the tests at a line of the file in a slot.
    fn set_at(&mut self, slot: usize, line: u32, tests: Vec<String>)
        requires
            old(self).wf(),
            slot < old(self).files@.len(),
        ensures
            final(self).wf(),
            final(self).files == old(self).files,
            final(self)@ == old(self)@.insert(
                (old(self).files@[slot as int]@, line),
                texts(tests@),
            ),
    {
        let ghost given = texts(tests@);
        proof {
            lemma_code(slot as int, slot as int, line, line);
        }
        self.entries.insert(slot as u128 * 0x1_0000_0000 + line as u128, tests);
        proof {
            let files = self.files@;
            let key = (files[slot as int]@, line);
            assert(slot_of(files, key.0) == slot);
            assert forall|k: (Seq<u16>, u32)| slot_of(files, k.0) >= 0 implies (#[trigger] code(
                slot_of(files, k.0),
                k.1,
            ) == code(slot as int, line) <==> k == key) by {
                lemma_slot(files, k.0);
                lemma_code(slot_of(files, k.0), slot as int, k.1, line);
            }
            assert(self@ =~= old(self)@.insert(key, given));
        }
    }

    /// Sets the tests that covered a line.
    pub fn insert(&mut self, path: &str, line: u32, tests: Vec<String>)
        requires
            old(self).wf(),
        ensures
            final(self).wf(),
            final(self)@ == old(self)@.insert((paths::path_key(path@), line), texts(tests@)),
    {
        let slot: usize = self.make_slot(path);
        self.set_at(slot, line, tests);
    }

    /// Takes out the tests at a line of the file in a slot.
    fn take_at(&mut self, slot: usize, line: u32) -> (r: Vec<String>)
        requires
            old(self).wf(),
            slot < old(self).files@.len(),
        ensures
            final(self).wf(),
            final(self).files == old(self).files,
            texts(r@) == tests_at(old(self)@, (old(self).files@[slot as int]@, line)),
            final(self)@ == old(self)@.remove((old(self).files@[slot as int]@, line)),
    {
        let ghost files = self.files@;
        let ghost key = (files[slot as int]@, line);
        proof {
            lemma_code(slot as int, slot as int, line, line);
            assert(slot_of(files, key.0) == slot);
        }
        let found: Option<Vec<String>> = self.entries.remove(
            &(slot as u128 * 0x1_0000_0000 + line as u128),
        );
        proof {
            assert forall|k: (Seq<u16>, u32)| slot_of(files, k.0) >= 0 implies (#[trigger] code(
                slot_of(files, k.0),
                k.1,
            ) == code(slot as int, line) <==> k == key) by {
                lemma_slot(files, k.0);
                lemma_code(slot_of(files, k.0), slot as int, k.1, line);
            }
            assert(self@ =~= old(self)@.remove(key));
        }
        match found {
            Some(tests) => tests,
            None => {
                let none: Vec<String> = Vec::new();
                assert(texts(none@) =~= Seq::empty());
                none
            },
        }
    }

    /// Adds a test after those at a line of the file in a slot.
    pub(crate) fn push_at(&mut self, slot: usize, line: u32, test: String, Ghost(key): Ghost<Seq<u16>>)
        requires
            old(self).wf(),
            old(self).is_slot(slot, key),
        ensures
            final(self).wf(),
            final(self).is_slot(slot, key),
            final(self)@ == with_test(old(self)@, (key, line), test@),
    {
        let mut tests: Vec<String> = self.take_at(slot, line);
        let ghost before = texts(tests@);
        let ghost given = test@;
        tests.push(test);
        assert(texts(tests@) =~= before.push(given));
        self.set_at(slot, line, tests);
        assert(self@ =~= with_test(old(self)@, (key, line), given));
    }

    /// Adds a test in its place among the sorted ones at a line of the file
    /// in a slot, unless it is there already.
    pub(crate) fn insert_at(
        &mut self,
        slot: usize,
        line: u32,
        test: String,
        Ghost(key): Ghost<Seq<u16>>,
    )
        requires
            old(self).wf(),
            old(self).is_slot(slot, key),
        ensures
            final(self).wf(),
            final(self).is_slot(slot, key),
            final(self)@ == with_sorted_test(old(self)@, (key, line), test@),
    {
        let mut tests: Vec<String> = self.take_at(slot, line);
        let ghost given = test@;
        order::insert_sorted(&mut tests, test);
        self.set_at(slot, line, tests);
        assert(self@ =~= with_sorted_test(old(self)@, (key, line), given));
    }

    /// The number of covered lines.
    pub fn len(&self) -> (r: usize)
        requires
            self.wf(),
        ensures
            r == self@.len(),
    {
        proof {
            self.lemma_len();
        }
        self.entries.len()
    }

    /// Whether no line is covered.
    pub fn is_empty(&self) -> (r: bool)
        requires
            self.wf(),
        ensures
            r == (self@ == Map::<(Seq<u16>, u32), Seq<Seq<char>>>::empty()),
    {
        proof {
            self.lemma_len();
            if self.entries@.len() == 0 {
                assert(self@.dom() =~= Set::empty());
                assert(self@ =~= Map::empty());
            }
        }
        self.entries.len() == 0
    }

    /// There are as many covered lines as entries.
    proof fn lemma_len(&self)
        requires
            self.wf(),
        ensures
            self@.len() == self.entries@.len(),
            self@.dom().finite(),
    {
        let files = self.files@;
        let entries = self.entries@;
        let f = |c: u128|
            (files[c as int / 0x1_0000_0000]@, (c as int % 0x1_0000_0000) as u32);
        assert forall|a: u128, b: u128|
            entries.contains_key(a) && entries.contains_key(b) && #[trigger] f(a) == #[trigger] f(
                b,
            ) implies a == b by {
            let i = a as int / 0x1_0000_0000;
            let j = b as int / 0x1_0000_0000;
            assert(slot_of(files, files[i]@) == i);
            assert(slot_of(files, files[j]@) == j);
        }
        assert(entries.dom().map(f) =~= self@.dom()) by {
            assert forall|k: (Seq<u16>, u32)| entries.dom().map(f).contains(k) implies self@.dom().contains(k) by {
                let c = choose|c: u128| entries.contains_key(c) && k == f(c);
                let i = c as int / 0x1_0000_0000;
                assert(slot_of(files, files[i]@) == i);
                lemma_code(i, i, k.1, k.1);
                assert(code(i, k.1) == c);
            }
            assert forall|k: (Seq<u16>, u32)| self@.dom().contains(k) implies entries.dom().map(f).contains(k) by {
                let i = slot_of(files, k.0);
                lemma_slot(files, k.0);
                lemma_code(i, i, k.1, k.1);
                let c = code(i, k.1);
                assert(entries.contains_key(c));
                assert(f(c) == k);
            }
        }
        vstd::set_lib::lemma_map_size(entries.dom(), self@.dom(), f);
    }
}

/// A slot found in a prefix is the slot in the whole list.
proof fn lemma_slot_stays(files: Seq<Vec<u16>>, i: int, key: Seq<u16>)
    requires
        0 <= i <= files.len(),
        slot_of(files.take(i), key) >= 0,
    ensures
        slot_of(files, key) == slot_of(files.take(i), key),
    decreases files.len() - i,
{
    if i < files.len() {
        assert(files.take(i + 1).drop_last() =~= files.take(i));
        lemma_slot_stays(files, i + 1, key);
    } else {
        assert(files.take(i) =~= files);
    }
}

} // verus!
