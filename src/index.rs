//! The index of activity files keyed by creation time, and range queries on
//! it.

use dashmap::DashMap;
use vstd::prelude::*;
use vstd::string::StrSliceExecFns;

verus! {

#[verifier::external_type_specification]
#[verifier::external_body]
#[verifier::reject_recursive_types(K)]
#[verifier::reject_recursive_types(V)]
#[verifier::reject_recursive_types(S)]
pub struct ExDashMap<K, V, S>(DashMap<K, V, S>);

/// The entries of a concurrent map from timestamps to paths.
pub uninterp spec fn dash_contents(m: DashMap<i64, String>) -> Map<i64, Seq<char>>;

pub open spec fn no_entries() -> Map<i64, Seq<char>> {
    Map::empty()
}

/// Relies on dashmap's `DashMap::new`: a map with no entries.
#[verifier::external_body]
fn dash_new() -> (r: DashMap<i64, String>)
    ensures
        dash_contents(r) == no_entries(),
{
    DashMap::new()
}

/// Relies on dashmap's `DashMap::insert`: the key now maps to the value,
/// replacing what it mapped to before; no other entry changes.
#[verifier::external_body]
fn dash_insert(m: &mut DashMap<i64, String>, key: i64, value: String)
    ensures
        dash_contents(*final(m)) == dash_contents(*old(m)).insert(key, value@),
{
    m.insert(key, value);
}

/// Relies on dashmap's `DashMap::len`: the number of entries.
#[verifier::external_body]
fn dash_len(m: &DashMap<i64, String>) -> (r: usize)
    ensures
        r == dash_contents(*m).len(),
{
    m.len()
}

/// Relies on dashmap's `DashMap::iter`: every entry exactly once, in no
/// particular order.
#[verifier::external_body]
fn dash_entries(m: &DashMap<i64, String>) -> (r: Vec<(i64, String)>)
    ensures
        forall|i: int|
            0 <= i < r@.len() ==> #[trigger] dash_contents(*m).contains_key(r@[i].0)
                && dash_contents(*m)[r@[i].0] == r@[i].1@,
        forall|i: int, j: int| 0 <= i < j < r@.len() ==> r@[i].0 != r@[j].0,
        forall|t: i64|
            #[trigger] dash_contents(*m).contains_key(t) ==> exists|i: int|
                0 <= i < r@.len() && r@[i].0 == t,
{
    m.iter().map(|e| (*e.key(), e.value().clone())).collect()
}

/// Activity files keyed by the time they were recorded. Where two files carry
/// the same time, the one inserted last is kept.
pub struct ActivityIndex {
    map: DashMap<i64, String>,
}

impl View for ActivityIndex {
    type V = Map<i64, Seq<char>>;

    closed spec fn view(&self) -> Map<i64, Seq<char>> {
        dash_contents(self.map)
    }
}

impl ActivityIndex {
    /// An index with no entries.
    pub fn new() -> (r: ActivityIndex)
        ensures
            r@ == no_entries(),
    {
        ActivityIndex { map: dash_new() }
    }

    /// Files `path` under `timestamp`, replacing any file filed there before.
    pub fn insert(&mut self, timestamp: i64, path: String)
        ensures
            final(self)@ == old(self)@.insert(timestamp, path@),
    {
        dash_insert(&mut self.map, timestamp, path);
    }

    /// The number of files in the index.
    pub fn len(&self) -> (r: usize)
        ensures
            r == self@.len(),
    {
        dash_len(&self.map)
    }
}

/// A file found by a scan: its path, its name (the last part of the path),
/// and the creation time read from it, if any.
#[derive(Clone, Debug)]
pub struct ScannedFile {
    pub path: String,
    pub name: String,
    pub timestamp: Option<i64>,
}

/// The time under which a scanned file is filed: its creation time, where it
/// has one and its name marks an activity file.
pub open spec fn filed_time(f: ScannedFile) -> Option<i64> {
    if is_activity_name(f.name@) {
        f.timestamp
    } else {
        None
    }
}

/// The index that results from filing each scanned activity file that has a
/// creation time, in order, a later file replacing an earlier one of the same
/// time.
pub open spec fn index_of(files: Seq<ScannedFile>) -> Map<i64, Seq<char>>
    decreases files.len(),
{
    if files.len() == 0 {
        Map::empty()
    } else {
        let before = index_of(files.drop_last());
        match filed_time(files.last()) {
            Some(t) => before.insert(t, files.last().path@),
            None => before,
        }
    }
}

/// Builds the index of a scan: every activity file with a creation time is
/// filed under it; files without one, and files of other names, are left
/// out.
pub fn process_fit_directory(files: &Vec<ScannedFile>) -> (r: ActivityIndex)
    ensures
        r@ == index_of(files@),
{
    let mut index = ActivityIndex::new();
    let mut i: usize = 0;
    while i < files.len()
        invariant
            i <= files@.len(),
            index@ == index_of(files@.subrange(0, i as int)),
        decreases files@.len() - i,
    {
        proof {
            let next = files@.subrange(0, i + 1);
            assert(next.drop_last() =~= files@.subrange(0, i as int));
            assert(next.last() == files@[i as int]);
        }
        if is_activity_file_name(files[i].name.as_str()) {
            match files[i].timestamp {
                Some(t) => index.insert(t, files[i].path.clone()),
                None => {},
            }
        }
        i = i + 1;
    }
    assert(files@.subrange(0, files@.len() as int) =~= files@);
    index
}

/// The entries of `index` whose time lies in `[start, end]`, each exactly
/// once, in no particular order.
pub fn get_files_in_range(index: &ActivityIndex, start: i64, end: i64) -> (r: Vec<(i64, String)>)
    ensures
        forall|i: int|
            0 <= i < r@.len() ==> start <= #[trigger] r@[i].0 <= end && index@.contains_key(r@[i].0)
                && index@[r@[i].0] == r@[i].1@,
        forall|i: int, j: int| 0 <= i < j < r@.len() ==> r@[i].0 != r@[j].0,
        forall|t: i64|
            #[trigger] index@.contains_key(t) && start <= t <= end ==> exists|i: int|
                0 <= i < r@.len() && r@[i].0 == t,
{
    let entries = dash_entries(&index.map);
    let mut r: Vec<(i64, String)> = Vec::new();
    let mut i: usize = 0;
    while i < entries.len()
        invariant
            i <= entries@.len(),
            forall|k: int|
                0 <= k < entries@.len() ==> #[trigger] index@.contains_key(entries@[k].0)
                    && index@[entries@[k].0] == entries@[k].1@,
            forall|k: int, l: int| 0 <= k < l < entries@.len() ==> entries@[k].0 != entries@[l].0,
            forall|k: int|
                0 <= k < r@.len() ==> start <= #[trigger] r@[k].0 <= end && index@.contains_key(
                    r@[k].0,
                ) && index@[r@[k].0] == r@[k].1@,
            forall|k: int|
                0 <= k < r@.len() ==> exists|l: int| 0 <= l < i && #[trigger] r@[k].0 == entries@[l].0,
            forall|k: int, l: int| 0 <= k < l < r@.len() ==> r@[k].0 != r@[l].0,
            forall|l: int|
                0 <= l < i && start <= #[trigger] entries@[l].0 <= end ==> exists|k: int|
                    0 <= k < r@.len() && r@[k].0 == entries@[l].0,
        decreases entries@.len() - i,
    {
        let t = entries[i].0;
        if start <= t && t <= end {
            let ghost before = r@;
            r.push((t, entries[i].1.clone()));
            proof {
                assert(r@[before.len() as int] == (t, entries@[i as int].1));
                assert forall|k: int| 0 <= k < r@.len() implies exists|l: int|
                    0 <= l < i + 1 && #[trigger] r@[k].0 == entries@[l].0 by {
                    if k < before.len() {
                        assert(r@[k] == before[k]);
                    } else {
                        assert(r@[k].0 == entries@[i as int].0);
                    }
                }
                assert forall|k: int, l: int| 0 <= k < l < r@.len() implies r@[k].0 != r@[l].0 by {
                    if l == before.len() {
                        assert(r@[k] == before[k]);
                        let m = choose|m: int| 0 <= m < i && #[trigger] before[k].0 == entries@[m].0;
                        assert(entries@[m].0 != entries@[i as int].0);
                    } else {
                        assert(r@[k] == before[k] && r@[l] == before[l]);
                    }
                }
                assert forall|l: int|
                    0 <= l < i + 1 && start <= #[trigger] entries@[l].0 <= end implies exists|k: int|
                    0 <= k < r@.len() && r@[k].0 == entries@[l].0 by {
                    if l == i {
                        assert(r@[before.len() as int].0 == entries@[l].0);
                    } else {
                        let k = choose|k: int| 0 <= k < before.len() && before[k].0 == entries@[l].0;
                        assert(r@[k] == before[k]);
                    }
                }
            }
        }
        i = i + 1;
    }
    proof {
        assert forall|t: i64| #[trigger] index@.contains_key(t) && start <= t <= end implies exists|
            k: int,
        | 0 <= k < r@.len() && r@[k].0 == t by {
            let l = choose|l: int| 0 <= l < entries@.len() && entries@[l].0 == t;
            assert(start <= entries@[l].0 <= end);
        }
    }
    r
}

/// No two files of a scan carry the same creation time unless they are filed
/// under the same path.
pub open spec fn no_ties(files: Seq<ScannedFile>) -> bool {
    forall|i: int, j: int|
        0 <= i < files.len() && 0 <= j < files.len() && filed_time(files[i]) is Some
            && #[trigger] filed_time(files[i]) == #[trigger] filed_time(files[j]) ==> files[i].path@
            == files[j].path@
}

/// Without ties, the index holds exactly the times of the scanned files, each
/// under its file's path, whatever the order of the scan.
pub proof fn lemma_index_of_without_ties(files: Seq<ScannedFile>)
    requires
        no_ties(files),
    ensures
        forall|t: i64|
            #[trigger] index_of(files).contains_key(t) <==> exists|i: int|
                0 <= i < files.len() && filed_time(files[i]) == Some(t),
        forall|i: int|
            0 <= i < files.len() && filed_time(files[i]) is Some ==> index_of(files)[
            #[trigger] filed_time(files[i]).unwrap()] == files[i].path@,
    decreases files.len(),
{
    if files.len() > 0 {
        let before = files.drop_last();
        assert(no_ties(before)) by {
            assert forall|i: int, j: int|
                0 <= i < before.len() && 0 <= j < before.len() && filed_time(before[i]) is Some
                    && #[trigger] filed_time(before[i]) == #[trigger] filed_time(before[j]) implies before[i].path@
                == before[j].path@ by {
                assert(before[i] == files[i] && before[j] == files[j]);
            }
        }
        lemma_index_of_without_ties(before);
        let n = files.len() - 1;
        assert forall|t: i64|
            #[trigger] index_of(files).contains_key(t) <==> exists|i: int|
                0 <= i < files.len() && filed_time(files[i]) == Some(t) by {
            if index_of(files).contains_key(t) && filed_time(files[n]) != Some(t) {
                assert(index_of(before).contains_key(t));
                let i = choose|i: int| 0 <= i < before.len() && filed_time(before[i]) == Some(t);
                assert(files[i] == before[i]);
            }
            if exists|i: int| 0 <= i < files.len() && filed_time(files[i]) == Some(t) {
                let i = choose|i: int| 0 <= i < files.len() && filed_time(files[i]) == Some(t);
                if filed_time(files[n]) != Some(t) {
                    assert(i < n);
                    assert(before[i] == files[i]);
                    assert(filed_time(before[i]) == Some(t));
                    assert(index_of(before).contains_key(t));
                }
                assert(index_of(files).contains_key(t));
            }
        }
        assert forall|i: int|
            0 <= i < files.len() && filed_time(files[i]) is Some implies index_of(files)[
            #[trigger] filed_time(files[i]).unwrap()] == files[i].path@ by {
            if i < n {
                assert(before[i] == files[i]);
            }
        }
    }
}

/// Scanning an unchanged set of files again, in any order, gives the same
/// index, as long as no two files carry the same creation time.
pub proof fn lemma_rescan_gives_same_index(first: Seq<ScannedFile>, second: Seq<ScannedFile>)
    requires
        no_ties(first),
        forall|f: ScannedFile| first.contains(f) <==> second.contains(f),
    ensures
        index_of(first) == index_of(second),
{
    assert(no_ties(second)) by {
        assert forall|i: int, j: int|
            0 <= i < second.len() && 0 <= j < second.len() && filed_time(second[i]) is Some
                && #[trigger] filed_time(second[i]) == #[trigger] filed_time(second[j]) implies second[i].path@
            == second[j].path@ by {
            assert(second.contains(second[i]) && second.contains(second[j]));
            let a = choose|a: int| 0 <= a < first.len() && first[a] == second[i];
            let b = choose|b: int| 0 <= b < first.len() && first[b] == second[j];
            assert(filed_time(first[a]) == filed_time(first[b]));
        }
    }
    lemma_index_of_without_ties(first);
    lemma_index_of_without_ties(second);
    let m1 = index_of(first);
    let m2 = index_of(second);
    assert forall|t: i64| m1.contains_key(t) <==> m2.contains_key(t) by {
        if m1.contains_key(t) {
            let i = choose|i: int| 0 <= i < first.len() && filed_time(first[i]) == Some(t);
            assert(first.contains(first[i]));
            let j = choose|j: int| 0 <= j < second.len() && second[j] == first[i];
            assert(filed_time(second[j]) == Some(t));
        }
        if m2.contains_key(t) {
            let j = choose|j: int| 0 <= j < second.len() && filed_time(second[j]) == Some(t);
            assert(second.contains(second[j]));
            let i = choose|i: int| 0 <= i < first.len() && first[i] == second[j];
            assert(filed_time(first[i]) == Some(t));
        }
    }
    assert forall|t: i64| m1.contains_key(t) implies m1[t] == m2[t] by {
        let i = choose|i: int| 0 <= i < first.len() && filed_time(first[i]) == Some(t);
        assert(first.contains(first[i]));
        let j = choose|j: int| 0 <= j < second.len() && second[j] == first[i];
        assert(m1[filed_time(first[i]).unwrap()] == first[i].path@);
        assert(m2[filed_time(second[j]).unwrap()] == second[j].path@);
    }
    assert(m1 =~= m2);
}

/// `ext` is the extension of the file name `name`: what follows its last `.`,
/// where that `.` is not the name's first character.
pub open spec fn has_extension(name: Seq<char>, ext: Seq<char>) -> bool {
    exists|p: int|
        0 < p < name.len() && name[p] == '.' && (forall|q: int| p < q < name.len() ==> name[q] != '.')
            && name.subrange(p + 1, name.len() as int) == ext
}

/// `c` is the lower-case ASCII letter `lower`, or its upper-case form.
pub open spec fn same_ascii_letter(c: char, lower: char) -> bool {
    c == lower || (c as u32) + 32 == lower as u32
}

/// The file name ends in the extension of activity files, `fit` in any
/// ASCII case.
pub open spec fn is_activity_name(name: Seq<char>) -> bool {
    exists|ext: Seq<char>|
        has_extension(name, ext) && ext.len() == 3 && same_ascii_letter(ext[0], 'f')
            && same_ascii_letter(ext[1], 'i') && same_ascii_letter(ext[2], 't')
}

fn same_letter(c: char, lower: char) -> (r: bool)
    requires
        'a' <= lower <= 'z',
    ensures
        r == same_ascii_letter(c, lower),
{
    c == lower || (c as u32) + 32 == lower as u32
}

/// Whether a file of this name is an activity file: its extension is `fit`,
/// in any ASCII case.
pub fn is_activity_file_name(name: &str) -> (r: bool)
    ensures
        r == is_activity_name(name@),
{
    let n = name.unicode_len();
    let mut p: usize = n;
    while p > 0 && name.get_char(p - 1) != '.'
        invariant
            p <= n,
            n == name@.len(),
            forall|q: int| p <= q < n ==> name@[q] != '.',
        decreases p,
    {
        p = p - 1;
    }
    if p <= 1 {
        proof {
            assert forall|ext: Seq<char>| !has_extension(name@, ext) by {
                if has_extension(name@, ext) {
                    let d = choose|d: int|
                        0 < d < name@.len() && name@[d] == '.' && (forall|q: int|
                            d < q < name@.len() ==> name@[q] != '.') && name@.subrange(
                            d + 1,
                            name@.len() as int,
                        ) == ext;
                    assert(d < p || p == 0);
                }
            }
        }
        return false;
    }
    let dot = p - 1;
    let ghost ext = name@.subrange(dot + 1, n as int);
    proof {
        assert(has_extension(name@, ext));
        assert forall|e: Seq<char>| has_extension(name@, e) implies e == ext by {
            let d = choose|d: int|
                0 < d < name@.len() && name@[d] == '.' && (forall|q: int|
                    d < q < name@.len() ==> name@[q] != '.') && name@.subrange(
                    d + 1,
                    name@.len() as int,
                ) == e;
            if d < dot {
                assert(name@[dot as int] == '.');
            }
        }
    }
    if n - dot != 4 {
        assert(ext.len() != 3);
        return false;
    }
    let r = same_letter(name.get_char(dot + 1), 'f') && same_letter(name.get_char(dot + 2), 'i')
        && same_letter(name.get_char(dot + 3), 't');
    assert(ext[0] == name@[dot + 1] && ext[1] == name@[dot + 2] && ext[2] == name@[dot + 3]);
    assert(r ==> has_extension(name@, ext) && ext.len() == 3 && same_ascii_letter(ext[0], 'f')
        && same_ascii_letter(ext[1], 'i') && same_ascii_letter(ext[2], 't'));
    r
}

/// A path that a scan found only as an empty or unreadable file, a file
/// without a creation time, or a file whose name is not that of an activity
/// file, is filed under no time.
pub proof fn lemma_unfiled_paths_stay_out(files: Seq<ScannedFile>, path: Seq<char>)
    requires
        forall|i: int| 0 <= i < files.len() && #[trigger] files[i].path@ == path ==> filed_time(
            files[i],
        ) is None,
    ensures
        forall|t: i64| #[trigger] index_of(files).contains_key(t) ==> index_of(files)[t] != path,
    decreases files.len(),
{
    if files.len() > 0 {
        let before = files.drop_last();
        assert forall|i: int| 0 <= i < before.len() && #[trigger] before[i].path@ == path implies filed_time(
            before[i],
        ) is None by {
            assert(before[i] == files[i]);
        }
        lemma_unfiled_paths_stay_out(before, path);
        let last = files[files.len() - 1];
        assert(last.path@ == path ==> filed_time(last) is None);
        assert forall|t: i64| #[trigger] index_of(files).contains_key(t) implies index_of(files)[t]
            != path by {
            match filed_time(last) {
                Some(u) => {
                    if t != u {
                        assert(index_of(before).contains_key(t));
                    }
                },
                None => {
                    assert(index_of(before).contains_key(t));
                },
            }
        }
    }
}

} // verus!
