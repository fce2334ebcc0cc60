//! A simple in-memory file system, POSIX byte-range locks and the
//! per-process file descriptor table.
use vstd::prelude::*;

verus! {

/// A copy of `s`.
pub fn copy_bytes(s: &[u8]) -> (r: Vec<u8>)
    ensures
        r@ == s@,
{
    let mut v: Vec<u8> = Vec::new();
    let mut i: usize = 0;
    while i < s.len()
        invariant
            i <= s@.len(),
            v@ == s@.take(i as int),
        decreases s@.len() - i,
    {
        v.push(s[i]);
        i = i + 1;
        assert(v@ =~= s@.take(i as int));
    }
    assert(s@.take(s@.len() as int) =~= s@);
    v
}

/// File data: a static image (an embedded binary) or bytes on the heap.
pub enum FileData {
    Static(&'static [u8]),
    Owned(Vec<u8>),
}

impl FileData {
    /// The bytes of the file.
    pub open spec fn bytes(&self) -> Seq<u8> {
        match self {
            FileData::Static(s) => s@,
            FileData::Owned(v) => v@,
        }
    }

    /// The bytes of the file.
    pub fn as_slice(&self) -> (r: &[u8])
        ensures
            r@ == self.bytes(),
    {
        match self {
            FileData::Static(s) => s,
            FileData::Owned(v) => v.as_slice(),
        }
    }

    /// The length of the file.
    pub fn len(&self) -> (r: usize)
        ensures
            r == self.bytes().len(),
    {
        self.as_slice().len()
    }
}

/// A file: a name and its data.
pub struct File {
    pub name: String,
    pub data: FileData,
}

/// The files as (name, bytes) pairs in order.
pub open spec fn files_view(files: Seq<File>) -> Seq<(Seq<char>, Seq<u8>)> {
    files.map_values(|f: File| (f.name@, f.data.bytes()))
}

/// `i` is the first file named `name`.
pub open spec fn is_first_named<V>(v: Seq<(Seq<char>, V)>, name: Seq<char>, i: int) -> bool {
    &&& 0 <= i < v.len()
    &&& v[i].0 == name
    &&& forall|j: int| 0 <= j < i ==> (#[trigger] v[j]).0 != name
}

/// No file is named `name`.
pub open spec fn not_named<V>(v: Seq<(Seq<char>, V)>, name: Seq<char>) -> bool {
    forall|j: int| 0 <= j < v.len() ==> (#[trigger] v[j]).0 != name
}

/// The contents of the file named `name`, if any (the first such file).
pub open spec fn lookup<V>(v: Seq<(Seq<char>, V)>, name: Seq<char>) -> Option<V> {
    if exists|i: int| #[trigger] is_first_named(v, name, i) {
        Some(v[choose|i: int| #[trigger] is_first_named(v, name, i)].1)
    } else {
        None
    }
}

/// A file that has one name, hence lookups find it.
pub proof fn lemma_lookup_first<V>(v: Seq<(Seq<char>, V)>, name: Seq<char>, i: int)
    requires
        is_first_named(v, name, i),
    ensures
        lookup(v, name) == Some(v[i].1),
{
    let k = choose|k: int| #[trigger] is_first_named(v, name, k);
    if k < i {
        assert(v[k].0 == name);
    } else if k > i {
        assert(v[i].0 == name);
    }
}

/// Without a file of that name a lookup finds nothing.
pub proof fn lemma_lookup_none<V>(v: Seq<(Seq<char>, V)>, name: Seq<char>)
    requires
        not_named(v, name),
    ensures
        lookup(v, name) is None,
{
    if exists|i: int| #[trigger] is_first_named(v, name, i) {
        let k = choose|k: int| #[trigger] is_first_named(v, name, k);
        assert(v[k].0 == name);
    }
}

/// No two files share a name.
pub open spec fn names_distinct<V>(v: Seq<(Seq<char>, V)>) -> bool {
    forall|i: int, j: int| #![trigger v[i], v[j]] 0 <= i < j < v.len() ==> v[i].0 != v[j].0
}

/// A new name appended keeps the names distinct.
proof fn lemma_push_distinct<V>(v: Seq<(Seq<char>, V)>, name: Seq<char>, d: V)
    requires
        names_distinct(v),
        not_named(v, name),
    ensures
        names_distinct(v.push((name, d))),
{
    let w = v.push((name, d));
    assert forall|i: int, j: int| #![trigger w[i], w[j]] 0 <= i < j < w.len() implies w[i].0 != w[j].0 by {
        if j == v.len() {
            assert(v[i].0 != name);
        } else {
            assert(v[i] == w[i] && v[j] == w[j]);
        }
    }
}

/// New contents under a file's own name keep the names distinct.
proof fn lemma_update_distinct<V>(v: Seq<(Seq<char>, V)>, k: int, d: V)
    requires
        names_distinct(v),
        0 <= k < v.len(),
    ensures
        names_distinct(v.update(k, (v[k].0, d))),
{
    let w = v.update(k, (v[k].0, d));
    assert forall|i: int, j: int| #![trigger w[i], w[j]] 0 <= i < j < w.len() implies w[i].0 != w[j].0 by {
        assert(w[i].0 == v[i].0 && w[j].0 == v[j].0);
    }
}

/// Keeping some of the files keeps the names distinct.
proof fn lemma_filter_distinct<V>(v: Seq<(Seq<char>, V)>, pred: spec_fn((Seq<char>, V)) -> bool)
    requires
        names_distinct(v),
    ensures
        names_distinct(v.filter(pred)),
    decreases v.len(),
{
    reveal(Seq::filter);
    if v.len() > 0 {
        let d = v.drop_last();
        assert forall|i: int, j: int| #![trigger d[i], d[j]] 0 <= i < j < d.len() implies d[i].0 != d[j].0 by {
            assert(d[i] == v[i] && d[j] == v[j]);
        }
        lemma_filter_distinct(d, pred);
        let sub = d.filter(pred);
        if pred(v.last()) {
            let w = sub.push(v.last());
            assert forall|i: int, j: int| #![trigger w[i], w[j]] 0 <= i < j < w.len() implies w[i].0 != w[j].0 by {
                if j == sub.len() {
                    assert(sub.contains(sub[i]));
                    d.lemma_filter_contains_rev(pred, sub[i]);
                    let k = choose|k: int| 0 <= k < d.len() && d[k] == sub[i];
                    assert(v[k] == d[k]);
                    assert(v[k].0 != v[v.len() - 1].0);
                } else {
                    assert(w[i] == sub[i] && w[j] == sub[j]);
                }
            }
        }
    }
}

/// With distinct names, reading a listed file's name gives that file's
/// contents: what `list` shows, `read` finds.
pub proof fn lemma_listed_file_found<V>(v: Seq<(Seq<char>, V)>, i: int)
    requires
        names_distinct(v),
        0 <= i < v.len(),
    ensures
        lookup(v, v[i].0) == Some(v[i].1),
{
    assert forall|j: int| 0 <= j < i implies (#[trigger] v[j]).0 != v[i].0 by {
        assert(v[j].0 != v[i].0);
    }
    lemma_lookup_first(v, v[i].0, i);
}

/// A flat in-memory file system: files in creation order.
pub struct FileSystem {
    pub files: Vec<File>,
}

impl FileSystem {
    /// The files as (name, bytes) pairs in order.
    pub open spec fn view(&self) -> Seq<(Seq<char>, Seq<u8>)> {
        files_view(self.files@)
    }

    /// An empty file system.
    pub fn new() -> (r: Self)
        ensures
            r.view() == Seq::<(Seq<char>, Seq<u8>)>::empty(),
            names_distinct(r.view()),
    {
        let r = FileSystem { files: Vec::new() };
        assert(r.view() =~= Seq::<(Seq<char>, Seq<u8>)>::empty());
        r
    }

    /// The index of the first file named `name`.
    fn find(&self, name: &String) -> (r: Option<usize>)
        ensures
            r matches Some(i) ==> is_first_named(self.view(), name@, i as int),
            r is None ==> not_named(self.view(), name@),
    {
        let mut i: usize = 0;
        while i < self.files.len()
            invariant
                i <= self.files@.len(),
                forall|j: int| 0 <= j < i ==> (#[trigger] self.view()[j]).0 != name@,
            decreases self.files@.len() - i,
        {
            if self.files[i].name == *name {
                return Some(i);
            }
            i = i + 1;
        }
        None
    }

    /// Create an empty file. `Err` when a file of that name exists.
    pub fn create(&mut self, name: &str) -> (r: Result<(), ()>)
        ensures
            r is Err <==> !not_named(old(self).view(), name@),
            r is Err ==> final(self).view() == old(self).view(),
            r is Ok ==> final(self).view() == old(self).view().push((name@, Seq::<u8>::empty())),
            names_distinct(old(self).view()) ==> names_distinct(final(self).view()),
    {
        let n = name.to_owned();
        match self.find(&n) {
            Some(_) => Err(()),
            None => {
                self.files.push(File { name: n, data: FileData::Owned(Vec::new()) });
                assert(self.view() =~= old(self).view().push((name@, Seq::<u8>::empty())));
                proof {
                    if names_distinct(old(self).view()) {
                        lemma_push_distinct(old(self).view(), name@, Seq::<u8>::empty());
                    }
                }
                Ok(())
            },
        }
    }

    /// Replace the data of the first file named `name` by `data`, or append
    /// a new file when none exists. Never fails.
    pub fn write_static(&mut self, name: &str, data: &'static [u8]) -> (r: Result<(), ()>)
        ensures
            r is Ok,
            forall|i: int|
                #[trigger] is_first_named(old(self).view(), name@, i) ==> final(self).view() == old(
                    self,
                ).view().update(i, (name@, data@)),
            not_named(old(self).view(), name@) ==> final(self).view() == old(self).view().push(
                (name@, data@),
            ),
            names_distinct(old(self).view()) ==> names_distinct(final(self).view()),
    {
        let n = name.to_owned();
        self.store(n, FileData::Static(data));
        Ok(())
    }

    /// Replace the data of the first file named `name` by a copy of
    /// `data`, or append a new file when none exists. Never fails.
    pub fn write(&mut self, name: &str, data: &[u8]) -> (r: Result<(), ()>)
        ensures
            r is Ok,
            forall|i: int|
                #[trigger] is_first_named(old(self).view(), name@, i) ==> final(self).view() == old(
                    self,
                ).view().update(i, (name@, data@)),
            not_named(old(self).view(), name@) ==> final(self).view() == old(self).view().push(
                (name@, data@),
            ),
            names_distinct(old(self).view()) ==> names_distinct(final(self).view()),
    {
        let n = name.to_owned();
        let v = copy_bytes(data);
        self.store(n, FileData::Owned(v));
        Ok(())
    }

    /// Put `data` under `name`: into the first file of that name, or a new
    /// file at the end.
    fn store(&mut self, name: String, data: FileData)
        ensures
            forall|i: int|
                #[trigger] is_first_named(old(self).view(), name@, i) ==> final(self).view() == old(
                    self,
                ).view().update(i, (name@, data.bytes())),
            not_named(old(self).view(), name@) ==> final(self).view() == old(self).view().push(
                (name@, data.bytes()),
            ),
            names_distinct(old(self).view()) ==> names_distinct(final(self).view()),
    {
        let ghost bytes = data.bytes();
        match self.find(&name) {
            Some(i) => {
                let f = File { name, data };
                self.files.set(i, f);
                proof {
                    assert(self.view() =~= old(self).view().update(i as int, (name@, bytes)));
                    if names_distinct(old(self).view()) {
                        lemma_update_distinct(old(self).view(), i as int, bytes);
                    }
                    assert forall|j: int| #[trigger] is_first_named(old(self).view(), name@, j) implies j
                        == i by {
                        if j < i {
                            assert(old(self).view()[j].0 == name@);
                        } else if j > i {
                            assert(old(self).view()[i as int].0 == name@);
                        }
                    }
                }
            },
            None => {
                let ghost nm = name@;
                self.files.push(File { name, data });
                assert(self.view() =~= old(self).view().push((nm, bytes)));
                proof {
                    if names_distinct(old(self).view()) {
                        lemma_push_distinct(old(self).view(), nm, bytes);
                    }
                }
            },
        }
    }

    /// Append `data` to the first file named `name`. `Err` when there is
    /// none.
    pub fn append(&mut self, name: &str, data: &[u8]) -> (r: Result<(), ()>)
        ensures
            r is Err <==> not_named(old(self).view(), name@),
            r is Err ==> final(self).view() == old(self).view(),
            forall|i: int|
                #[trigger] is_first_named(old(self).view(), name@, i) ==> final(self).view() == old(
                    self,
                ).view().update(i, (name@, old(self).view()[i].1 + data@)),
            names_distinct(old(self).view()) ==> names_distinct(final(self).view()),
    {
        let n = name.to_owned();
        match self.find(&n) {
            Some(i) => {
                let old_bytes = self.files[i].data.as_slice();
                let mut owned = copy_bytes(old_bytes);
                let mut k: usize = 0;
                let ghost base = owned@;
                while k < data.len()
                    invariant
                        k <= data@.len(),
                        owned@ == base + data@.take(k as int),
                    decreases data@.len() - k,
                {
                    owned.push(data[k]);
                    k = k + 1;
                    assert(owned@ =~= base + data@.take(k as int));
                }
                assert(data@.take(data@.len() as int) =~= data@);
                let ghost nb = owned@;
                self.files.set(i, File { name: n, data: FileData::Owned(owned) });
                proof {
                    assert(self.view() =~= old(self).view().update(
                        i as int,
                        (name@, old(self).view()[i as int].1 + data@),
                    ));
                    if names_distinct(old(self).view()) {
                        lemma_update_distinct(old(self).view(), i as int, old(self).view()[i as int].1 + data@);
                    }
                    assert forall|j: int| #[trigger] is_first_named(old(self).view(), name@, j) implies j
                        == i by {
                        if j < i {
                            assert(old(self).view()[j].0 == name@);
                        } else if j > i {
                            assert(old(self).view()[i as int].0 == name@);
                        }
                    }
                }
                Ok(())
            },
            None => Err(()),
        }
    }

    /// The contents of the first file named `name`.
    pub fn read(&self, name: &str) -> (r: Option<&[u8]>)
        ensures
            r is None <==> lookup(self.view(), name@) is None,
            r matches Some(b) ==> lookup(self.view(), name@) == Some(b@),
    {
        let n = name.to_owned();
        match self.find(&n) {
            Some(i) => {
                proof {
                    lemma_lookup_first(self.view(), name@, i as int);
                }
                Some(self.files[i].data.as_slice())
            },
            None => {
                proof {
                    lemma_lookup_none(self.view(), name@);
                }
                None
            },
        }
    }

    /// Delete every file named `name`. `Err` when there is none.
    pub fn delete(&mut self, name: &str) -> (r: Result<(), ()>)
        ensures
            final(self).view() == old(self).view().filter(
                |p: (Seq<char>, Seq<u8>)| p.0 != name@,
            ),
            r is Err <==> not_named(old(self).view(), name@),
            names_distinct(old(self).view()) ==> names_distinct(final(self).view()),
    {
        let n = name.to_owned();
        let ghost pred = |p: (Seq<char>, Seq<u8>)| p.0 != name@;
        proof {
            if names_distinct(old(self).view()) {
                lemma_filter_distinct(old(self).view(), pred);
            }
        }
        let len_before = self.files.len();
        let mut kept: Vec<File> = Vec::new();
        let mut files = Vec::new();
        std::mem::swap(&mut files, &mut self.files);
        let ghost all = files_view(files@);
        assert(all.skip(0) =~= all);
        let mut removed = false;
        let mut i: usize = 0;
        let total = files.len();
        while i < total
            invariant
                i <= total,
                total == all.len(),
                files_view(files@) == all.skip(i as int),
                files@.len() == total - i,
                all == old(self).view(),
                n@ == name@,
                pred == (|p: (Seq<char>, Seq<u8>)| p.0 != name@),
                files_view(kept@) == all.take(i as int).filter(pred),
                removed <==> exists|j: int| 0 <= j < i && (#[trigger] all[j]).0 == name@,
            decreases total - i,
        {
            let ghost before = all.take(i as int);
            proof {
                assert(all.take(i + 1) =~= before.push(all[i as int]));
                before.lemma_filter_push(all[i as int], pred);
                assert(files_view(files@)[0] == all[i as int]);
            }
            let ghost prev = files@;
            let f = files.remove(0);
            proof {
                assert forall|k: int| 0 <= k < files@.len() implies files_view(files@)[k]
                    == all.skip(i + 1)[k] by {
                    assert(files@[k] == prev[k + 1]);
                    assert(files_view(prev)[k + 1] == all.skip(i as int)[k + 1]);
                }
                assert(files_view(files@) =~= all.skip(i + 1));
            }
            if f.name == n {
                removed = true;
            } else {
                kept.push(f);
                assert(files_view(kept@) =~= before.filter(pred).push(all[i as int]));
            }
            i = i + 1;
        }
        assert(all.take(total as int) =~= all);
        self.files = kept;
        if removed {
            Ok(())
        } else {
            Err(())
        }
    }

    /// All files, in order.
    pub fn list(&self) -> (r: &[File])
        ensures
            r@ == self.files@,
    {
        self.files.as_slice()
    }

    /// The number of files.
    pub fn file_count(&self) -> (r: usize)
        ensures
            r == self.view().len(),
    {
        self.files.len()
    }
}

/// When some file is named `name`, a first one is.
pub proof fn lemma_some_first<V>(v: Seq<(Seq<char>, V)>, name: Seq<char>, j: int)
    requires
        0 <= j < v.len(),
        v[j].0 == name,
    ensures
        exists|i: int| #[trigger] is_first_named(v, name, i),
    decreases j,
{
    if forall|k: int| 0 <= k < j ==> (#[trigger] v[k]).0 != name {
        assert(is_first_named(v, name, j));
    } else {
        let k = choose|k: int| 0 <= k < j && (#[trigger] v[k]).0 == name;
        lemma_some_first(v, name, k);
    }
}

/// Reading a file back gives what was last written to it.
pub proof fn lemma_write_then_read<V>(
    before: Seq<(Seq<char>, V)>,
    after: Seq<(Seq<char>, V)>,
    name: Seq<char>,
    data: V,
)
    requires
        forall|i: int| #[trigger] is_first_named(before, name, i) ==> after == before.update(i, (name, data)),
        not_named(before, name) ==> after == before.push((name, data)),
    ensures
        lookup(after, name) == Some(data),
{
    if exists|i: int| #[trigger] is_first_named(before, name, i) {
        let i = choose|i: int| #[trigger] is_first_named(before, name, i);
        assert(is_first_named(after, name, i));
        lemma_lookup_first(after, name, i);
    } else {
        assert forall|j: int| 0 <= j < before.len() implies (#[trigger] before[j]).0 != name by {
            if before[j].0 == name {
                lemma_some_first(before, name, j);
            }
        }
        assert(is_first_named(after, name, before.len() as int));
        lemma_lookup_first(after, name, before.len() as int);
    }
}

/// A directory listing as (name, size) pairs.
pub open spec fn listing_view(v: Seq<(String, usize)>) -> Seq<(Seq<char>, usize)> {
    v.map_values(|p: (String, usize)| (p.0@, p.1))
}

/// Some entry of `s` is named `n`.
pub open spec fn has_name(s: Seq<(Seq<char>, usize)>, n: Seq<char>) -> bool {
    exists|k: int| 0 <= k < s.len() && (#[trigger] s[k]).0 == n
}

/// `acc` followed by the entries of `more`, in order, each only if no
/// entry so far has its name.
pub open spec fn merge_new(acc: Seq<(Seq<char>, usize)>, more: Seq<(Seq<char>, usize)>) -> Seq<(Seq<char>, usize)>
    decreases more.len(),
{
    if more.len() == 0 {
        acc
    } else {
        let m = merge_new(acc, more.drop_last());
        if has_name(m, more.last().0) {
            m
        } else {
            m.push(more.last())
        }
    }
}

/// The in-memory files as (name, size) pairs.
pub open spec fn ram_listing(v: Seq<(Seq<char>, Seq<u8>)>) -> Seq<(Seq<char>, usize)> {
    v.map_values(|p: (Seq<char>, Seq<u8>)| (p.0, p.1.len() as usize))
}

/// Some entry of `v` is named `name`.
fn contains_name(v: &Vec<(String, usize)>, name: &String) -> (r: bool)
    ensures
        r == has_name(listing_view(v@), name@),
{
    let mut i: usize = 0;
    while i < v.len()
        invariant
            i <= v@.len(),
            forall|k: int| 0 <= k < i ==> (#[trigger] listing_view(v@)[k]).0 != name@,
        decreases v@.len() - i,
    {
        if v[i].0 == *name {
            assert(listing_view(v@)[i as int].0 == name@);
            return true;
        }
        i = i + 1;
    }
    false
}

/// Appends the entries of `more` whose names are not listed yet.
fn merge_into(result: &mut Vec<(String, usize)>, more: &Vec<(String, usize)>)
    ensures
        listing_view(final(result)@) == merge_new(listing_view(old(result)@), listing_view(more@)),
{
    let ghost acc = listing_view(result@);
    let mut i: usize = 0;
    while i < more.len()
        invariant
            i <= more@.len(),
            listing_view(result@) == merge_new(acc, listing_view(more@).take(i as int)),
        decreases more@.len() - i,
    {
        let ghost m = listing_view(more@);
        proof {
            assert(m.take(i + 1).drop_last() =~= m.take(i as int));
            assert(m.take(i + 1).last() == m[i as int]);
        }
        if !contains_name(result, &more[i].0) {
            let e = (more[i].0.clone(), more[i].1);
            result.push(e);
            assert(listing_view(result@) =~= merge_new(acc, m.take(i as int)).push(m[i as int]));
        }
        i = i + 1;
    }
    assert(listing_view(more@).take(more@.len() as int) =~= listing_view(more@));
}

impl FileSystem {
    /// The files as (name, size) pairs.
    pub fn listing(&self) -> (r: Vec<(String, usize)>)
        ensures
            listing_view(r@) == ram_listing(self.view()),
    {
        let mut r: Vec<(String, usize)> = Vec::new();
        let mut i: usize = 0;
        while i < self.files.len()
            invariant
                i <= self.files@.len(),
                r@.len() == i,
                listing_view(r@) == ram_listing(self.view()).take(i as int),
            decreases self.files@.len() - i,
        {
            let e = (self.files[i].name.clone(), self.files[i].data.len());
            let ghost prev = r@;
            r.push(e);
            proof {
                assert(self.view()[i as int] == (self.files@[i as int].name@, self.files@[i as int].data.bytes()));
                assert(listing_view(r@)[i as int] == ram_listing(self.view())[i as int]);
                assert forall|k: int| 0 <= k < i implies listing_view(r@)[k] == listing_view(prev)[k] by {
                    assert(r@[k] == prev[k]);
                }
            }
            i = i + 1;
            assert(listing_view(r@) =~= ram_listing(self.view()).take(i as int));
        }
        assert(ram_listing(self.view()).take(self.files@.len() as int) =~= ram_listing(self.view()));
        r
    }
}

/// The listing of directory `path`. `ext4` is ext4's listing of it when
/// ext4 is mounted, `fat32` the FAT32 root listing when FAT32 is. A path
/// other than the root lists ext4 only (only ext4 has subdirectories);
/// the root merges ext4, then FAT32, then the in-memory files, each name
/// once (the first source wins).
pub fn list_directory(
    path: &str,
    ext4: Option<Vec<(String, usize)>>,
    fat32: Option<Vec<(String, usize)>>,
    ram: &FileSystem,
) -> (r: Vec<(String, usize)>)
    ensures
        listing_view(r@) == match ext4 {
            Some(e) => if path@.len() > 0 {
                listing_view(e@)
            } else {
                merge_new(
                    merge_new(listing_view(e@), match fat32 {
                        Some(f) => listing_view(f@),
                        None => Seq::empty(),
                    }),
                    ram_listing(ram.view()),
                )
            },
            None => merge_new(
                merge_new(Seq::empty(), match fat32 {
                    Some(f) => listing_view(f@),
                    None => Seq::empty(),
                }),
                ram_listing(ram.view()),
            ),
        },
{
    let mut result: Vec<(String, usize)> = Vec::new();
    match ext4 {
        Some(e) => {
            result = e;
            if !path.is_empty() {
                return result;
            }
        },
        None => {
            assert(listing_view(result@) =~= Seq::empty());
        },
    }
    match fat32 {
        Some(f) => merge_into(&mut result, &f),
        None => {},
    }
    let ram_files = ram.listing();
    merge_into(&mut result, &ram_files);
    result
}

/// Every file of the root directory (see `list_directory`).
pub fn list_all_files(
    ext4: Option<Vec<(String, usize)>>,
    fat32: Option<Vec<(String, usize)>>,
    ram: &FileSystem,
) -> (r: Vec<(String, usize)>)
    ensures
        listing_view(r@) == merge_new(
            merge_new(match ext4 {
                Some(e) => listing_view(e@),
                None => Seq::empty(),
            }, match fat32 {
                Some(f) => listing_view(f@),
                None => Seq::empty(),
            }),
            ram_listing(ram.view()),
        ),
{
    proof {
        reveal_strlit("");
    }
    list_directory("", ext4, fat32, ram)
}

/// The data of file `name`: what ext4 found (`ext4`, when mounted), else
/// what FAT32 found (`fat32`, when mounted), else a copy of the in-memory
/// file.
pub fn read_file_owned(name: &str, ext4: Option<Vec<u8>>, fat32: Option<Vec<u8>>, ram: &FileSystem) -> (r: Option<Vec<u8>>)
    ensures
        match (ext4, fat32) {
            (Some(e), _) => r == Some(e),
            (None, Some(f)) => r == Some(f),
            (None, None) => match lookup(ram.view(), name@) {
                Some(b) => r matches Some(v) && v@ == b,
                None => r is None,
            },
        },
{
    match ext4 {
        Some(e) => Some(e),
        None => match fat32 {
            Some(f) => Some(f),
            None => match ram.read(name) {
                Some(b) => Some(copy_bytes(b)),
                None => None,
            },
        },
    }
}

/// Write file `name`: ext4's outcome (`ext4`, when mounted, with any
/// error reduced to `Err(())`), else a write to the in-memory file system,
/// which always succeeds.
pub fn write_file_owned<E>(name: &str, data: &[u8], ext4: Option<Result<(), E>>, ram: &mut FileSystem) -> (r: Result<(), ()>)
    ensures
        match ext4 {
            Some(res) => (r is Ok <==> res is Ok) && final(ram).view() == old(ram).view(),
            None => {
                &&& r is Ok
                &&& forall|i: int|
                    #[trigger] is_first_named(old(ram).view(), name@, i) ==> final(ram).view() == old(
                        ram,
                    ).view().update(i, (name@, data@))
                &&& not_named(old(ram).view(), name@) ==> final(ram).view() == old(ram).view().push(
                    (name@, data@),
                )
            },
        },
{
    match ext4 {
        Some(res) => match res {
            Ok(()) => Ok(()),
            Err(_) => Err(()),
        },
        None => ram.write(name, data),
    }
}

/// Whether `name` exists: ext4's answer (`ext4`, when mounted) or inode 1
/// for an in-memory file.
pub fn lookup_path(name: &str, ext4: Option<Option<u64>>, ram: &FileSystem) -> (r: Option<u64>)
    ensures
        match ext4 {
            Some(a) => r == a,
            None => r == if lookup(ram.view(), name@) is Some {
                Some(1u64)
            } else {
                None
            },
        },
{
    match ext4 {
        Some(a) => a,
        None => if ram.read(name).is_some() {
            Some(1)
        } else {
            None
        },
    }
}

/// Deletes `name` from the in-memory files; succeeds when ext4 deleted it
/// (`ext4_deleted`) or an in-memory file was removed.
pub fn delete_file(name: &str, ext4_deleted: bool, ram: &mut FileSystem) -> (r: Result<(), ()>)
    ensures
        final(ram).view() == old(ram).view().filter(|p: (Seq<char>, Seq<u8>)| p.0 != name@),
        r is Ok <==> (ext4_deleted || !not_named(old(ram).view(), name@)),
{
    let ram_ok = ram.delete(name).is_ok();
    if ext4_deleted || ram_ok {
        Ok(())
    } else {
        Err(())
    }
}

/// What a listing shows is what reads give: in a file system whose names
/// are distinct (as `FileSystem::new` makes it and `create`, `write`,
/// `write_static`, `append` and `delete` keep it, so every file system
/// reached from `new` by them), the listed names are pairwise distinct,
/// there are as many files as listed entries, and reading a listed file's
/// name gives that file's contents.
pub proof fn law_listing_matches_reads(fs: FileSystem)
    requires
        names_distinct(fs.view()),
    ensures
        forall|i: int, j: int|
            0 <= i < j < fs.files@.len() ==> (#[trigger] fs.files@[i]).name@ != (#[trigger] fs.files@[j]).name@,
        fs.view().len() == fs.files@.len(),
        forall|i: int|
            0 <= i < fs.files@.len() ==> lookup(fs.view(), (#[trigger] fs.files@[i]).name@) == Some(
                fs.files@[i].data.bytes(),
            ),
{
    let v = fs.view();
    assert forall|i: int, j: int|
        0 <= i < j < fs.files@.len() implies (#[trigger] fs.files@[i]).name@ != (#[trigger] fs.files@[j]).name@ by {
        assert(v[i].0 != v[j].0);
    }
    assert forall|i: int| 0 <= i < fs.files@.len() implies lookup(v, (#[trigger] fs.files@[i]).name@) == Some(
        fs.files@[i].data.bytes(),
    ) by {
        lemma_listed_file_found(v, i);
    }
}

} // verus!
