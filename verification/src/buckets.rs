//! Size bucketing: which files share their exact byte length with another file.

use vstd::prelude::*;
use std::collections::HashMap;

verus! {

/// A non-empty regular file seen by the directory walk.
pub struct SizedPath {
    pub size: u64,
    pub path: Seq<char>,
}

/// How many of the files have exactly `size` bytes.
pub open spec fn occurrences(files: Seq<SizedPath>, size: u64) -> nat
    decreases files.len(),
{
    if files.len() == 0 {
        0
    } else if files.last().size == size {
        occurrences(files.drop_last(), size) + 1
    } else {
        occurrences(files.drop_last(), size)
    }
}

/// The bucket of `size`: the paths of the files of that size, in walk order.
pub open spec fn bucket(files: Seq<SizedPath>, size: u64) -> Seq<Seq<char>>
    decreases files.len(),
{
    if files.len() == 0 {
        Seq::empty()
    } else if files.last().size == size {
        bucket(files.drop_last(), size).push(files.last().path)
    } else {
        bucket(files.drop_last(), size)
    }
}

/// The files of `part` whose size occurs at least twice in `whole`, in order.
pub open spec fn candidates_among(part: Seq<SizedPath>, whole: Seq<SizedPath>) -> Seq<SizedPath>
    decreases part.len(),
{
    if part.len() == 0 {
        Seq::empty()
    } else if occurrences(whole, part.last().size) >= 2 {
        candidates_among(part.drop_last(), whole).push(part.last())
    } else {
        candidates_among(part.drop_last(), whole)
    }
}

/// The files worth fingerprinting: those whose bucket holds two paths or more,
/// in walk order.
pub open spec fn candidates_of(files: Seq<SizedPath>) -> Seq<SizedPath> {
    candidates_among(files, files)
}

/// What the walk has recorded after one more file: files of size zero are not
/// recorded.
pub open spec fn recorded(files: Seq<SizedPath>, size: u64, path: Seq<char>) -> Seq<SizedPath> {
    if size == 0 {
        files
    } else {
        files.push(SizedPath { size, path })
    }
}

/// The models of a sequence of `(size, path)` pairs, position by position.
pub open spec fn sized_views(pairs: Seq<(u64, String)>) -> Seq<SizedPath> {
    Seq::new(pairs.len(), |i: int| SizedPath { size: pairs[i].0, path: pairs[i].1@ })
}

/// A bucket holds as many paths as there are files of its size.
pub proof fn lemma_bucket_len(files: Seq<SizedPath>, size: u64)
    ensures
        bucket(files, size).len() == occurrences(files, size),
        occurrences(files, size) <= files.len(),
    decreases files.len(),
{
    if files.len() > 0 {
        lemma_bucket_len(files.drop_last(), size);
    }
}

/// A file is a candidate exactly when it was recorded and its size occurs at
/// least twice.
pub proof fn lemma_candidates_among_contains(part: Seq<SizedPath>, whole: Seq<SizedPath>, file: SizedPath)
    ensures
        candidates_among(part, whole).contains(file) <==> part.contains(file) && occurrences(
            whole,
            file.size,
        ) >= 2,
    decreases part.len(),
{
    if part.len() > 0 {
        let rest = part.drop_last();
        lemma_candidates_among_contains(rest, whole, file);
        if part.contains(file) {
            let i = choose|i: int| 0 <= i < part.len() && part[i] == file;
            if i < rest.len() {
                assert(rest[i] == file);
            }
        }
        if rest.contains(file) {
            let i = choose|i: int| 0 <= i < rest.len() && rest[i] == file;
            assert(part[i] == file);
        }
        if occurrences(whole, part.last().size) >= 2 {
            let kept = candidates_among(rest, whole);
            if kept.push(part.last()).contains(file) {
                let i = choose|i: int| 0 <= i < kept.push(part.last()).len() && kept.push(part.last())[i] == file;
                if i < kept.len() {
                    assert(kept[i] == file);
                }
            }
            if kept.contains(file) {
                let i = choose|i: int| 0 <= i < kept.len() && kept[i] == file;
                assert(kept.push(part.last())[i] == file);
            }
            if file == part.last() {
                assert(kept.push(part.last())[kept.len() as int] == file);
                assert(part[part.len() - 1] == file);
            }
        }
    }
}

/// A file whose size no other recorded file shares is never a candidate, and
/// every candidate was recorded with a size that occurs at least twice.
pub proof fn lemma_size_unique_files_are_not_candidates(files: Seq<SizedPath>, file: SizedPath)
    ensures
        occurrences(files, file.size) <= 1 ==> !candidates_of(files).contains(file),
        candidates_of(files).contains(file) ==> files.contains(file) && occurrences(files, file.size)
            >= 2,
        files.contains(file) && occurrences(files, file.size) >= 2 ==> candidates_of(files).contains(
            file,
        ),
{
    lemma_candidates_among_contains(files, files, file);
}

/// The files recorded by a directory walk, with a count per size.
pub struct SizeBuckets {
    files: Vec<(u64, String)>,
    counts: HashMap<u64, usize>,
}

impl View for SizeBuckets {
    type V = Seq<SizedPath>;

    closed spec fn view(&self) -> Seq<SizedPath> {
        sized_views(self.files@)
    }
}

impl SizeBuckets {
    /// The counts agree with the recorded files.
    pub closed spec fn wf(&self) -> bool {
        forall|size: u64|
            #[trigger] occurrences(sized_views(self.files@), size) == (if self.counts@.contains_key(
                size,
            ) {
                self.counts@[size] as nat
            } else {
                0
            })
    }

    /// No file recorded yet.
    pub fn new() -> (buckets: Self)
        ensures
            buckets.wf(),
            buckets@ == Seq::<SizedPath>::empty(),
    {
        let buckets = SizeBuckets { files: Vec::new(), counts: HashMap::new() };
        assert(sized_views(buckets.files@) =~= Seq::<SizedPath>::empty());
        buckets
    }

    /// Records a regular file of `size` bytes; a file of size zero is ignored.
    pub fn add(&mut self, size: u64, path: String)
        requires
            old(self).wf(),
        ensures
            final(self).wf(),
            final(self)@ == recorded(old(self)@, size, path@),
    {
        broadcast use vstd::std_specs::hash::group_hash_axioms;

        if size == 0 {
            return ;
        }
        let ghost before = sized_views(self.files@);
        let ghost entry = SizedPath { size, path: path@ };
        let known = match self.counts.get(&size) {
            Some(n) => *n,
            None => 0,
        };
        assert(known as nat == occurrences(before, size));
        self.files.push((size, path));
        proof {
            lemma_bucket_len(before, size);
            assert(self.files.len() == before.len() + 1);
            assert(sized_views(self.files@) =~= before.push(entry));
            assert(before.push(entry).drop_last() =~= before);
        }
        self.counts.insert(size, known + 1);
        proof {
            assert forall|s: u64| #[trigger]
                occurrences(sized_views(self.files@), s) == (if self.counts@.contains_key(s) {
                    self.counts@[s] as nat
                } else {
                    0
                }) by {
                assert(occurrences(before.push(entry), s) == occurrences(before, s) + (if s == size {
                    1nat
                } else {
                    0nat
                }));
            }
        }
    }

    /// The recorded files can be counted.
    pub proof fn lemma_count_fits(&self)
        ensures
            self@.len() <= usize::MAX,
    {
        assert(self@.len() == self.files.len());
    }

    /// How many files have been recorded.
    pub fn file_count(&self) -> (count: usize)
        ensures
            count == self@.len(),
    {
        self.files.len()
    }

    /// How many recorded files have exactly `size` bytes.
    pub fn bucket_len(&self, size: u64) -> (count: usize)
        requires
            self.wf(),
        ensures
            count == occurrences(self@, size),
            count == bucket(self@, size).len(),
    {
        broadcast use vstd::std_specs::hash::group_hash_axioms;

        proof {
            lemma_bucket_len(self@, size);
        }
        match self.counts.get(&size) {
            Some(n) => *n,
            None => 0,
        }
    }

    /// The files to fingerprint: every recorded file whose size at least one
    /// other recorded file shares, in the order in which they were recorded.
    pub fn candidates(&self) -> (list: Vec<(u64, String)>)
        requires
            self.wf(),
        ensures
            sized_views(list@) == candidates_of(self@),
    {
        let ghost whole = self@;
        let mut list: Vec<(u64, String)> = Vec::new();
        let mut i: usize = 0;
        assert(whole.take(0) =~= Seq::<SizedPath>::empty());
        assert(sized_views(list@) =~= candidates_among(whole.take(0), whole));
        while i < self.files.len()
            invariant
                i <= self.files.len(),
                self.wf(),
                whole == self@,
                sized_views(list@) == candidates_among(whole.take(i as int), whole),
            decreases self.files.len() - i,
        {
            let ghost before = sized_views(list@);
            let size = self.files[i].0;
            proof {
                assert(whole.take(i + 1).drop_last() =~= whole.take(i as int));
                assert(whole.take(i + 1).last() == whole[i as int]);
            }
            if self.bucket_len(size) >= 2 {
                list.push((size, self.files[i].1.clone()));
                assert(sized_views(list@) =~= before.push(whole[i as int]));
            }
            i += 1;
        }
        assert(whole.take(i as int) =~= whole);
        list
    }
}

} // verus!
