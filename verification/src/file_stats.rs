//! Statistics of a directory tree by file extension.

use vstd::prelude::*;
use vstd::string::StringExecFns;
use crate::ranking::{
    Ranked, RankedExec, is_stable_ranking, lemma_ranking_keeps_totals, lemma_ranking_of_images,
    lemma_total_bounds_each, lemma_total_of_images, lemma_total_update, rank_desc, total,
};
use crate::text::is_part_of;

verus! {

/// The files of one extension.
#[derive(Clone, Debug)]
pub struct FileStats {
    /// The extension as shown: a dot and the lowercase extension, or the label
    /// for files without one.
    pub extension: String,
    pub count: u64,
    pub total_size: u64,
}

/// The model of a [`FileStats`].
pub struct FileStatsView {
    pub extension: Seq<char>,
    pub count: u64,
    pub total_size: u64,
}

impl View for FileStats {
    type V = FileStatsView;

    open spec fn view(&self) -> FileStatsView {
        FileStatsView { extension: self.extension@, count: self.count, total_size: self.total_size }
    }
}

impl Ranked for FileStatsView {
    /// Extensions are ranked by the number of their files.
    open spec fn rank(&self) -> u64 {
        self.count
    }
}

impl Ranked for FileStats {
    /// Extensions are ranked by the number of their files.
    open spec fn rank(&self) -> u64 {
        self.count
    }
}

impl RankedExec for FileStats {
    fn rank_value(&self) -> (rank: u64) {
        self.count
    }
}

/// The function that takes a statistics entry to its model.
pub open spec fn stats_view() -> spec_fn(FileStats) -> FileStatsView {
    |stats: FileStats| stats@
}

/// The models of a sequence of statistics entries, position by position.
pub open spec fn stats_views(stats: Seq<FileStats>) -> Seq<FileStatsView> {
    stats.map_values(stats_view())
}

/// The statistics of a directory tree.
#[derive(Clone, Debug)]
pub struct ScanResult {
    pub stats: Vec<FileStats>,
    pub total_files: u64,
    pub total_size: u64,
    pub type_count: usize,
}

/// The label shown for an extension: the label for no extension where it is
/// empty, else a dot and the extension.
pub open spec fn extension_label_text(extension: Seq<char>) -> Seq<char> {
    if extension.len() == 0 {
        "(无扩展名)"@
    } else {
        "."@ + extension
    }
}

/// The label shown for an extension.
pub fn extension_label(extension: &str) -> (label: String)
    ensures
        label@ == extension_label_text(extension@),
{
    if extension.is_empty() {
        String::from_str("(无扩展名)")
    } else {
        let mut label = String::from_str(".");
        label.append(extension);
        label
    }
}

/// The lowercase form of a text, as `str::to_lowercase` gives it.
pub uninterp spec fn lowercase_text(text: Seq<char>) -> Seq<char>;

/// `str::to_lowercase`: the lowercase equivalent of the text, a function of the
/// text alone.
#[verifier::external_body]
pub(crate) fn str_to_lowercase(text: &str) -> (lower: String)
    ensures
        lower@ == lowercase_text(text@),
{
    text.to_lowercase()
}

/// `std::path::Path::extension`: the extension of the final component of a
/// path, if it has one. Which component that is depends on the platform's
/// separators; on every platform the extension is what follows the final dot
/// of that component, so it is a contiguous part of the path and holds no dot.
#[verifier::external_body]
fn path_extension(path: &str) -> (extension: Option<String>)
    ensures
        extension is Some ==> is_part_of(extension->0@, path@) && !extension->0@.contains('.'),
{
    std::path::Path::new(path).extension().map(|extension| extension.to_string_lossy().to_string())
}

/// The key under which a file is counted, from the extension found in its path:
/// the lowercase extension, or the empty text where the path has none.
pub open spec fn extension_key_text(extension: Option<Seq<char>>) -> Seq<char> {
    match extension {
        Some(extension) => lowercase_text(extension),
        None => Seq::empty(),
    }
}

/// The text of an extension that may be missing.
pub open spec fn found_text(extension: Option<String>) -> Option<Seq<char>> {
    match extension {
        Some(extension) => Some(extension@),
        None => None,
    }
}

/// The key under which a file is counted, from the extension found in its path:
/// the lowercase extension, or the empty text where the path has none.
pub fn extension_key(extension: Option<String>) -> (key: String)
    ensures
        key@ == extension_key_text(found_text(extension)),
{
    match extension {
        Some(extension) => str_to_lowercase(extension.as_str()),
        None => String::new(),
    }
}

/// The key under which the file at `path` is counted: the key of the extension
/// that the platform finds in the path, or of none where it finds none.
pub fn extension_key_of(path: &str) -> (key: String)
    ensures
        exists|found: Option<Seq<char>>|
            key@ == #[trigger] extension_key_text(found) && (found is Some ==> is_part_of(
                found->0,
                path@,
            ) && !found->0.contains('.')),
{
    let found = path_extension(path);
    let ghost text = found_text(found);
    let key = extension_key(found);
    assert(key@ == extension_key_text(text) && (text is Some ==> is_part_of(text->0, path@)
        && !text->0.contains('.')));
    key
}

/// The running count for one extension key.
pub struct ExtensionTally {
    pub extension: Seq<char>,
    pub count: u64,
    pub total_size: u64,
}

/// The position of the entry for `extension`, or the number of entries where
/// there is none.
pub open spec fn position_of(entries: Seq<ExtensionTally>, extension: Seq<char>) -> int
    decreases entries.len(),
{
    if entries.len() == 0 {
        0
    } else {
        let earlier = position_of(entries.drop_last(), extension);
        if earlier < entries.len() - 1 {
            earlier
        } else if entries.last().extension == extension {
            entries.len() - 1
        } else {
            entries.len() as int
        }
    }
}

/// The entries after one more file of `size` bytes under `extension`: its entry
/// grows by one file and `size` bytes, or a new entry is added at the end.
pub open spec fn tallied(entries: Seq<ExtensionTally>, extension: Seq<char>, size: u64) -> Seq<
    ExtensionTally,
> {
    let at = position_of(entries, extension);
    if 0 <= at < entries.len() {
        entries.update(
            at,
            ExtensionTally {
                extension,
                count: (entries[at].count + 1) as u64,
                total_size: (entries[at].total_size + size) as u64,
            },
        )
    } else {
        entries.push(ExtensionTally { extension, count: 1, total_size: size })
    }
}

/// The statistics entry shown for a tally entry.
pub open spec fn shown(entry: ExtensionTally) -> FileStatsView {
    FileStatsView {
        extension: extension_label_text(entry.extension),
        count: entry.count,
        total_size: entry.total_size,
    }
}

/// The function that takes a tally entry to the statistics entry shown for it.
pub open spec fn shown_entry() -> spec_fn(ExtensionTally) -> FileStatsView {
    |entry: ExtensionTally| shown(entry)
}

/// The statistics entries shown for the tally entries, position by position.
pub open spec fn shown_entries(entries: Seq<ExtensionTally>) -> Seq<FileStatsView> {
    entries.map_values(shown_entry())
}

/// The number of files of a tally entry.
pub open spec fn entry_count() -> spec_fn(ExtensionTally) -> int {
    |entry: ExtensionTally| entry.count as int
}

/// The number of bytes of a tally entry.
pub open spec fn entry_bytes() -> spec_fn(ExtensionTally) -> int {
    |entry: ExtensionTally| entry.total_size as int
}

/// The number of files of a statistics entry.
pub open spec fn stats_count() -> spec_fn(FileStatsView) -> int {
    |stats: FileStatsView| stats.count as int
}

/// The number of bytes of a statistics entry.
pub open spec fn stats_bytes() -> spec_fn(FileStatsView) -> int {
    |stats: FileStatsView| stats.total_size as int
}

/// No two entries stand for the same extension.
pub open spec fn distinct_extensions(entries: Seq<ExtensionTally>) -> bool {
    forall|i: int, j: int| 0 <= i < j < entries.len() ==> entries[i].extension != entries[j].extension
}

/// A tally is consistent when it has one entry per extension, every entry
/// counts at least one file, and the files and bytes of the entries add up to
/// the totals.
pub open spec fn consistent(tally: StatsTallyView) -> bool {
    &&& distinct_extensions(tally.entries)
    &&& forall|i: int| 0 <= i < tally.entries.len() ==> (#[trigger] tally.entries[i]).count >= 1
    &&& total(tally.entries, entry_count()) == tally.total_files
    &&& total(tally.entries, entry_bytes()) == tally.total_size
}

/// The model of a [`StatsTally`].
pub struct StatsTallyView {
    pub entries: Seq<ExtensionTally>,
    pub total_files: u64,
    pub total_size: u64,
}

/// The statistics of a directory walk while it runs.
pub struct StatsTally {
    entries: Vec<FileStats>,
    total_files: u64,
    total_size: u64,
}

spec fn tally_entries(entries: Seq<FileStats>) -> Seq<ExtensionTally> {
    Seq::new(
        entries.len(),
        |i: int|
            ExtensionTally {
                extension: entries[i].extension@,
                count: entries[i].count,
                total_size: entries[i].total_size,
            },
    )
}

proof fn lemma_position_of(entries: Seq<ExtensionTally>, extension: Seq<char>)
    ensures
        0 <= position_of(entries, extension) <= entries.len(),
        position_of(entries, extension) < entries.len() ==> entries[position_of(
            entries,
            extension,
        )].extension == extension,
        forall|i: int|
            0 <= i < position_of(entries, extension) ==> (#[trigger] entries[i]).extension != extension,
    decreases entries.len(),
{
    if entries.len() > 0 {
        lemma_position_of(entries.drop_last(), extension);
        assert forall|i: int| 0 <= i < position_of(entries, extension) implies (#[trigger] entries[i]).extension
            != extension by {
            if i < entries.len() - 1 {
                assert(entries.drop_last()[i] == entries[i]);
            }
        }
    }
}

impl View for StatsTally {
    type V = StatsTallyView;

    closed spec fn view(&self) -> StatsTallyView {
        StatsTallyView {
            entries: tally_entries(self.entries@),
            total_files: self.total_files,
            total_size: self.total_size,
        }
    }
}

impl StatsTally {
    /// The tally is consistent: one entry per extension, each of one file at
    /// least, the entries adding up to the totals.
    pub open spec fn wf(&self) -> bool {
        consistent(self@)
    }

    /// Nothing counted yet.
    pub fn new() -> (tally: Self)
        ensures
            tally.wf(),
            tally@.entries == Seq::<ExtensionTally>::empty(),
            tally@.total_files == 0,
            tally@.total_size == 0,
    {
        let tally = StatsTally { entries: Vec::new(), total_files: 0, total_size: 0 };
        assert(tally_entries(tally.entries@) =~= Seq::<ExtensionTally>::empty());
        tally
    }

    /// The number of files counted.
    pub fn total_files(&self) -> (count: u64)
        ensures
            count == self@.total_files,
    {
        self.total_files
    }

    /// The number of bytes counted.
    pub fn total_size(&self) -> (bytes: u64)
        ensures
            bytes == self@.total_size,
    {
        self.total_size
    }

    /// Counts one file of `size` bytes under the extension key `extension`.
    pub fn record(&mut self, extension: String, size: u64)
        requires
            old(self).wf(),
            old(self)@.total_files < u64::MAX,
            old(self)@.total_size + size <= u64::MAX,
        ensures
            final(self).wf(),
            final(self)@.entries == tallied(old(self)@.entries, extension@, size),
            final(self)@.total_files == old(self)@.total_files + 1,
            final(self)@.total_size == old(self)@.total_size + size,
    {
        let ghost before = tally_entries(self.entries@);
        let mut at: usize = 0;
        assert(before.take(0) =~= Seq::<ExtensionTally>::empty());
        while at < self.entries.len() && self.entries[at].extension != extension
            invariant
                at <= self.entries.len(),
                before == tally_entries(self.entries@),
                position_of(before.take(at as int), extension@) == at,
            decreases self.entries.len() - at,
        {
            assert(before.take(at + 1).drop_last() =~= before.take(at as int));
            at += 1;
        }
        proof {
            lemma_position_of(before, extension@);
            lemma_position_of(before.take(at as int), extension@);
            if at < self.entries.len() {
                assert(before.take(at + 1).drop_last() =~= before.take(at as int));
                assert(before.take(at + 1).last() == before[at as int]);
                assert(position_of(before.take(at + 1), extension@) == at);
                lemma_position_prefix(before, at + 1, extension@);
                lemma_total_bounds_each(before, entry_count(), at as int);
                lemma_total_bounds_each(before, entry_bytes(), at as int);
            } else {
                assert(before.take(at as int) =~= before);
            }
            assert(position_of(before, extension@) == at);
        }
        let ghost after = tallied(before, extension@, size);
        self.total_files = self.total_files + 1;
        self.total_size = self.total_size + size;
        if at < self.entries.len() {
            let count = self.entries[at].count + 1;
            let total_size = self.entries[at].total_size + size;
            self.entries[at].count = count;
            self.entries[at].total_size = total_size;
            proof {
                assert(tally_entries(self.entries@) =~= after);
                lemma_total_update(before, at as int, after[at as int], entry_count());
                lemma_total_update(before, at as int, after[at as int], entry_bytes());
                assert forall|i: int, j: int| 0 <= i < j < after.len() implies after[i].extension
                    != after[j].extension by {
                    assert(before[i].extension != before[j].extension);
                }
                assert forall|i: int| 0 <= i < after.len() implies (#[trigger] after[i]).count >= 1 by {
                    assert(before[i].count >= 1);
                }
            }
        } else {
            self.entries.push(FileStats { extension, count: 1, total_size: size });
            proof {
                assert(tally_entries(self.entries@) =~= after);
                assert(after.drop_last() =~= before);
                assert forall|i: int, j: int| 0 <= i < j < after.len() implies after[i].extension
                    != after[j].extension by {
                    if j < before.len() {
                        assert(before[i].extension != before[j].extension);
                    } else {
                        assert(before[i].extension != extension@);
                    }
                }
                assert forall|i: int| 0 <= i < after.len() implies (#[trigger] after[i]).count >= 1 by {
                    if i < before.len() {
                        assert(before[i].count >= 1);
                    }
                }
            }
        }
    }

    /// Closes the tally: one entry per extension under its label, extensions
    /// with more files first and extensions with equally many files in the
    /// order in which they were first met. The entries still add up to the
    /// totals.
    pub fn finish(self) -> (result: ScanResult)
        requires
            self.wf(),
        ensures
            is_stable_ranking(shown_entries(self@.entries), stats_views(result.stats@)),
            result.total_files == self@.total_files,
            result.total_size == self@.total_size,
            result.type_count == result.stats@.len(),
            result.type_count == self@.entries.len(),
            total(stats_views(result.stats@), stats_count()) == result.total_files,
            total(stats_views(result.stats@), stats_bytes()) == result.total_size,
    {
        let ghost before = tally_entries(self.entries@);
        let mut labelled: Vec<FileStats> = Vec::new();
        let total_files = self.total_files;
        let total_size = self.total_size;
        let entries = self.entries;
        for entry in it: entries
            invariant
                before == tally_entries(it.seq()),
                labelled.len() == it.index(),
                forall|k: int| 0 <= k < labelled.len() ==> (#[trigger] labelled[k])@ == shown(before[k]),
        {
            let FileStats { extension, count, total_size } = entry;
            labelled.push(FileStats { extension: extension_label(extension.as_str()), count, total_size });
        }
        let ghost unranked = labelled@;
        assert(stats_views(unranked) =~= shown_entries(before));
        let stats = rank_desc(labelled);
        proof {
            lemma_ranking_of_images(unranked, stats@, stats_view());
            lemma_ranking_keeps_totals(stats_views(unranked), stats_views(stats@), stats_count());
            lemma_ranking_keeps_totals(stats_views(unranked), stats_views(stats@), stats_bytes());
            lemma_total_of_images(before, shown_entry(), stats_count(), entry_count());
            lemma_total_of_images(before, shown_entry(), stats_bytes(), entry_bytes());
        }
        let type_count = stats.len();
        ScanResult { stats, total_files, total_size, type_count }
    }
}

proof fn lemma_position_prefix(entries: Seq<ExtensionTally>, n: int, extension: Seq<char>)
    requires
        0 <= n <= entries.len(),
        position_of(entries.take(n), extension) < n,
    ensures
        position_of(entries, extension) == position_of(entries.take(n), extension),
    decreases entries.len() - n,
{
    if n < entries.len() {
        assert(entries.take(n + 1).drop_last() =~= entries.take(n));
        lemma_position_prefix(entries, n + 1, extension);
    } else {
        assert(entries.take(n) =~= entries);
    }
}

} // verus!
