//! The import of a file or a directory tree into the content store, as far
//! as it is decided here: which files are taken under which names, what the
//! store's reports on one file amount to, and what becomes of the batch.

use crate::manifest::{
    arranged, build_manifest, lists, tags_of, total_size_of, ContentEntry, ContentId, Manifest,
};
use crate::path::{
    canonicalized_path_to_string, normalized, views, PathError, PathErrorView, PathPart,
};
use crate::vecs::reversed;
use vstd::prelude::*;

verus! {

/// Why an import has no manifest.
#[derive(Clone, Debug, PartialEq, Eq)]
pub enum ImportError {
    /// The path to share does not exist.
    NotFound,
    /// The walk through the directory tree failed.
    WalkFailed { cause: String },
    /// A file has no valid name.
    InvalidPath(PathError),
    /// The store could not take a file in.
    ImportFailed { name: String, cause: String },
    /// The store ended the import of a file without a tag for it.
    MissingTag { name: String },
    /// The sizes of the files do not add up within 64 bits.
    TooLarge,
}

/// An import error, as contracts see it.
pub enum ImportErrorView {
    NotFound,
    WalkFailed { cause: Seq<char> },
    InvalidPath(PathErrorView),
    ImportFailed { name: Seq<char>, cause: Seq<char> },
    MissingTag { name: Seq<char> },
    TooLarge,
}

impl View for ImportError {
    type V = ImportErrorView;

    open spec fn view(&self) -> ImportErrorView {
        match self {
            ImportError::NotFound => ImportErrorView::NotFound,
            ImportError::WalkFailed { cause } => ImportErrorView::WalkFailed { cause: cause@ },
            ImportError::InvalidPath(error) => ImportErrorView::InvalidPath(error@),
            ImportError::ImportFailed { name, cause } => ImportErrorView::ImportFailed {
                name: name@,
                cause: cause@,
            },
            ImportError::MissingTag { name } => ImportErrorView::MissingTag { name: name@ },
            ImportError::TooLarge => ImportErrorView::TooLarge,
        }
    }
}

/// What the walk through a directory tree yields at one step. `path` is
/// whatever names the entry for the store; the library hands it through.
#[derive(Debug)]
pub enum WalkItem<P> {
    /// An entry of the tree: whether it is a regular file, and the
    /// components of its path from the directory that holds the root.
    Entry { is_file: bool, relative: Vec<PathPart>, path: P },
    /// The walk failed at this step.
    Failed { cause: String },
}

/// A file to import, and the name that it gets in the share.
#[derive(Debug)]
pub struct DataSource<P> {
    pub name: String,
    pub path: P,
}

/// What is wrong with one step of a walk, if anything: the walk failed
/// there, or it found a regular file whose path has no valid relative name.
pub open spec fn item_error<P>(item: WalkItem<P>) -> Option<ImportErrorView> {
    match item {
        WalkItem::Failed { cause } => Some(ImportErrorView::WalkFailed { cause: cause@ }),
        WalkItem::Entry { is_file, relative, path } => if is_file {
            match normalized(views(relative@), true) {
                Err(error) => Some(ImportErrorView::InvalidPath(error)),
                Ok(_) => None,
            }
        } else {
            None
        },
    }
}

/// What is wrong with the first step of a walk that has something wrong
/// with it.
pub open spec fn first_item_error<P>(items: Seq<WalkItem<P>>) -> Option<ImportErrorView>
    decreases items.len(),
{
    if items.len() == 0 {
        None
    } else {
        match first_item_error(items.drop_last()) {
            Some(error) => Some(error),
            None => item_error(items.last()),
        }
    }
}

/// The regular files that a walk found, each with its name, in the order of
/// the walk.
pub open spec fn listed_sources<P>(items: Seq<WalkItem<P>>) -> Seq<(Seq<char>, P)>
    decreases items.len(),
{
    if items.len() == 0 {
        Seq::empty()
    } else {
        let before = listed_sources(items.drop_last());
        match items.last() {
            WalkItem::Entry { is_file, relative, path } => if is_file {
                match normalized(views(relative@), true) {
                    Ok(name) => before.push((name, path)),
                    Err(_) => before,
                }
            } else {
                before
            },
            WalkItem::Failed { .. } => before,
        }
    }
}

/// Whether a sequence of data sources names the given files, one by one and
/// in their order.
pub open spec fn sources_match<P>(
    sources: Seq<DataSource<P>>,
    listed: Seq<(Seq<char>, P)>,
) -> bool {
    &&& sources.len() == listed.len()
    &&& forall|i: int|
        0 <= i < sources.len() ==> (#[trigger] sources[i]).name@ == listed[i].0 && sources[i].path
            == listed[i].1
}

/// Whether the regular files of a walk have paths that differ from each
/// other.
pub open spec fn distinct_paths<P>(items: Seq<WalkItem<P>>) -> bool {
    forall|i: int, j: int|
        #![trigger items[i], items[j]]
        0 <= i < j < items.len() ==> match (items[i], items[j]) {
            (
                WalkItem::Entry { is_file: true, relative: first, .. },
                WalkItem::Entry { is_file: true, relative: second, .. },
            ) => views(first@) != views(second@),
            _ => true,
        }
}

/// Every file that is listed was found by the walk, under the name of its
/// relative path.
proof fn lemma_listed_was_found<P>(items: Seq<WalkItem<P>>, k: int) -> (j: int)
    requires
        0 <= k < listed_sources(items).len(),
    ensures
        0 <= j < items.len(),
        items[j] matches WalkItem::Entry { is_file: true, relative, .. } && normalized(
            views(relative@),
            true,
        ) == Ok::<Seq<char>, PathErrorView>(listed_sources(items)[k].0),
    decreases items.len(),
{
    let before = listed_sources(items.drop_last());
    if k < before.len() {
        let j = lemma_listed_was_found(items.drop_last(), k);
        assert(items[j] == items.drop_last()[j]);
        j
    } else {
        items.len() - 1
    }
}

/// The names of the files to import are unique: files with different paths
/// are listed under different names.
pub proof fn lemma_listed_names_are_unique<P>(items: Seq<WalkItem<P>>)
    requires
        distinct_paths(items),
    ensures
        forall|a: int, b: int|
            #![trigger listed_sources(items)[a], listed_sources(items)[b]]
            0 <= a < b < listed_sources(items).len() ==> listed_sources(items)[a].0
                != listed_sources(items)[b].0,
    decreases items.len(),
{
    let listed = listed_sources(items);
    if items.len() > 0 {
        let shorter = items.drop_last();
        let before = listed_sources(shorter);
        assert(distinct_paths(shorter)) by {
            assert forall|i: int, j: int|
                #![trigger shorter[i], shorter[j]]
                0 <= i < j < shorter.len() implies match (shorter[i], shorter[j]) {
                (
                    WalkItem::Entry { is_file: true, relative: first, .. },
                    WalkItem::Entry { is_file: true, relative: second, .. },
                ) => views(first@) != views(second@),
                _ => true,
            } by {
                assert(shorter[i] == items[i] && shorter[j] == items[j]);
            }
        }
        lemma_listed_names_are_unique(shorter);
        assert forall|a: int, b: int|
            #![trigger listed[a], listed[b]]
            0 <= a < b < listed.len() implies listed[a].0 != listed[b].0 by {
            if b < before.len() {
                assert(listed[a] == before[a] && listed[b] == before[b]);
            } else {
                let j = lemma_listed_was_found(shorter, a);
                assert(listed[a] == before[a]);
                assert(items[j] == shorter[j]);
                let last = items.len() - 1;
                if listed[a].0 == listed[b].0 {
                    match (items[j], items[last]) {
                        (
                            WalkItem::Entry { is_file: true, relative: first, .. },
                            WalkItem::Entry { is_file: true, relative: second, .. },
                        ) => {
                            crate::path::lemma_names_are_unique(
                                views(first@),
                                views(second@),
                                listed[b].0,
                            );
                        },
                        _ => {},
                    }
                }
            }
        }
    }
}

/// A walk whose beginning has something wrong with it has the same wrong
/// with it.
proof fn lemma_first_item_error_prefix<P>(items: Seq<WalkItem<P>>, k: int)
    requires
        0 <= k <= items.len(),
    ensures
        first_item_error(items.take(k)) is Some ==> first_item_error(items) == first_item_error(
            items.take(k),
        ),
    decreases items.len(),
{
    if k == items.len() {
        assert(items.take(k) =~= items);
    } else {
        lemma_first_item_error_prefix(items.drop_last(), k);
        assert(items.drop_last().take(k) =~= items.take(k));
    }
}

/// Lists the files to import: the regular files that the walk found, each
/// under the name of its relative path, in the order of the walk.
///
/// There is no list if the root does not exist, and none if a step of the
/// walk failed or a regular file has no valid relative name: the error is
/// that of the first such step. Entries that are no regular files are passed
/// over.
pub fn data_sources<P>(root_exists: bool, items: Vec<WalkItem<P>>) -> (result: Result<
    Vec<DataSource<P>>,
    ImportError,
>)
    ensures
        match result {
            Ok(sources) => root_exists && first_item_error(items@) is None && sources_match(
                sources@,
                listed_sources(items@),
            ),
            Err(error) => if root_exists {
                first_item_error(items@) == Some(error@)
            } else {
                error == ImportError::NotFound
            },
        },
{
    if !root_exists {
        return Err(ImportError::NotFound);
    }
    let ghost all = items@;
    let n = items.len();
    let mut rest = reversed(items);
    let mut sources: Vec<DataSource<P>> = Vec::new();
    proof {
        assert(all.take(0) =~= Seq::<WalkItem<P>>::empty());
    }
    while rest.len() > 0
        invariant
            root_exists,
            all == items@,
            n == all.len(),
            rest@.len() <= n,
            rest@ == all.reverse().take(rest@.len() as int),
            first_item_error(all.take(n - rest@.len())) is None,
            sources_match(sources@, listed_sources(all.take(n - rest@.len()))),
        decreases rest.len(),
    {
        let ghost k = n - rest@.len();
        let item = rest.pop().unwrap();
        proof {
            assert(rest@ =~= all.reverse().take(rest@.len() as int));
            assert(item == all[k]);
            assert(all.take(k + 1).drop_last() =~= all.take(k));
            assert(all.take(k + 1).last() == item);
            lemma_first_item_error_prefix(all, k + 1);
        }
        match item {
            WalkItem::Failed { cause } => {
                return Err(ImportError::WalkFailed { cause });
            },
            WalkItem::Entry { is_file, relative, path } => {
                if is_file {
                    match canonicalized_path_to_string(relative.as_slice(), true) {
                        Ok(name) => {
                            sources.push(DataSource { name, path });
                        },
                        Err(error) => {
                            return Err(ImportError::InvalidPath(error));
                        },
                    }
                }
            },
        }
    }
    proof {
        assert(all.take(n as int) =~= all);
    }
    Ok(sources)
}

/// What the content store reports while it takes a file in. `tag` is
/// whatever keeps the content alive; the library hands it through.
#[derive(Debug)]
pub enum AddProgress<T> {
    /// The length of the file in bytes.
    Size(u64),
    /// So many bytes have been copied.
    CopyProgress(u64),
    /// The copy is complete.
    CopyDone,
    /// So many bytes have been hashed.
    OutboardProgress(u64),
    /// The import failed, for this reason.
    Error(String),
    /// The import is complete: the fingerprint of the content, and its tag.
    Done { hash: ContentId, tag: T },
}

/// The import of one file as far as it has come: the name of the file and
/// the length that the store reported last.
#[derive(Debug, PartialEq, Eq)]
pub struct FileImport {
    pub name: String,
    pub size: u64,
}

/// Where the import of one file stands after a report.
#[derive(Debug)]
pub enum ImportStep<T> {
    /// The import goes on.
    Continue(FileImport),
    /// The file is in the store.
    Finished(ContentEntry<T>),
    /// The import has failed.
    Failed(ImportError),
}

/// What one report of the store does to the import of a file; no report
/// stands for the end of the reports.
///
/// A length is remembered, the last one counts. Reports of progress change
/// nothing. A failure ends the import with its cause, the end of the reports
/// ends it for want of a tag, and the tag ends it with the entry of the file.
pub open spec fn import_step<T>(state: FileImport, item: Option<AddProgress<T>>) -> ImportStep<T> {
    match item {
        None => ImportStep::Failed(ImportError::MissingTag { name: state.name }),
        Some(AddProgress::Size(size)) => ImportStep::Continue(
            FileImport { name: state.name, size },
        ),
        Some(AddProgress::CopyProgress(_)) => ImportStep::Continue(state),
        Some(AddProgress::CopyDone) => ImportStep::Continue(state),
        Some(AddProgress::OutboardProgress(_)) => ImportStep::Continue(state),
        Some(AddProgress::Error(cause)) => ImportStep::Failed(
            ImportError::ImportFailed { name: state.name, cause },
        ),
        Some(AddProgress::Done { hash, tag }) => ImportStep::Finished(
            ContentEntry { name: state.name, hash, size: state.size, tag },
        ),
    }
}

/// What a whole sequence of reports amounts to: where the first report
/// leaves the import that ends it, or else the want of a tag.
pub open spec fn import_outcome<T>(state: FileImport, items: Seq<AddProgress<T>>) -> Result<
    ContentEntry<T>,
    ImportError,
>
    decreases items.len(),
{
    if items.len() == 0 {
        Err(ImportError::MissingTag { name: state.name })
    } else {
        match import_step(state, Some(items[0])) {
            ImportStep::Continue(next) => import_outcome(next, items.drop_first()),
            ImportStep::Finished(entry) => Ok(entry),
            ImportStep::Failed(error) => Err(error),
        }
    }
}

impl FileImport {
    /// The import of a file of which the store has reported nothing yet.
    pub fn new(name: String) -> (state: FileImport)
        ensures
            state == (FileImport { name, size: 0 }),
    {
        FileImport { name, size: 0 }
    }

    /// Takes one report of the store, or the end of its reports.
    pub fn step<T>(self, item: Option<AddProgress<T>>) -> (next: ImportStep<T>)
        ensures
            next == import_step(self, item),
    {
        match item {
            None => ImportStep::Failed(ImportError::MissingTag { name: self.name }),
            Some(AddProgress::Size(size)) => ImportStep::Continue(
                FileImport { name: self.name, size },
            ),
            Some(AddProgress::CopyProgress(_)) => ImportStep::Continue(self),
            Some(AddProgress::CopyDone) => ImportStep::Continue(self),
            Some(AddProgress::OutboardProgress(_)) => ImportStep::Continue(self),
            Some(AddProgress::Error(cause)) => ImportStep::Failed(
                ImportError::ImportFailed { name: self.name, cause },
            ),
            Some(AddProgress::Done { hash, tag }) => ImportStep::Finished(
                ContentEntry { name: self.name, hash, size: self.size, tag },
            ),
        }
    }
}

/// Imports one file from the reports that the store gave of it, first to
/// last. Reports after the one that ends the import are not looked at.
pub fn import_file<T>(name: String, items: Vec<AddProgress<T>>) -> (result: Result<
    ContentEntry<T>,
    ImportError,
>)
    ensures
        result == import_outcome((FileImport { name, size: 0 }), items@),
{
    let ghost all = items@;
    let n = items.len();
    let mut rest = reversed(items);
    let mut state = FileImport::new(name);
    proof {
        assert(all.skip(0) =~= all);
    }
    while rest.len() > 0
        invariant
            all == items@,
            n == all.len(),
            rest@.len() <= n,
            rest@ == all.reverse().take(rest@.len() as int),
            import_outcome(FileImport { name, size: 0 }, all) == import_outcome(
                state,
                all.skip(n - rest@.len()),
            ),
        decreases rest.len(),
    {
        let ghost k = n - rest@.len();
        let item = rest.pop().unwrap();
        proof {
            assert(rest@ =~= all.reverse().take(rest@.len() as int));
            assert(item == all[k]);
            assert(all.skip(k)[0] == item);
            assert(all.skip(k).drop_first() =~= all.skip(k + 1));
        }
        match state.step(Some(item)) {
            ImportStep::Continue(next) => {
                state = next;
            },
            ImportStep::Finished(entry) => {
                return Ok(entry);
            },
            ImportStep::Failed(error) => {
                return Err(error);
            },
        }
    }
    proof {
        assert(all.skip(n as int) =~= Seq::<AddProgress<T>>::empty());
    }
    match state.step(None) {
        ImportStep::Failed(error) => Err(error),
        ImportStep::Finished(entry) => Ok(entry),
        ImportStep::Continue(next) => Err(ImportError::MissingTag { name: next.name }),
    }
}

/// The first failure among the results of a batch, if there is one.
pub open spec fn first_failure<T>(results: Seq<Result<ContentEntry<T>, ImportError>>) -> Option<
    ImportError,
>
    decreases results.len(),
{
    if results.len() == 0 {
        None
    } else {
        match first_failure(results.drop_last()) {
            Some(error) => Some(error),
            None => match results.last() {
                Err(error) => Some(error),
                Ok(_) => None,
            },
        }
    }
}

/// The entries that a batch imported, in the order of the results.
pub open spec fn successes<T>(results: Seq<Result<ContentEntry<T>, ImportError>>) -> Seq<
    ContentEntry<T>,
>
    decreases results.len(),
{
    if results.len() == 0 {
        Seq::empty()
    } else {
        match results.last() {
            Ok(entry) => successes(results.drop_last()).push(entry),
            Err(_) => successes(results.drop_last()),
        }
    }
}

/// A batch whose beginning holds a failure has that failure for its first.
proof fn lemma_first_failure_prefix<T>(
    results: Seq<Result<ContentEntry<T>, ImportError>>,
    k: int,
)
    requires
        0 <= k <= results.len(),
    ensures
        first_failure(results.take(k)) is Some ==> first_failure(results) == first_failure(
            results.take(k),
        ),
    decreases results.len(),
{
    if k == results.len() {
        assert(results.take(k) =~= results);
    } else {
        lemma_first_failure_prefix(results.drop_last(), k);
        assert(results.drop_last().take(k) =~= results.take(k));
    }
}

/// Gathers the results of a batch, in the order in which the imports ended:
/// all the entries if every import succeeded, and else the first failure.
pub fn collect_imported<T>(results: Vec<Result<ContentEntry<T>, ImportError>>) -> (collected:
    Result<Vec<ContentEntry<T>>, ImportError>)
    ensures
        match collected {
            Ok(entries) => first_failure(results@) is None && entries@ == successes(results@),
            Err(error) => first_failure(results@) == Some(error),
        },
{
    let ghost all = results@;
    let n = results.len();
    let mut rest = reversed(results);
    let mut entries: Vec<ContentEntry<T>> = Vec::new();
    proof {
        assert(all.take(0) =~= Seq::<Result<ContentEntry<T>, ImportError>>::empty());
    }
    while rest.len() > 0
        invariant
            all == results@,
            n == all.len(),
            rest@.len() <= n,
            rest@ == all.reverse().take(rest@.len() as int),
            first_failure(all.take(n - rest@.len())) is None,
            entries@ == successes(all.take(n - rest@.len())),
        decreases rest.len(),
    {
        let ghost k = n - rest@.len();
        let result = rest.pop().unwrap();
        proof {
            assert(rest@ =~= all.reverse().take(rest@.len() as int));
            assert(result == all[k]);
            assert(all.take(k + 1).drop_last() =~= all.take(k));
            assert(all.take(k + 1).last() == result);
            lemma_first_failure_prefix(all, k + 1);
        }
        match result {
            Ok(entry) => {
                entries.push(entry);
            },
            Err(error) => {
                return Err(error);
            },
        }
    }
    proof {
        assert(all.take(n as int) =~= all);
    }
    Ok(entries)
}

/// Ends a batch of imports: the manifest of what was imported, and what
/// keeps its content alive, in the order of the manifest.
///
/// A batch in which an import failed has no manifest, not even of the rest:
/// its result is the first failure, in the order in which the imports ended.
/// What the other imports brought in is dropped with the batch and left to
/// the store to collect.
/// Otherwise the manifest lists the entries in the byte-wise order of their
/// names, and its total is the exact sum of their sizes, unless that sum does
/// not fit in 64 bits.
pub fn finish_import<T>(results: Vec<Result<ContentEntry<T>, ImportError>>) -> (finished: Result<
    (Manifest, Vec<T>),
    ImportError,
>)
    ensures
        match finished {
            Ok((manifest, tags)) => {
                &&& first_failure(results@) is None
                &&& manifest.wf()
                &&& manifest.total_size == total_size_of(successes(results@))
                &&& lists(manifest.entries@, arranged(successes(results@)))
                &&& tags@ == tags_of(arranged(successes(results@)))
            },
            Err(error) => match first_failure(results@) {
                Some(first) => error == first,
                None => error == ImportError::TooLarge && total_size_of(successes(results@))
                    > u64::MAX,
            },
        },
{
    match collect_imported(results) {
        Err(error) => Err(error),
        Ok(entries) => match build_manifest(entries) {
            Some(built) => Ok(built),
            None => Err(ImportError::TooLarge),
        },
    }
}

/// The number of logical processors, as `num_cpus::get` counts them on this
/// machine at this time. Nothing is promised of the number.
#[verifier::external_body]
fn logical_cpus() -> usize {
    num_cpus::get()
}

/// The number of files that are imported at a time: the number of logical
/// processors, and one at least.
pub fn import_parallelism() -> (workers: usize)
    ensures
        workers >= 1,
{
    pool_size(logical_cpus())
}

/// The number of workers for a machine with so many logical processors.
pub fn pool_size(cpus: usize) -> (workers: usize)
    ensures
        workers == if cpus == 0 {
            1
        } else {
            cpus
        },
{
    if cpus == 0 {
        1
    } else {
        cpus
    }
}

} // verus!
