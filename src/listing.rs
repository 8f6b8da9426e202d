use vstd::prelude::*;

use crate::consume::reversed;
use crate::error::TransferError;

verus! {

/// What the enumerator learns of one entry of the served directory.
pub struct DirEntryInfo {
    /// The entry's name, or `None` where it is not valid Unicode.
    pub name: Option<String>,
    /// Whether the entry is a regular file.
    pub is_file: bool,
    /// The entry's length in bytes.
    pub size: u64,
}

/// One listed file.
pub struct FileEntry {
    pub name: String,
    pub size: u64,
}

/// The content of a directory entry.
pub struct DirEntryView {
    pub name: Option<Seq<char>>,
    pub is_file: bool,
    pub size: u64,
}

/// The content of a listed file.
pub struct FileEntryView {
    pub name: Seq<char>,
    pub size: u64,
}

impl View for DirEntryInfo {
    type V = DirEntryView;

    open spec fn view(&self) -> DirEntryView {
        DirEntryView {
            name: match self.name {
                Some(n) => Some(n@),
                None => None,
            },
            is_file: self.is_file,
            size: self.size,
        }
    }
}

impl View for FileEntry {
    type V = FileEntryView;

    open spec fn view(&self) -> FileEntryView {
        FileEntryView { name: self.name@, size: self.size }
    }
}

/// One step of the directory walk: an entry, or the error that ends the walk.
pub type WalkItem = Result<DirEntryInfo, TransferError>;

/// One item of a listing stream: a file, or the error that ends the stream.
pub type ListItem = Result<FileEntry, TransferError>;

/// The content of each step of a directory walk.
pub open spec fn walk_view(walk: Seq<WalkItem>) -> Seq<Result<DirEntryView, TransferError>> {
    walk.map_values(
        |w: WalkItem|
            match w {
                Ok(d) => Ok(d@),
                Err(e) => Err(e),
            },
    )
}

/// The content of each item of a listing stream.
pub open spec fn list_view(items: Seq<ListItem>) -> Seq<Result<FileEntryView, TransferError>> {
    items.map_values(
        |it: ListItem|
            match it {
                Ok(f) => Ok(f@),
                Err(e) => Err(e),
            },
    )
}

/// Whether a listing stream has already ended with an error.
pub open spec fn ended_in_error(items: Seq<Result<FileEntryView, TransferError>>) -> bool {
    items.len() > 0 && items.last() is Err
}

/// What the enumerator streams for a directory walk: one item per regular
/// file in walk order; the walk's first error, or an entry whose name is not
/// valid Unicode, ends the stream with an error after the items before it.
pub open spec fn listing_of(walk: Seq<Result<DirEntryView, TransferError>>) -> Seq<
    Result<FileEntryView, TransferError>,
>
    decreases walk.len(),
{
    if walk.len() == 0 {
        Seq::empty()
    } else {
        let prev = listing_of(walk.drop_last());
        if ended_in_error(prev) {
            prev
        } else {
            match walk.last() {
                Err(e) => prev.push(Err(e)),
                Ok(d) => if !d.is_file {
                    prev
                } else {
                    match d.name {
                        None => prev.push(Err(TransferError::Io)),
                        Some(n) => prev.push(Ok(FileEntryView { name: n, size: d.size })),
                    }
                },
            }
        }
    }
}

/// The enumerator's decision on one directory entry: skip what is not a
/// regular file, list a regular file under its name and length, and fail on
/// a name that is not valid Unicode.
pub fn list_step(entry: DirEntryInfo) -> (r: Result<Option<FileEntry>, TransferError>)
    ensures
        !entry.is_file ==> r matches Ok(None),
        entry.is_file && entry.name is None ==> r == Err::<Option<FileEntry>, _>(
            TransferError::Io,
        ),
        entry.is_file && entry.name is Some ==> (r matches Ok(Some(f)) && f@ == (FileEntryView {
            name: entry@.name->Some_0,
            size: entry.size,
        })),
{
    if !entry.is_file {
        return Ok(None);
    }
    match entry.name {
        Some(n) => Ok(Some(FileEntry { name: n, size: entry.size })),
        None => Err(TransferError::Io),
    }
}

/// Runs the enumerator over a whole directory walk: the items it streams.
pub fn list_entries(walk: Vec<WalkItem>) -> (r: Vec<ListItem>)
    ensures
        list_view(r@) == listing_of(walk_view(walk@)),
{
    let ghost ws = walk_view(walk@);
    let n = walk.len();
    let mut rest = reversed(walk);
    let mut out: Vec<ListItem> = Vec::new();
    let mut i: usize = 0;
    assert(ws.take(0) =~= Seq::<Result<DirEntryView, TransferError>>::empty());
    assert(list_view(out@) =~= Seq::<Result<FileEntryView, TransferError>>::empty());
    while i < n
        invariant
            i <= n,
            n == walk@.len(),
            ws == walk_view(walk@),
            rest@.len() == n - i,
            forall|j: int| 0 <= j < rest@.len() ==> #[trigger] rest@[j] == walk@[n - 1 - j],
            list_view(out@) == listing_of(ws.take(i as int)),
            !ended_in_error(list_view(out@)),
        decreases n - i,
    {
        let ghost before = list_view(out@);
        let item = rest.pop().unwrap();
        assert(ws.take(i + 1).drop_last() =~= ws.take(i as int));
        assert(ws.take(i + 1).last() == ws[i as int]);
        match item {
            Err(e) => {
                out.push(Err(e));
                assert(list_view(out@) =~= before.push(Err(e)));
                proof {
                    lemma_listing_ends_at_error(ws, i + 1);
                }
                return out;
            },
            Ok(d) => match list_step(d) {
                Ok(None) => {},
                Ok(Some(f)) => {
                    out.push(Ok(f));
                    assert(list_view(out@) =~= before.push(Ok(f@)));
                },
                Err(e) => {
                    out.push(Err(e));
                    assert(list_view(out@) =~= before.push(Err(e)));
                    proof {
                        lemma_listing_ends_at_error(ws, i + 1);
                    }
                    return out;
                },
            },
        }
        i += 1;
    }
    assert(ws.take(i as int) =~= ws);
    out
}

proof fn lemma_listing_ends_at_error(ws: Seq<Result<DirEntryView, TransferError>>, k: int)
    requires
        0 <= k <= ws.len(),
        ended_in_error(listing_of(ws.take(k))),
    ensures
        listing_of(ws) == listing_of(ws.take(k)),
    decreases ws.len() - k,
{
    if k == ws.len() {
        assert(ws.take(k) =~= ws);
    } else {
        assert(ws.take(k + 1).drop_last() =~= ws.take(k));
        lemma_listing_ends_at_error(ws, k + 1);
    }
}

/// What a client makes of a listing stream: every listed file in order
/// where the stream ends without an error, else the first error.
pub open spec fn collected(items: Seq<Result<FileEntryView, TransferError>>) -> Result<
    Seq<FileEntryView>,
    TransferError,
>
    decreases items.len(),
{
    if items.len() == 0 {
        Ok(Seq::empty())
    } else {
        match collected(items.drop_last()) {
            Err(e) => Err(e),
            Ok(fs) => match items.last() {
                Ok(f) => Ok(fs.push(f)),
                Err(e) => Err(e),
            },
        }
    }
}

/// The content of each listed file.
pub open spec fn entries_view(fs: Seq<FileEntry>) -> Seq<FileEntryView> {
    fs.map_values(|f: FileEntry| f@)
}

proof fn lemma_collected_error_sticks(
    items: Seq<Result<FileEntryView, TransferError>>,
    k: int,
    e: TransferError,
)
    requires
        0 <= k <= items.len(),
        collected(items.take(k)) == Err::<Seq<FileEntryView>, _>(e),
    ensures
        collected(items) == Err::<Seq<FileEntryView>, _>(e),
    decreases items.len() - k,
{
    if k == items.len() {
        assert(items.take(k) =~= items);
    } else {
        assert(items.take(k + 1).drop_last() =~= items.take(k));
        lemma_collected_error_sticks(items, k + 1, e);
    }
}

/// The client side of a listing: gathers the streamed files, failing with
/// the first error the stream carries.
pub fn collect_listing(items: Vec<ListItem>) -> (r: Result<Vec<FileEntry>, TransferError>)
    ensures
        match collected(list_view(items@)) {
            Ok(fs) => r matches Ok(v) && entries_view(v@) == fs,
            Err(e) => r == Err::<Vec<FileEntry>, _>(e),
        },
{
    let ghost its = list_view(items@);
    let n = items.len();
    let mut rest = reversed(items);
    let mut out: Vec<FileEntry> = Vec::new();
    let mut i: usize = 0;
    assert(its.take(0) =~= Seq::<Result<FileEntryView, TransferError>>::empty());
    assert(entries_view(out@) =~= Seq::<FileEntryView>::empty());
    while i < n
        invariant
            i <= n,
            n == items@.len(),
            its == list_view(items@),
            rest@.len() == n - i,
            forall|j: int| 0 <= j < rest@.len() ==> #[trigger] rest@[j] == items@[n - 1 - j],
            collected(its.take(i as int)) == Ok::<_, TransferError>(entries_view(out@)),
        decreases n - i,
    {
        let ghost before = entries_view(out@);
        let item = rest.pop().unwrap();
        assert(its.take(i + 1).drop_last() =~= its.take(i as int));
        assert(its.take(i + 1).last() == its[i as int]);
        match item {
            Ok(f) => {
                out.push(f);
                assert(entries_view(out@) =~= before.push(out@.last()@));
            },
            Err(e) => {
                proof {
                    lemma_collected_error_sticks(its, i + 1, e);
                }
                return Err(e);
            },
        }
        i += 1;
    }
    assert(its.take(i as int) =~= its);
    Ok(out)
}

/// Whether a walk step is a regular file.
pub open spec fn is_regular(w: Result<DirEntryView, TransferError>) -> bool {
    w is Ok && w->Ok_0.is_file
}

/// The listing entry of a regular file.
pub open spec fn entry_of(w: Result<DirEntryView, TransferError>) -> Result<
    FileEntryView,
    TransferError,
> {
    Ok(FileEntryView { name: w->Ok_0.name->Some_0, size: w->Ok_0.size })
}

/// A walk without errors, whose regular files all have Unicode names, is
/// listed as exactly its regular files, in walk order, each with its own
/// name and length; entries that are not regular files are left out, so a
/// directory with N regular files and M other entries lists N entries, and
/// an empty directory lists none.
pub proof fn lemma_listing_regular_files(walk: Seq<Result<DirEntryView, TransferError>>)
    requires
        forall|i: int| 0 <= i < walk.len() ==> #[trigger] walk[i] is Ok,
        forall|i: int| 0 <= i < walk.len() && #[trigger] is_regular(walk[i]) ==> walk[i]->Ok_0.name is Some,
    ensures
        listing_of(walk) == walk.filter(|w| is_regular(w)).map_values(|w| entry_of(w)),
        listing_of(walk).len() == walk.filter(|w| is_regular(w)).len(),
        walk.len() == 0 ==> listing_of(walk).len() == 0,
    decreases walk.len(),
{
    let f = walk.filter(|w| is_regular(w)).map_values(|w| entry_of(w));
    if walk.len() == 0 {
        assert(f =~= Seq::<Result<FileEntryView, TransferError>>::empty());
    } else {
        let init = walk.drop_last();
        assert forall|i: int| 0 <= i < init.len() implies #[trigger] init[i] is Ok by {
            assert(init[i] == walk[i]);
        }
        assert forall|i: int| 0 <= i < init.len() && #[trigger] is_regular(init[i]) implies init[i]->Ok_0.name is Some by {
            assert(init[i] == walk[i]);
        }
        lemma_listing_regular_files(init);
        let prev = listing_of(init);
        assert(walk[walk.len() - 1] is Ok);
        if prev.len() > 0 {
            assert(prev.last() == init.filter(|w| is_regular(w)).map_values(|w| entry_of(w))[prev.len() - 1]);
            assert(prev.last() is Ok);
        }
        let fi = init.filter(|w| is_regular(w));
        reveal(Seq::filter);
        if is_regular(walk.last()) {
            assert(walk.filter(|w| is_regular(w)) == fi.push(walk.last()));
            assert(walk[walk.len() - 1]->Ok_0.name is Some);
            assert(f =~= prev.push(entry_of(walk.last())));
        } else {
            assert(walk.filter(|w| is_regular(w)) == fi);
            assert(f =~= prev);
        }
    }
}

/// How many listed files in `items` carry the name `name`.
pub open spec fn count_named(items: Seq<Result<FileEntryView, TransferError>>, name: Seq<char>) -> nat
    decreases items.len(),
{
    if items.len() == 0 {
        0
    } else {
        count_named(items.drop_last(), name) + if items.last() is Ok && items.last()->Ok_0.name
            == name {
            1nat
        } else {
            0nat
        }
    }
}

proof fn lemma_listing_all_ok(walk: Seq<Result<DirEntryView, TransferError>>)
    requires
        forall|i: int| 0 <= i < walk.len() ==> #[trigger] walk[i] is Ok,
        forall|i: int| 0 <= i < walk.len() && #[trigger] is_regular(walk[i]) ==> walk[i]->Ok_0.name is Some,
    ensures
        forall|i: int| 0 <= i < listing_of(walk).len() ==> #[trigger] listing_of(walk)[i] is Ok,
        !ended_in_error(listing_of(walk)),
{
    lemma_listing_regular_files(walk);
    let l = listing_of(walk);
    if l.len() > 0 {
        assert(l.last() == l[l.len() - 1]);
    }
}

proof fn lemma_unnamed_not_listed(walk: Seq<Result<DirEntryView, TransferError>>, name: Seq<char>)
    requires
        forall|i: int| 0 <= i < walk.len() ==> #[trigger] walk[i] is Ok,
        forall|i: int| 0 <= i < walk.len() && #[trigger] is_regular(walk[i]) ==> walk[i]->Ok_0.name is Some,
        forall|i: int|
            0 <= i < walk.len() && #[trigger] is_regular(walk[i]) ==> walk[i]->Ok_0.name != Some(
                name,
            ),
    ensures
        count_named(listing_of(walk), name) == 0,
    decreases walk.len(),
{
    if walk.len() > 0 {
        let init = walk.drop_last();
        assert forall|i: int| 0 <= i < init.len() implies #[trigger] init[i] is Ok by {
            assert(init[i] == walk[i]);
        }
        assert forall|i: int| 0 <= i < init.len() && #[trigger] is_regular(init[i]) implies init[i]->Ok_0.name is Some && init[i]->Ok_0.name != Some(name) by {
            assert(init[i] == walk[i]);
        }
        lemma_unnamed_not_listed(init, name);
        lemma_listing_all_ok(init);
        assert(walk.last() == walk[walk.len() - 1]);
        let prev = listing_of(init);
        if is_regular(walk.last()) {
            let e = entry_of(walk.last());
            assert(listing_of(walk) == prev.push(e));
            assert(prev.push(e).drop_last() =~= prev);
        }
    }
}

/// In a directory whose entries have distinct names, walked without errors
/// and whose regular files have Unicode names, each regular file is listed
/// exactly once, under its name and with its length.
pub proof fn lemma_file_listed_once(walk: Seq<Result<DirEntryView, TransferError>>, k: int)
    requires
        forall|i: int| 0 <= i < walk.len() ==> #[trigger] walk[i] is Ok,
        forall|i: int| 0 <= i < walk.len() && #[trigger] is_regular(walk[i]) ==> walk[i]->Ok_0.name is Some,
        forall|i: int, j: int|
            0 <= i < walk.len() && 0 <= j < walk.len() && i != j && (#[trigger] walk[i])->Ok_0.name
                is Some ==> walk[i]->Ok_0.name != (#[trigger] walk[j])->Ok_0.name,
        0 <= k < walk.len(),
        is_regular(walk[k]),
    ensures
        count_named(listing_of(walk), walk[k]->Ok_0.name->Some_0) == 1,
        listing_of(walk).contains(
            Ok(FileEntryView { name: walk[k]->Ok_0.name->Some_0, size: walk[k]->Ok_0.size }),
        ),
    decreases walk.len(),
{
    let name = walk[k]->Ok_0.name->Some_0;
    let init = walk.drop_last();
    let last = walk.len() - 1;
    assert(walk.last() == walk[last]);
    assert forall|i: int| 0 <= i < init.len() implies #[trigger] init[i] is Ok by {
        assert(init[i] == walk[i]);
    }
    assert forall|i: int| 0 <= i < init.len() && #[trigger] is_regular(init[i]) implies init[i]->Ok_0.name is Some by {
        assert(init[i] == walk[i]);
    }
    lemma_listing_all_ok(init);
    let prev = listing_of(init);
    if k == last {
        assert forall|i: int| 0 <= i < init.len() && #[trigger] is_regular(init[i]) implies init[i]->Ok_0.name != Some(name) by {
            assert(init[i] == walk[i]);
            assert(walk[i]->Ok_0.name != walk[k]->Ok_0.name);
        }
        lemma_unnamed_not_listed(init, name);
        let e = entry_of(walk.last());
        assert(listing_of(walk) == prev.push(e));
        assert(prev.push(e).drop_last() =~= prev);
        assert(prev.push(e)[prev.len() as int] == e);
    } else {
        assert forall|i: int, j: int|
            0 <= i < init.len() && 0 <= j < init.len() && i != j && (#[trigger] init[i])->Ok_0.name
                is Some implies init[i]->Ok_0.name != (#[trigger] init[j])->Ok_0.name by {
            assert(init[i] == walk[i] && init[j] == walk[j]);
        }
        assert(init[k] == walk[k]);
        lemma_file_listed_once(init, k);
        let want = Ok::<_, TransferError>(FileEntryView { name, size: walk[k]->Ok_0.size });
        let idx = choose|idx: int| 0 <= idx < prev.len() && prev[idx] == want;
        if is_regular(walk.last()) {
            assert(walk[last]->Ok_0.name != walk[k]->Ok_0.name);
            let e = entry_of(walk.last());
            assert(listing_of(walk) == prev.push(e));
            assert(prev.push(e).drop_last() =~= prev);
            assert(prev.push(e)[idx] == want);
        } else {
            assert(listing_of(walk) == prev);
        }
    }
}

} // verus!
