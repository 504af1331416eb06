use std::io;
use std::sync::Arc;

use bytes::Bytes;
use serde_json::Map as JsonObject;
use serde_json::Value as JsonValue;
use vstd::prelude::*;

verus! {

/// An extra per-split component whose row `i` belongs to the split's document `i`.
///
/// Rows are pushed in document-id order: the indexer adds documents to a split one at a
/// time, in arrival order, and never re-sorts them.
///
/// The contracts of this trait are what its implementations owe; the application's code is
/// not checked against them. Its `spec` members are left open: each is some function of the
/// implementation and the arguments, which verified code may spell out.
pub trait SplitSidecar: Send + Sync + 'static {
    /// The component's file name. It never changes.
    open spec fn names_file(&self) -> Seq<char> {
        arbitrary::<spec_fn(&Self) -> Seq<char>>()(self)
    }

    /// The row that the component stores for a payload. `None` has a row too, the empty one.
    open spec fn row_of(&self, payload: Option<Bytes>) -> Seq<u8> {
        arbitrary::<spec_fn(&Self, Option<Bytes>) -> Seq<u8>>()(self, payload)
    }

    /// Whether `file` is how the component stores `rows`.
    open spec fn stores(&self, file: Seq<u8>, rows: Seq<Seq<u8>>) -> bool {
        arbitrary::<spec_fn(&Self, Seq<u8>, Seq<Seq<u8>>) -> bool>()(self, file, rows)
    }

    /// File name inside the split bundle. Must not collide with tantivy's own files; prefix
    /// it with the extension's name (e.g. `rustie.gph2`).
    fn file_name(&self) -> (name: &str)
        ensures
            name@ == self.names_file(),
    ;

    /// Pull this extension's payload out of a raw JSON document, removing whatever it
    /// consumed so the (possibly strict) doc mapping never sees it. `None` = the document
    /// has no row content (the row is still created, empty, to keep alignment).
    fn extract(&self, doc: &mut JsonObject<String, JsonValue>) -> Option<Bytes>;

    /// A writer for one new split.
    fn new_writer(&self) -> (writer: io::Result<Box<dyn SidecarWriter>>)
        ensures
            writer matches Ok(writer) ==> {
                &&& writer.rows() == Seq::<Seq<u8>>::empty()
                &&& forall|payload: Option<Bytes>| #[trigger]
                    writer.row_of(payload) == self.row_of(payload)
                &&& forall|file: Seq<u8>, rows: Seq<Seq<u8>>| #[trigger]
                    writer.stores(file, rows) == self.stores(file, rows)
            },
    ;

    /// Build the sidecar of a merged split and return the file's contents.
    ///
    /// `sources` are in output row order (the order the search index stacks its segments);
    /// each source contributes only its `alive_docs`.
    fn merge(&self, sources: &[SidecarMergeSource]) -> (file: io::Result<Vec<u8>>)
        ensures
            file matches Ok(file) ==> holds_merge_of(
                file@,
                sources@,
                |file: Seq<u8>, rows: Seq<Seq<u8>>| self.stores(file, rows),
                self.row_of(None),
            ),
    ;

    /// Byte ranges of the finished file worth keeping in the split's hotcache (e.g. its
    /// index / trailer), so opening it at search time costs no extra request. Each lies
    /// inside the file. The file is always listed in the hotcache, which is what makes it
    /// openable through the split's directory.
    fn hotcache_ranges(&self, _file: &[u8]) -> (ranges: Vec<std::ops::Range<usize>>)
        ensures
            forall|i: int|
                0 <= i < ranges@.len() ==> (#[trigger] ranges@[i]).start <= ranges@[i].end
                    <= _file@.len(),
        default_ensures
            ranges@ == Seq::<std::ops::Range<usize>>::empty(),
    {
        Vec::new()
    }
}

/// Accumulates the rows of one split.
///
/// Contracts and `spec` members are to be read as those of [`SplitSidecar`].
pub trait SidecarWriter: Send {
    /// The rows pushed so far, as the component stores them.
    open spec fn rows(&self) -> Seq<Seq<u8>> {
        arbitrary::<spec_fn(&Self) -> Seq<Seq<u8>>>()(self)
    }

    /// The row that the component stores for a payload.
    open spec fn row_of(&self, payload: Option<Bytes>) -> Seq<u8> {
        arbitrary::<spec_fn(&Self, Option<Bytes>) -> Seq<u8>>()(self, payload)
    }

    /// Whether `file` is how the component stores `rows`.
    open spec fn stores(&self, file: Seq<u8>, rows: Seq<Seq<u8>>) -> bool {
        arbitrary::<spec_fn(&Self, Seq<u8>, Seq<Seq<u8>>) -> bool>()(self, file, rows)
    }

    /// Append the next row.
    fn push(&mut self, payload: Option<Bytes>) -> (pushed: io::Result<()>)
        ensures
            pushed is Ok ==> {
                &&& final(self).rows() == old(self).rows().push(old(self).row_of(payload))
                &&& forall|payload: Option<Bytes>| #[trigger]
                    final(self).row_of(payload) == old(self).row_of(payload)
                &&& forall|file: Seq<u8>, rows: Seq<Seq<u8>>| #[trigger]
                    final(self).stores(file, rows) == old(self).stores(file, rows)
            },
    ;

    /// Rows pushed so far.
    fn num_rows(&self) -> (n: u32)
        ensures
            self.rows().len() <= u32::MAX ==> n == self.rows().len(),
    ;

    /// Finish the component and return the file's contents.
    fn finish(self: Box<Self>) -> (file: io::Result<Vec<u8>>)
        ensures
            file matches Ok(file) ==> self.stores(file@, self.rows()),
    ;
}

/// One input split of a merge.
pub struct SidecarMergeSource {
    /// The split's sidecar file contents, or `None` if it has none (splits created before
    /// the extension was enabled): its rows become empty rows.
    pub data: Option<Vec<u8>>,
    /// Documents in the split, including deleted ones.
    pub num_docs: u32,
    /// Ascending ids of the documents that survive the merge; `None` keeps all of them.
    pub alive_docs: Option<Vec<u32>>,
}

impl SidecarMergeSource {
    /// Surviving ids ascend and are ids of the split's documents.
    pub open spec fn wf(self) -> bool {
        match self.alive_docs {
            Some(alive) => {
                &&& forall|i: int, j: int| 0 <= i < j < alive@.len() ==> alive@[i] < alive@[j]
                &&& forall|i: int| 0 <= i < alive@.len() ==> alive@[i] < self.num_docs
            },
            None => true,
        }
    }

    /// The ids of the documents that survive the merge, in the order in which they are
    /// stacked.
    pub open spec fn surviving(self) -> Seq<int> {
        match self.alive_docs {
            Some(alive) => alive@.map_values(|doc: u32| doc as int),
            None => Seq::new(self.num_docs as nat, |doc: int| doc),
        }
    }

    /// Whether this is a proper input of a merge and `rows` are the split's rows, one for
    /// each document: its file stores them or, where it has no file, each of them is the
    /// empty row.
    pub open spec fn holds(
        self,
        rows: Seq<Seq<u8>>,
        stores: spec_fn(Seq<u8>, Seq<Seq<u8>>) -> bool,
        empty_row: Seq<u8>,
    ) -> bool {
        &&& self.wf()
        &&& rows.len() == self.num_docs
        &&& match self.data {
            Some(file) => stores(file@, rows),
            None => forall|doc: int| 0 <= doc < rows.len() ==> rows[doc] == empty_row,
        }
    }
}

/// What is left of `items`, one for each document of `source`, once the deleted documents
/// are dropped.
pub open spec fn kept<T>(source: SidecarMergeSource, items: Seq<T>) -> Seq<T> {
    source.surviving().map_values(|doc: int| items[doc])
}

/// What a merge makes of `items`, one sequence for each source and in it one item for each
/// document: what is left of them, source after source. A merged split's documents are
/// numbered by this order.
pub open spec fn stacked<T>(sources: Seq<SidecarMergeSource>, items: Seq<Seq<T>>) -> Seq<T>
    decreases sources.len(),
{
    if sources.len() == 0 {
        Seq::empty()
    } else {
        stacked(sources.drop_last(), items) + kept(sources.last(), items[sources.len() - 1])
    }
}

/// Whether `file` stores the merged rows of `sources`, whichever rows they hold.
pub open spec fn holds_merge_of(
    file: Seq<u8>,
    sources: Seq<SidecarMergeSource>,
    stores: spec_fn(Seq<u8>, Seq<Seq<u8>>) -> bool,
    empty_row: Seq<u8>,
) -> bool {
    forall|rows: Seq<Seq<Seq<u8>>>|
        (forall|i: int|
            0 <= i < sources.len() ==> (#[trigger] sources[i]).holds(rows[i], stores, empty_row))
            ==> stores(file, #[trigger] stacked(sources, rows))
}

/// How many documents survive a merge.
pub open spec fn surviving_total(sources: Seq<SidecarMergeSource>) -> nat
    decreases sources.len(),
{
    if sources.len() == 0 {
        0
    } else {
        surviving_total(sources.drop_last()) + sources.last().surviving().len()
    }
}

/// Each push keeps the rows in step with the documents: where row `i` belongs to document
/// `i` for every document indexed so far, it does so with the next document and its row.
pub proof fn law_push_keeps_rows_in_step<D>(
    docs: Seq<D>,
    rows: Seq<Seq<u8>>,
    doc: D,
    row_of: spec_fn(D) -> Seq<u8>,
)
    requires
        rows == docs.map_values(row_of),
    ensures
        rows.push(row_of(doc)) == docs.push(doc).map_values(row_of),
{
}

/// A merge keeps the rows in step with the documents: where row `i` of each input belongs
/// to document `i` of that input, row `i` of the merged split belongs to document `i` of the
/// merged split.
pub proof fn law_merge_keeps_rows_in_step<D, R>(
    sources: Seq<SidecarMergeSource>,
    docs: Seq<Seq<D>>,
    rows: Seq<Seq<R>>,
    row_of: spec_fn(D) -> R,
)
    requires
        forall|i: int| 0 <= i < sources.len() ==> (#[trigger] sources[i]).wf(),
        forall|i: int|
            0 <= i < sources.len() ==> (#[trigger] docs[i]).len() == sources[i].num_docs,
        forall|i: int|
            0 <= i < sources.len() ==> #[trigger] rows[i] == docs[i].map_values(row_of),
    ensures
        stacked(sources, rows) == stacked(sources, docs).map_values(row_of),
    decreases sources.len(),
{
    if sources.len() > 0 {
        let front = sources.drop_last();
        let n = sources.len() - 1;
        assert(sources[n].wf());
        assert(docs[n].len() == sources[n].num_docs);
        assert(rows[n] == docs[n].map_values(row_of));
        assert forall|i: int| 0 <= i < front.len() implies (#[trigger] front[i]).wf() by {
            assert(sources[i].wf());
        }
        law_merge_keeps_rows_in_step(front, docs, rows, row_of);
        assert(kept(sources.last(), rows[n]) == kept(sources.last(), docs[n]).map_values(row_of));
    }
}

/// The file of a merged split follows its documents: where the file of each input stores, as
/// row `i`, the row of document `i` of that input, the merged file stores, as row `i`, the row
/// of document `i` of the merged split.
pub proof fn law_merged_file_follows_documents<D>(
    file: Seq<u8>,
    sources: Seq<SidecarMergeSource>,
    docs: Seq<Seq<D>>,
    row_of: spec_fn(D) -> Seq<u8>,
    stores: spec_fn(Seq<u8>, Seq<Seq<u8>>) -> bool,
    empty_row: Seq<u8>,
)
    requires
        forall|i: int|
            0 <= i < sources.len() ==> (#[trigger] sources[i]).holds(
                docs[i].map_values(row_of),
                stores,
                empty_row,
            ),
        holds_merge_of(file, sources, stores, empty_row),
    ensures
        stores(file, stacked(sources, docs).map_values(row_of)),
{
    let rows = Seq::new(sources.len(), |i: int| docs[i].map_values(row_of));
    assert forall|i: int| 0 <= i < sources.len() implies (#[trigger] docs[i]).len()
        == sources[i].num_docs by {
        assert(sources[i].holds(docs[i].map_values(row_of), stores, empty_row));
    }
    law_merge_keeps_rows_in_step(sources, docs, rows, row_of);
    assert(stores(file, stacked(sources, rows)));
}

/// The survivors of a merge are those of its sources taken together.
pub proof fn law_survivors_add_up(
    sources: Seq<SidecarMergeSource>,
    source: SidecarMergeSource,
)
    ensures
        surviving_total(Seq::<SidecarMergeSource>::empty()) == 0,
        surviving_total(sources.push(source)) == surviving_total(sources)
            + source.surviving().len(),
{
    assert(sources.push(source).drop_last() == sources);
}

/// A merged split has one row for each surviving document.
pub proof fn law_merged_row_count<T>(sources: Seq<SidecarMergeSource>, items: Seq<Seq<T>>)
    ensures
        stacked(sources, items).len() == surviving_total(sources),
    decreases sources.len(),
{
    if sources.len() > 0 {
        law_merged_row_count(sources.drop_last(), items);
    }
}

/// The rows of source `s` stand behind those of the sources before it, one for each of its
/// surviving documents, in the order of these.
pub proof fn law_merged_row_origin<T>(
    sources: Seq<SidecarMergeSource>,
    items: Seq<Seq<T>>,
    s: int,
    j: int,
)
    requires
        0 <= s < sources.len(),
        0 <= j < sources[s].surviving().len(),
    ensures
        surviving_total(sources.take(s)) + j < stacked(sources, items).len(),
        stacked(sources, items)[surviving_total(sources.take(s)) + j]
            == items[s][sources[s].surviving()[j]],
    decreases sources.len(),
{
    let front = sources.drop_last();
    law_merged_row_count(front, items);
    if s < sources.len() - 1 {
        law_merged_row_origin(front, items, s, j);
        assert(front.take(s) == sources.take(s));
    } else {
        assert(sources.take(s) == front);
    }
}

/// Surviving documents are documents of their split, each counted once and taken in
/// document order. They are those that the list names or, where no list is given, all.
pub proof fn law_surviving_in_document_order(source: SidecarMergeSource)
    requires
        source.wf(),
    ensures
        forall|i: int|
            0 <= i < source.surviving().len() ==> 0 <= #[trigger] source.surviving()[i]
                < source.num_docs,
        forall|i: int, j: int|
            0 <= i < j < source.surviving().len() ==> #[trigger] source.surviving()[i]
                < #[trigger] source.surviving()[j],
        source.alive_docs matches Some(alive) ==> source.surviving().len() == alive@.len()
            && forall|i: int|
            0 <= i < alive@.len() ==> source.surviving()[i] == #[trigger] alive@[i],
        source.alive_docs is None ==> source.surviving().len() == source.num_docs && forall|
            doc: int,
        |
            0 <= doc < source.num_docs ==> source.surviving()[doc] == doc,
{
}

/// Merging one split that loses no document gives back its rows.
pub proof fn law_merge_of_one_whole_split<T>(source: SidecarMergeSource, items: Seq<T>)
    requires
        source.alive_docs is None,
        items.len() == source.num_docs,
    ensures
        stacked(seq![source], seq![items]) == items,
{
    let sources = seq![source];
    assert(sources.drop_last() == Seq::<SidecarMergeSource>::empty());
    assert(stacked(sources.drop_last(), seq![items]) == Seq::<T>::empty());
    assert(kept(source, items) == items);
    assert(stacked(sources, seq![items]) == Seq::<T>::empty() + kept(source, items));
}

/// A split without a file contributes one empty row for each of its surviving documents.
pub proof fn law_missing_file_gives_empty_rows(
    source: SidecarMergeSource,
    rows: Seq<Seq<u8>>,
    stores: spec_fn(Seq<u8>, Seq<Seq<u8>>) -> bool,
    empty_row: Seq<u8>,
)
    requires
        source.data is None,
        source.holds(rows, stores, empty_row),
    ensures
        kept(source, rows).len() == source.surviving().len(),
        forall|i: int|
            0 <= i < kept(source, rows).len() ==> #[trigger] kept(source, rows)[i] == empty_row,
{
    law_surviving_in_document_order(source);
    assert forall|i: int| 0 <= i < kept(source, rows).len() implies #[trigger] kept(
        source,
        rows,
    )[i] == empty_row by {
        assert(kept(source, rows)[i] == rows[source.surviving()[i]]);
    }
}

/// Stacking is by source: the rows of a merge of two groups of splits are those of the first
/// group, then those of the second.
pub proof fn law_stacking_concatenates<T>(
    first: Seq<SidecarMergeSource>,
    first_items: Seq<Seq<T>>,
    second: Seq<SidecarMergeSource>,
    second_items: Seq<Seq<T>>,
)
    requires
        first.len() == first_items.len(),
        second.len() == second_items.len(),
    ensures
        stacked(first + second, first_items + second_items) == stacked(first, first_items)
            + stacked(second, second_items),
    decreases second.len(),
{
    let sources = first + second;
    let items = first_items + second_items;
    if second.len() == 0 {
        assert(sources == first);
        assert(items == first_items);
        assert(stacked(second, second_items) == Seq::<T>::empty());
    } else {
        law_stacking_concatenates(
            first,
            first_items,
            second.drop_last(),
            second_items.drop_last(),
        );
        assert(sources.drop_last() == first + second.drop_last());
        assert(items.drop_last() == first_items + second_items.drop_last());
        lemma_stacked_prefix(sources.drop_last(), items);
        lemma_stacked_prefix(second.drop_last(), second_items);
    }
}

/// Stacking looks at the items of its own sources only.
proof fn lemma_stacked_prefix<T>(sources: Seq<SidecarMergeSource>, items: Seq<Seq<T>>)
    requires
        items.len() == sources.len() + 1,
    ensures
        stacked(sources, items) == stacked(sources, items.drop_last()),
{
    lemma_stacked_agrees(sources, items, items.drop_last());
}

proof fn lemma_stacked_agrees<T>(
    sources: Seq<SidecarMergeSource>,
    items: Seq<Seq<T>>,
    others: Seq<Seq<T>>,
)
    requires
        forall|i: int| 0 <= i < sources.len() ==> items[i] == others[i],
    ensures
        stacked(sources, items) == stacked(sources, others),
    decreases sources.len(),
{
    if sources.len() > 0 {
        lemma_stacked_agrees(sources.drop_last(), items, others);
    }
}

/// The sidecars of a process, in registration order.
pub struct SplitSidecars<S: ?Sized> {
    registered: Vec<Arc<S>>,
}

impl<S: ?Sized> View for SplitSidecars<S> {
    type V = Seq<Arc<S>>;

    closed spec fn view(&self) -> Seq<Arc<S>> {
        self.registered@
    }
}

/// The registered sidecars once `sidecar` is registered too: those with another file name
/// stay, in their order, and `sidecar` comes last.
pub open spec fn with_sidecar<S: SplitSidecar + ?Sized>(
    registered: Seq<Arc<S>>,
    sidecar: Arc<S>,
) -> Seq<Arc<S>> {
    registered.filter(
        |existing: Arc<S>| existing.names_file() != sidecar.names_file(),
    ).push(sidecar)
}

impl<S: ?Sized> SplitSidecars<S> {
    /// A registry that holds no sidecar.
    pub fn new() -> (sidecars: Self)
        ensures
            sidecars@ == Seq::<Arc<S>>::empty(),
    {
        SplitSidecars { registered: Vec::new() }
    }
}

/// Register a sidecar. Call before starting any indexing or merge actor. Registering a
/// second sidecar with the same file name replaces the first.
pub fn register_split_sidecar<S: SplitSidecar + ?Sized>(
    sidecars: &mut SplitSidecars<S>,
    sidecar: Arc<S>,
)
    ensures
        final(sidecars)@ == with_sidecar(old(sidecars)@, sidecar),
        final(sidecars)@ == old(sidecars)@.filter(
            |existing: Arc<S>| existing.names_file() != sidecar.names_file(),
        ).push(sidecar),
{
    let ghost other_name = |existing: Arc<S>| existing.names_file() != sidecar.names_file();
    let name = sidecar.file_name().to_owned();
    let mut retained: Vec<Arc<S>> = Vec::new();
    for i in 0..sidecars.registered.len()
        invariant
            sidecars@ == old(sidecars)@,
            name@ == sidecar.names_file(),
            other_name == (|existing: Arc<S>| existing.names_file() != sidecar.names_file()),
            retained@ == sidecars@.take(i as int).filter(other_name),
    {
        proof {
            reveal(Seq::filter);
            assert(sidecars@.take(i + 1).drop_last() == sidecars@.take(i as int));
        }
        let existing = &sidecars.registered[i];
        if existing.file_name().to_owned() != name {
            retained.push(existing.clone());
        }
    }
    assert(sidecars@.take(sidecars@.len() as int) == sidecars@);
    retained.push(sidecar);
    sidecars.registered = retained;
}

/// The registered sidecars, in registration order (the order of a processed document's
/// payloads).
pub fn split_sidecars<S: ?Sized>(sidecars: &SplitSidecars<S>) -> (registered: Vec<Arc<S>>)
    ensures
        registered@ == sidecars@,
{
    let mut registered: Vec<Arc<S>> = Vec::new();
    for i in 0..sidecars.registered.len()
        invariant
            registered@ == sidecars@.take(i as int),
    {
        registered.push(sidecars.registered[i].clone());
        assert(sidecars@.take(i + 1) == sidecars@.take(i as int).push(sidecars@[i as int]));
    }
    assert(sidecars@.take(sidecars@.len() as int) == sidecars@);
    registered
}

/// No two sidecars have one file name.
pub open spec fn distinct_files<S: SplitSidecar + ?Sized>(registered: Seq<Arc<S>>) -> bool {
    forall|i: int, j: int|
        0 <= i < j < registered.len() ==> (#[trigger] registered[i]).names_file() != (
        #[trigger] registered[j]).names_file()
}

/// A registry never holds two sidecars with one file name: an empty one does not, and
/// registering a sidecar brings none in.
pub proof fn law_files_stay_distinct<S: SplitSidecar + ?Sized>(
    registered: Seq<Arc<S>>,
    sidecar: Arc<S>,
)
    ensures
        distinct_files(Seq::<Arc<S>>::empty()),
        distinct_files(registered) ==> distinct_files(with_sidecar(registered, sidecar)),
{
    let other_name = |existing: Arc<S>| existing.names_file() != sidecar.names_file();
    if distinct_files(registered) {
        lemma_filter_keeps_files_distinct(registered, other_name);
        let after = with_sidecar(registered, sidecar);
        let retained = registered.filter(other_name);
        assert forall|i: int, j: int| 0 <= i < j < after.len() implies (
        #[trigger] after[i]).names_file() != (#[trigger] after[j]).names_file() by {
            assert(after[i] == retained[i]);
            if j < retained.len() {
                assert(after[j] == retained[j]);
            } else {
                registered.lemma_filter_pred(other_name, i);
            }
        }
    }
}

/// A registered sidecar is the last one, and the only one with its file name; every sidecar
/// with another file name is still there.
pub proof fn law_registered_sidecar_is_last<S: SplitSidecar + ?Sized>(
    registered: Seq<Arc<S>>,
    sidecar: Arc<S>,
)
    ensures
        with_sidecar(registered, sidecar).len() > 0,
        with_sidecar(registered, sidecar).last() == sidecar,
        forall|i: int|
            0 <= i < with_sidecar(registered, sidecar).len() - 1 ==> (#[trigger] with_sidecar(
                registered,
                sidecar,
            )[i]).names_file() != sidecar.names_file(),
        forall|existing: Arc<S>|
            registered.contains(existing) && existing.names_file() != sidecar.names_file()
                ==> #[trigger] with_sidecar(registered, sidecar).contains(existing),
{
    let other_name = |existing: Arc<S>| existing.names_file() != sidecar.names_file();
    let after = with_sidecar(registered, sidecar);
    let retained = registered.filter(other_name);
    assert forall|i: int| 0 <= i < after.len() - 1 implies (#[trigger] after[i]).names_file()
        != sidecar.names_file() by {
        assert(after[i] == retained[i]);
        registered.lemma_filter_pred(other_name, i);
    }
    assert forall|existing: Arc<S>|
        registered.contains(existing) && existing.names_file()
            != sidecar.names_file() implies #[trigger] after.contains(existing) by {
        let k = choose|k: int| 0 <= k < registered.len() && registered[k] == existing;
        assert(other_name(registered[k]));
        registered.lemma_filter_contains(other_name, k);
        let m = choose|m: int| 0 <= m < retained.len() && retained[m] == existing;
        assert(after[m] == existing);
    }
}

/// A sidecar with a new file name goes behind all the others, none of which is touched.
pub proof fn law_new_file_is_appended<S: SplitSidecar + ?Sized>(
    registered: Seq<Arc<S>>,
    sidecar: Arc<S>,
)
    requires
        forall|i: int|
            0 <= i < registered.len() ==> (#[trigger] registered[i]).names_file()
                != sidecar.names_file(),
    ensures
        with_sidecar(registered, sidecar) == registered.push(sidecar),
{
    lemma_filter_of_all(
        registered,
        |existing: Arc<S>| existing.names_file() != sidecar.names_file(),
    );
}

/// A sidecar that takes over a file name goes behind all the others. The one that had the
/// name is gone, and the others keep their order.
pub proof fn law_replacement_keeps_the_order_of_the_others<S: SplitSidecar + ?Sized>(
    registered: Seq<Arc<S>>,
    sidecar: Arc<S>,
    k: int,
)
    requires
        distinct_files(registered),
        0 <= k < registered.len(),
        registered[k].names_file() == sidecar.names_file(),
    ensures
        with_sidecar(registered, sidecar) == registered.remove(k).push(sidecar),
{
    let other_name = |existing: Arc<S>| existing.names_file() != sidecar.names_file();
    let before = registered.take(k);
    let behind = registered.skip(k + 1);
    assert(registered == before.push(registered[k]) + behind);
    Seq::filter_distributes_over_add(before.push(registered[k]), behind, other_name);
    before.lemma_filter_push(registered[k], other_name);
    assert forall|i: int| 0 <= i < before.len() implies other_name(#[trigger] before[i]) by {
        assert(registered[i].names_file() != registered[k].names_file());
    }
    assert forall|i: int| 0 <= i < behind.len() implies other_name(#[trigger] behind[i]) by {
        assert(registered[k].names_file() != registered[k + 1 + i].names_file());
    }
    lemma_filter_of_all(before, other_name);
    lemma_filter_of_all(behind, other_name);
    assert(registered.filter(other_name) == before + behind);
    assert(registered.remove(k) == before + behind);
}

/// Of two sidecars with one file name the second replaces the first: it is as if the first
/// had never been registered.
pub proof fn law_same_file_replaces<S: SplitSidecar + ?Sized>(
    registered: Seq<Arc<S>>,
    first: Arc<S>,
    second: Arc<S>,
)
    requires
        first.names_file() == second.names_file(),
    ensures
        with_sidecar(with_sidecar(registered, first), second) == with_sidecar(registered, second),
{
    let other_than_first = |existing: Arc<S>| existing.names_file() != first.names_file();
    let other_than_second = |existing: Arc<S>| existing.names_file() != second.names_file();
    assert(other_than_first =~= other_than_second);
    let retained = registered.filter(other_than_second);
    let after_first = with_sidecar(registered, first);
    assert forall|i: int| 0 <= i < retained.len() implies other_than_second(
        #[trigger] retained[i],
    ) by {
        registered.lemma_filter_pred(other_than_second, i);
    }
    lemma_filter_of_all(retained, other_than_second);
    assert(after_first.drop_last() == retained);
    assert(!other_than_second(first));
    reveal(Seq::filter);
    assert(after_first.filter(other_than_second) == retained);
}

/// A filter that every element passes changes nothing.
proof fn lemma_filter_of_all<T>(items: Seq<T>, pass: spec_fn(T) -> bool)
    requires
        forall|i: int| 0 <= i < items.len() ==> pass(#[trigger] items[i]),
    ensures
        items.filter(pass) == items,
    decreases items.len(),
{
    reveal(Seq::filter);
    if items.len() > 0 {
        assert(pass(items[items.len() - 1]));
        assert forall|i: int| 0 <= i < items.drop_last().len() implies pass(
            #[trigger] items.drop_last()[i],
        ) by {
            assert(pass(items[i]));
        }
        lemma_filter_of_all(items.drop_last(), pass);
    }
}

/// A filter brings no file name in twice.
proof fn lemma_filter_keeps_files_distinct<S: SplitSidecar + ?Sized>(
    registered: Seq<Arc<S>>,
    pass: spec_fn(Arc<S>) -> bool,
)
    requires
        distinct_files(registered),
    ensures
        distinct_files(registered.filter(pass)),
    decreases registered.len(),
{
    reveal(Seq::filter);
    if registered.len() > 0 {
        let front = registered.drop_last();
        assert forall|i: int, j: int| 0 <= i < j < front.len() implies (
        #[trigger] front[i]).names_file() != (#[trigger] front[j]).names_file() by {
            assert(registered[i].names_file() != registered[j].names_file());
        }
        lemma_filter_keeps_files_distinct(front, pass);
        let retained = registered.filter(pass);
        let front_retained = front.filter(pass);
        assert forall|i: int, j: int| 0 <= i < j < retained.len() implies (
        #[trigger] retained[i]).names_file() != (#[trigger] retained[j]).names_file() by {
            assert(retained[i] == front_retained[i]);
            if j == front_retained.len() {
                front.lemma_filter_contains_rev(pass, front_retained[i]);
                let m = choose|m: int| 0 <= m < front.len() && front[m] == front_retained[i];
                assert(registered[m].names_file() != registered[registered.len()
                    - 1].names_file());
            } else {
                assert(retained[j] == front_retained[j]);
            }
        }
    }
}

} // verus!
