//! The index: records in the order of their source, and the two lookups.

use vstd::multiset::Multiset;
use vstd::prelude::*;
pub use crate::split::DataSplit;
use crate::split::classify;
use crate::table::{csv_rows, read_rows, Row};
use crate::text::{is_whitespace, lemma_trimmed_is_the_core, str_eq, trim, trimmed};

verus! {

/// What a record holds: its name and its split.
pub type Entry = (Seq<char>, DataSplit);

/// Why a source gave no dataset.
#[derive(Debug, Clone, Copy, PartialEq, Eq)]
pub enum LoadError {
    /// The source could not be opened or read.
    SourceUnavailable,
    /// A row has fewer than two fields; `row` is its position among the rows,
    /// counted from zero. `row` is `None` where the CSV reader itself
    /// rejected the document.
    MalformedRow { row: Option<usize> },
}

/// A named record and the split it belongs to.
#[derive(Debug)]
pub struct Record {
    name: String,
    split: DataSplit,
}

impl View for Record {
    type V = Entry;

    closed spec fn view(&self) -> Entry {
        (self.name@, self.split)
    }
}

impl Record {
    pub fn new(name: String, split: DataSplit) -> (record: Record)
        ensures
            record@ == (name@, split),
    {
        Record { name, split }
    }
}

/// Records in the order in which their rows stood in the source. Names need
/// not be distinct.
#[derive(Debug)]
pub struct Dataset {
    list: Vec<Record>,
}

impl View for Dataset {
    type V = Seq<Entry>;

    closed spec fn view(&self) -> Seq<Entry> {
        self.list@.map_values(|r: Record| r@)
    }
}

/// Holds of the entries called `name`.
pub open spec fn is_named(name: Seq<char>) -> spec_fn(Entry) -> bool {
    |e: Entry| e.0 == name
}

/// Holds of the entries in `split`.
pub open spec fn is_in(split: DataSplit) -> spec_fn(Entry) -> bool {
    |e: Entry| e.1 == split
}

/// Takes an entry to its name.
pub open spec fn name_of() -> spec_fn(Entry) -> Seq<char> {
    |e: Entry| e.0
}

/// Takes an entry to its split.
pub open spec fn split_of() -> spec_fn(Entry) -> DataSplit {
    |e: Entry| e.1
}

/// The splits of the entries called `name`, in the order of the entries.
pub open spec fn splits_for(entries: Seq<Entry>, name: Seq<char>) -> Seq<DataSplit> {
    entries.filter(is_named(name)).map_values(split_of())
}

/// The names of the entries in `split`, in the order of the entries.
pub open spec fn names_for(entries: Seq<Entry>, split: DataSplit) -> Seq<Seq<char>> {
    entries.filter(is_in(split)).map_values(name_of())
}

proof fn lemma_filter_push<A>(s: Seq<A>, a: A, pred: spec_fn(A) -> bool)
    ensures
        s.push(a).filter(pred) == if pred(a) {
            s.filter(pred).push(a)
        } else {
            s.filter(pred)
        },
{
    reveal(Seq::filter);
    assert(s.push(a).drop_last() =~= s);
}

proof fn lemma_splits_for_push(entries: Seq<Entry>, e: Entry, name: Seq<char>)
    ensures
        splits_for(entries.push(e), name) == if e.0 == name {
            splits_for(entries, name).push(e.1)
        } else {
            splits_for(entries, name)
        },
{
    let kept = entries.filter(is_named(name));
    lemma_filter_push(entries, e, is_named(name));
    if e.0 == name {
        assert(kept.push(e).map_values(split_of()) =~= kept.map_values(split_of()).push(e.1));
    }
}

proof fn lemma_names_for_push(entries: Seq<Entry>, e: Entry, split: DataSplit)
    ensures
        names_for(entries.push(e), split) == if e.1 == split {
            names_for(entries, split).push(e.0)
        } else {
            names_for(entries, split)
        },
{
    let kept = entries.filter(is_in(split));
    lemma_filter_push(entries, e, is_in(split));
    if e.1 == split {
        assert(kept.push(e).map_values(name_of()) =~= kept.map_values(name_of()).push(e.0));
    }
}

impl Dataset {
    pub fn new(list: Vec<Record>) -> (dataset: Dataset)
        ensures
            dataset@ == list@.map_values(|r: Record| r@),
    {
        Dataset { list }
    }

    /// The split of every record called `name`, compared character by
    /// character, in the order of the records; empty where there is none.
    pub fn get_splits_for(&self, name: &str) -> (splits: Vec<DataSplit>)
        ensures
            splits@ == splits_for(self@, name@),
            self@.len() == 0 ==> splits@.len() == 0,
    {
        let mut splits: Vec<DataSplit> = Vec::new();
        let mut i: usize = 0;
        proof {
            reveal(Seq::filter);
            assert(self@.take(0) =~= Seq::<Entry>::empty());
            assert(splits@ =~= splits_for(self@.take(0), name@));
        }
        while i < self.list.len()
            invariant
                i <= self.list.len(),
                splits@ == splits_for(self@.take(i as int), name@),
            decreases self.list.len() - i,
        {
            let record = &self.list[i];
            proof {
                assert(self@.take(i + 1) =~= self@.take(i as int).push(record@));
                lemma_splits_for_push(self@.take(i as int), record@, name@);
            }
            if str_eq(record.name.as_str(), name) {
                splits.push(record.split);
            }
            i = i + 1;
        }
        proof {
            assert(self@.take(i as int) =~= self@);
        }
        splits
    }

    /// The name of every record in `split`, in the order of the records;
    /// empty where there is none.
    pub fn get_names_for(&self, split: DataSplit) -> (names: Vec<String>)
        ensures
            names.deep_view() == names_for(self@, split),
            self@.len() == 0 ==> names@.len() == 0,
    {
        let mut names: Vec<String> = Vec::new();
        let mut i: usize = 0;
        proof {
            reveal(Seq::filter);
            assert(self@.take(0) =~= Seq::<Entry>::empty());
            assert(names.deep_view() =~= names_for(self@.take(0), split));
        }
        while i < self.list.len()
            invariant
                i <= self.list.len(),
                names.deep_view() == names_for(self@.take(i as int), split),
            decreases self.list.len() - i,
        {
            let record = &self.list[i];
            proof {
                assert(self@.take(i + 1) =~= self@.take(i as int).push(record@));
                lemma_names_for_push(self@.take(i as int), record@, split);
            }
            if record.split == split {
                let ghost before = names.deep_view();
                names.push(record.name.clone());
                assert(names.deep_view() =~= before.push(record.name@));
            }
            i = i + 1;
        }
        proof {
            assert(self@.take(i as int) =~= self@);
        }
        names
    }
}

/// The entry that a row of at least two fields stands for: the first field
/// trimmed is the name, the second field trimmed is the label of the split.
pub open spec fn entry_of(row: Row) -> Entry
    recommends
        row.len() >= 2,
{
    (trimmed(row[0]), classify(trimmed(row[1])))
}

/// The entries that `rows` stand for, in the order of the rows.
pub open spec fn entries_of(rows: Seq<Row>) -> Seq<Entry> {
    rows.map_values(|row: Row| entry_of(row))
}

/// The number of rows that stand before the first row of fewer than two
/// fields; the number of all rows where every row has two.
pub open spec fn complete_rows(rows: Seq<Row>) -> nat
    decreases rows.len(),
{
    if rows.len() == 0 || rows.first().len() < 2 {
        0
    } else {
        1 + complete_rows(rows.drop_first())
    }
}

/// What building a dataset from `rows` gives: an entry for each row, in the
/// order of the rows, or the position of the first row of fewer than two
/// fields.
pub open spec fn built(rows: Seq<Row>) -> Result<Seq<Entry>, LoadError> {
    let at = complete_rows(rows);
    if at < rows.len() {
        Err(LoadError::MalformedRow { row: Some(at as usize) })
    } else {
        Ok(entries_of(rows))
    }
}

/// What loading gives: `source` is the content of the source, `None` where
/// it could not be read.
pub open spec fn loaded(source: Option<Seq<u8>>) -> Result<Seq<Entry>, LoadError> {
    match source {
        None => Err(LoadError::SourceUnavailable),
        Some(bytes) => match csv_rows(bytes) {
            None => Err(LoadError::MalformedRow { row: None }),
            Some(rows) => built(rows),
        },
    }
}

/// The content that `source` holds.
pub open spec fn content_of(source: Option<&[u8]>) -> Option<Seq<u8>> {
    match source {
        None => None,
        Some(bytes) => Some(bytes@),
    }
}

/// `complete_rows` is the position of the first row of fewer than two
/// fields: every row before it has two, and it is such a row unless there is
/// none.
pub proof fn lemma_complete_rows_is_first_short(rows: Seq<Row>)
    ensures
        complete_rows(rows) <= rows.len(),
        forall|j: int| 0 <= j < complete_rows(rows) ==> (#[trigger] rows[j]).len() >= 2,
        complete_rows(rows) < rows.len() ==> rows[complete_rows(rows) as int].len() < 2,
    decreases rows.len(),
{
    if rows.len() > 0 && rows.first().len() >= 2 {
        let rest = rows.drop_first();
        lemma_complete_rows_is_first_short(rest);
        assert forall|j: int| 0 <= j < complete_rows(rows) implies (#[trigger] rows[j]).len()
            >= 2 by {
            if j > 0 {
                assert(rows[j] == rest[j - 1]);
            }
        }
        if complete_rows(rows) < rows.len() {
            assert(rows[complete_rows(rows) as int] == rest[complete_rows(rest) as int]);
        }
    }
}

/// A build fails exactly where some row has fewer than two fields, whatever
/// the other rows hold, and then with `MalformedRow` and the position of the
/// first such row.
pub proof fn lemma_built_fails_on_short_row(rows: Seq<Row>)
    ensures
        built(rows) is Err <==> exists|i: int| 0 <= i < rows.len() && (#[trigger] rows[i]).len() < 2,
        built(rows) is Err ==> built(rows) == Err::<Seq<Entry>, LoadError>(
            LoadError::MalformedRow { row: Some(complete_rows(rows) as usize) },
        ) && rows[complete_rows(rows) as int].len() < 2,
{
    lemma_complete_rows_is_first_short(rows);
}

/// Builds the dataset of `rows`, one record for each row in their order: the
/// first field, trimmed, is the name, and the second field, trimmed, is
/// classified. Further fields are not read. Fails with the position of the
/// first row of fewer than two fields, and then gives no dataset.
pub fn build(rows: &Vec<Vec<String>>) -> (outcome: Result<Dataset, LoadError>)
    ensures
        match outcome {
            Ok(dataset) => built(rows.deep_view()) == Ok::<Seq<Entry>, LoadError>(dataset@),
            Err(error) => built(rows.deep_view()) == Err::<Seq<Entry>, LoadError>(error),
        },
        outcome is Err <==> exists|i: int| 0 <= i < rows@.len() && (#[trigger] rows@[i])@.len() < 2,
        outcome is Err ==> outcome->Err_0 is MalformedRow,
{
    let ghost fields = rows.deep_view();
    let mut list: Vec<Record> = Vec::new();
    let mut i: usize = 0;
    while i < rows.len()
        invariant
            i <= rows.len(),
            fields == rows.deep_view(),
            list@.len() == i,
            forall|j: int| 0 <= j < i ==> (#[trigger] fields[j]).len() >= 2,
            forall|j: int| 0 <= j < i ==> (#[trigger] list@[j])@ == entry_of(fields[j]),
        decreases rows.len() - i,
    {
        let row = &rows[i];
        assert(fields[i as int] == row.deep_view());
        if row.len() < 2 {
            proof {
                lemma_complete_rows_is_first_short(fields);
                let at = complete_rows(fields) as int;
                if at < i {
                    assert(fields[at].len() >= 2);
                }
            }
            return Err(LoadError::MalformedRow { row: Some(i) });
        }
        let name = trim(row[0].as_str()).to_owned();
        let split = DataSplit::from(trim(row[1].as_str()));
        list.push(Record::new(name, split));
        i = i + 1;
    }
    let dataset = Dataset::new(list);
    proof {
        lemma_complete_rows_is_first_short(fields);
        assert forall|j: int| 0 <= j < rows@.len() implies (#[trigger] rows@[j])@.len() >= 2 by {
            assert(fields[j] == rows@[j].deep_view());
        }
        assert(dataset@ =~= entries_of(fields));
    }
    Ok(dataset)
}

/// Loads a dataset from the content of a source; `None` says that the source
/// could not be opened or read. Every row of the document is data, none is
/// taken as a header. Any failure gives no dataset.
pub fn read_dataset(source: Option<&[u8]>) -> (outcome: Result<Dataset, LoadError>)
    ensures
        match outcome {
            Ok(dataset) => loaded(content_of(source)) == Ok::<Seq<Entry>, LoadError>(dataset@),
            Err(error) => loaded(content_of(source)) == Err::<Seq<Entry>, LoadError>(error),
        },
        source is None <==> outcome is Err && outcome->Err_0 == LoadError::SourceUnavailable,
{
    match source {
        None => Err(LoadError::SourceUnavailable),
        Some(bytes) => match read_rows(bytes) {
            Err(_) => Err(LoadError::MalformedRow { row: None }),
            Ok(rows) => build(&rows),
        },
    }
}

/// The names that the four splits hold together, each as often as it occurs.
pub open spec fn names_in_all_splits(entries: Seq<Entry>) -> Multiset<Seq<char>> {
    names_for(entries, DataSplit::Train).to_multiset().add(
        names_for(entries, DataSplit::Validation).to_multiset(),
    ).add(names_for(entries, DataSplit::Test).to_multiset()).add(
        names_for(entries, DataSplit::Unknown).to_multiset(),
    )
}

/// Holds of the rows whose second field, trimmed, is a label of `split`.
pub open spec fn is_labelled(split: DataSplit) -> spec_fn(Row) -> bool {
    |row: Row| classify(trimmed(row[1])) == split
}

/// Takes a row to its first field, trimmed.
pub open spec fn row_name() -> spec_fn(Row) -> Seq<char> {
    |row: Row| trimmed(row[0])
}

/// Every entry is in exactly one split: the names that the lookups by split
/// give for the four splits are together the names of all entries, each as
/// often as it occurs among them.
pub proof fn lemma_splits_partition_names(entries: Seq<Entry>)
    ensures
        names_in_all_splits(entries) == entries.map_values(name_of()).to_multiset(),
    decreases entries.len(),
{
    broadcast use vstd::seq_lib::group_to_multiset_ensures;

    if entries.len() == 0 {
        reveal(Seq::filter);
        assert(entries.map_values(name_of()) =~= Seq::<Seq<char>>::empty());
        assert(names_for(entries, DataSplit::Train) =~= Seq::<Seq<char>>::empty());
        assert(names_for(entries, DataSplit::Validation) =~= Seq::<Seq<char>>::empty());
        assert(names_for(entries, DataSplit::Test) =~= Seq::<Seq<char>>::empty());
        assert(names_for(entries, DataSplit::Unknown) =~= Seq::<Seq<char>>::empty());
        assert(names_in_all_splits(entries) =~= entries.map_values(name_of()).to_multiset());
    } else {
        let init = entries.drop_last();
        let e = entries.last();
        assert(entries =~= init.push(e));
        lemma_splits_partition_names(init);
        lemma_names_for_push(init, e, DataSplit::Train);
        lemma_names_for_push(init, e, DataSplit::Validation);
        lemma_names_for_push(init, e, DataSplit::Test);
        lemma_names_for_push(init, e, DataSplit::Unknown);
        assert(entries.map_values(name_of()) =~= init.map_values(name_of()).push(e.0));
        assert(names_in_all_splits(entries) =~= names_in_all_splits(init).insert(e.0));
        assert(names_in_all_splits(entries) =~= entries.map_values(name_of()).to_multiset());
    }
}

/// The lookup by split, on the entries of `rows`, gives the trimmed names of
/// the rows whose label is of that split, in the order of the rows.
pub proof fn lemma_names_follow_rows(rows: Seq<Row>, split: DataSplit)
    ensures
        names_for(entries_of(rows), split) == rows.filter(is_labelled(split)).map_values(
            row_name(),
        ),
    decreases rows.len(),
{
    if rows.len() == 0 {
        reveal(Seq::filter);
        assert(names_for(entries_of(rows), split) =~= rows.filter(is_labelled(split)).map_values(
            row_name(),
        ));
    } else {
        let init = rows.drop_last();
        let row = rows.last();
        let kept = init.filter(is_labelled(split));
        assert(rows =~= init.push(row));
        lemma_names_follow_rows(init, split);
        lemma_filter_push(init, row, is_labelled(split));
        assert(entries_of(rows) =~= entries_of(init).push(entry_of(row)));
        lemma_names_for_push(entries_of(init), entry_of(row), split);
        if is_labelled(split)(row) {
            assert(kept.push(row).map_values(row_name()) =~= kept.map_values(row_name()).push(
                trimmed(row[0]),
            ));
        }
    }
}

/// Round trip: where a dataset is built from `rows`, the lookups by split
/// over the four splits give back the trimmed names of the rows, each as
/// often as it occurs, and each under the split that its label is classified
/// as.
pub proof fn lemma_round_trip(rows: Seq<Row>)
    requires
        built(rows) is Ok,
    ensures
        built(rows) == Ok::<Seq<Entry>, LoadError>(entries_of(rows)),
        names_in_all_splits(entries_of(rows)) == rows.map_values(row_name()).to_multiset(),
        forall|split: DataSplit| #[trigger]
            names_for(entries_of(rows), split) == rows.filter(is_labelled(split)).map_values(
                row_name(),
            ),
{
    lemma_splits_partition_names(entries_of(rows));
    assert(entries_of(rows).map_values(name_of()) =~= rows.map_values(row_name()));
    assert forall|split: DataSplit| #[trigger]
        names_for(entries_of(rows), split) == rows.filter(is_labelled(split)).map_values(
            row_name(),
        ) by {
        lemma_names_follow_rows(rows, split);
    }
}

/// Every name of a dataset that is built from rows is trimmed: it neither
/// begins nor ends with whitespace. It may be empty.
pub proof fn lemma_built_names_are_trimmed(rows: Seq<Row>, i: int)
    requires
        built(rows) is Ok,
        0 <= i < rows.len(),
    ensures
        built(rows)->Ok_0.len() == rows.len(),
        ({
            let name = built(rows)->Ok_0[i].0;
            name.len() > 0 ==> !is_whitespace(name.first()) && !is_whitespace(name.last())
        }),
{
    let field = rows[i][0];
    let (from, to) = lemma_trimmed_is_the_core(field);
    assert(entries_of(rows)[i].0 == trimmed(field));
}

} // verus!
