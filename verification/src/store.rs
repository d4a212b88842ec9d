//! Small `redb`-backed store for data that would otherwise be rewritten wholesale on every change:
//! the (virtualized) Liked Songs list, one encoded track per list position, and the number of liked
//! songs. Everything here is best-effort: the service is what counts, and a caller may ignore a
//! failed transaction.

use vstd::prelude::*;

use crate::db;
#[allow(unused_imports)]
use crate::db::{
    db_entries, db_numbers, db_path, db_rows, db_writing, entries_in, holds_what, lists_table, no_entries, no_numbers,
    no_rows, numbers_in, rows_in, rows_of, same_tables, txn_base, txn_entries, txn_numbers, txn_rows, Entries, Numbers,
    Rows,
};
#[allow(unused_imports)]
use crate::filters::{lemma_filter_picks, picked_from};
use crate::liked_songs::{ListWrite, Persistence};
use crate::model::Track;
#[allow(unused_imports)]
use crate::model::{tracks_of, TrackView};
use crate::text::{decimal_text, parse_decimal};
#[allow(unused_imports)]
use crate::text::{decimal, law_decimal_round_trip, parsed, text_of, texts_of};

verus! {

/// The table of the liked songs, encoded, by list position (0 is the most recently liked).
pub const SAVED_TABLE: &'static str = "saved_tracks";

/// The table of named scalars.
pub const SCALARS_TABLE: &'static str = "kv";

/// The table of detected tempos by track id.
pub const TEMPOS_TABLE: &'static str = "bpm";

/// The scalar that holds the number of liked songs.
pub const SAVED_TOTAL_KEY: &'static str = "saved_total";

/// Why a write did not succeed.
pub enum StoreError {
    /// The transaction failed before it was committed: the store is as it was.
    Unchanged(redb::Error),
    /// Committing failed: the store holds all that was to be written or nothing of it, and which of the
    /// two is not known.
    Unknown(redb::Error),
}

/// The persistent store.
pub struct Store {
    /// `None` means that the store could not be opened; every method then does nothing.
    db: Option<redb::Database>,
}

/// The contents of a [`Store`].
#[verifier::ext_equal]
pub struct StoreView {
    /// Whether there is a database at all.
    pub enabled: bool,
    /// The path of the store's file; no text for a store in memory or a disabled one.
    pub path: Seq<char>,
    /// Encoded tracks by list position (0 is the most recently liked).
    pub saved: Rows,
    /// Named scalars.
    pub scalars: Entries,
    /// Detected tempos by track id, each as the bits of a double-precision number.
    pub tempos: Numbers,
}

/// The contents of a store on the database.
pub open spec fn store_on(db: redb::Database) -> StoreView {
    StoreView {
        enabled: true,
        path: db_path(db),
        saved: rows_in(db_rows(db), SAVED_TABLE@),
        scalars: entries_in(db_entries(db), SCALARS_TABLE@),
        tempos: numbers_in(db_numbers(db), TEMPOS_TABLE@),
    }
}

/// The contents of a store in which nothing has been written yet.
pub open spec fn blank_store(enabled: bool) -> StoreView {
    StoreView { enabled, path: Seq::empty(), saved: no_rows(), scalars: no_entries(), tempos: no_numbers() }
}

/// What to do after an attempt to open the database.
pub enum OpenStep {
    /// The store is ready (it may be disabled).
    Ready(Store),
    /// Remove the file and try once more.
    RemoveAndRetry,
}

impl View for Store {
    type V = StoreView;

    closed spec fn view(&self) -> StoreView {
        match self.db {
            Some(db) => store_on(db),
            None => blank_store(false),
        }
    }
}

// --- Rows ------------------------------------------------------------------------------------

/// The views of optional texts.
pub open spec fn optional_texts_of(v: Seq<Option<String>>) -> Seq<Option<Seq<char>>> {
    v.map_values(|t: Option<String>| text_of(t))
}

/// The table that has each of the texts at its position, counted from `start`, and no row for a
/// text that is absent.
pub open spec fn placed(start: u64, texts: Seq<Option<Seq<char>>>) -> Rows {
    Map::new(|p: u64| start <= p < start + texts.len() && texts[p - start] is Some, |p: u64| texts[p - start]->0)
}

/// The rows of [`placed`], by rising position.
pub open spec fn placed_rows(start: u64, texts: Seq<Option<Seq<char>>>) -> Seq<(u64, Seq<char>)>
    decreases texts.len(),
{
    if texts.len() == 0 {
        Seq::empty()
    } else {
        let rows = placed_rows(start, texts.drop_last());
        match texts.last() {
            Some(text) => rows.push(((start + texts.len() - 1) as u64, text)),
            None => rows,
        }
    }
}

/// The table after the rows have been written into it, one after the other.
pub open spec fn with_rows(table: Rows, rows: Seq<(u64, Seq<char>)>) -> Rows
    decreases rows.len(),
{
    if rows.len() == 0 {
        table
    } else {
        with_rows(table, rows.drop_last()).insert(rows.last().0, rows.last().1)
    }
}

/// The entries of a table by rising position.
pub open spec fn listing(table: Rows) -> Seq<(u64, Seq<char>)> {
    choose|rows: Seq<(u64, Seq<char>)>| lists_table(rows, table)
}

/// The texts of some rows, in their order.
pub open spec fn texts_in(rows: Seq<(u64, Seq<char>)>) -> Seq<Seq<char>> {
    rows.map_values(|row: (u64, Seq<char>)| row.1)
}

/// The texts of a table in the order of their positions.
pub open spec fn texts_in_order(table: Rows) -> Seq<Seq<char>> {
    texts_in(listing(table))
}

/// The number of liked songs that the scalars hold, if any.
pub open spec fn stored_total(scalars: Entries) -> Option<usize> {
    if scalars.contains_key(SAVED_TOTAL_KEY@) {
        parsed(scalars[SAVED_TOTAL_KEY@])
    } else {
        None
    }
}

/// The tracks that could be decoded, in order.
pub open spec fn decoded_of(rows: Seq<Option<Track>>) -> Seq<TrackView>
    decreases rows.len(),
{
    if rows.len() == 0 {
        Seq::empty()
    } else {
        match rows.last() {
            Some(track) => decoded_of(rows.drop_last()).push(track@),
            None => decoded_of(rows.drop_last()),
        }
    }
}

impl StoreView {
    /// The store with the given rows written over its own. A disabled store stays empty.
    pub open spec fn with_range(self, start: u64, texts: Seq<Option<Seq<char>>>) -> StoreView {
        if self.enabled {
            StoreView { saved: self.saved.union_prefer_right(placed(start, texts)), ..self }
        } else {
            self
        }
    }

    /// The store with the given rows in place of its own.
    pub open spec fn with_all(self, texts: Seq<Option<Seq<char>>>) -> StoreView {
        if self.enabled {
            StoreView { saved: placed(0, texts), ..self }
        } else {
            self
        }
    }

    /// The store without its rows from `len` on.
    pub open spec fn truncated(self, len: u64) -> StoreView {
        if self.enabled {
            StoreView { saved: self.saved.restrict(Set::new(|k: u64| k < len)), ..self }
        } else {
            self
        }
    }

    /// The store after the change of the list that the write stands for: `page` is the page that came
    /// in last, `list` the list as it is now.
    pub open spec fn listed(
        self,
        write: ListWrite,
        page: Seq<Option<Seq<char>>>,
        list: Seq<Option<Seq<char>>>,
    ) -> StoreView {
        match write {
            ListWrite::Page { start } => self.with_range(start as u64, page),
            ListWrite::All => self.with_all(list),
            ListWrite::Truncate { len } => self.truncated(len as u64),
        }
    }

    /// The store with a scalar set.
    pub open spec fn with_scalar(self, key: Seq<char>, value: Seq<char>) -> StoreView {
        if self.enabled {
            StoreView { scalars: self.scalars.insert(key, value), ..self }
        } else {
            self
        }
    }
}

/// How a write that is to turn `before` into `target` may end: it succeeds, it fails and leaves
/// the store as it was, or it fails and the store is either as it was or as it was to be. The file
/// stays the same, and without a database it always succeeds.
pub open spec fn write_outcome(
    before: StoreView,
    after: StoreView,
    target: StoreView,
    r: Result<(), StoreError>,
) -> bool {
    &&& after.enabled == before.enabled
    &&& after.path == before.path
    &&& !before.enabled ==> r is Ok
    &&& match r {
        Ok(_) => after == target,
        Err(StoreError::Unchanged(_)) => after == before,
        Err(StoreError::Unknown(_)) => after == before || after == target,
    }
}

/// The rows of [`placed_rows`] make [`placed`] out of an empty table, and write it over another.
pub proof fn lemma_placed_rows(table: Rows, start: u64, texts: Seq<Option<Seq<char>>>)
    requires
        start + texts.len() <= u64::MAX,
    ensures
        with_rows(table, placed_rows(start, texts)) == table.union_prefer_right(placed(start, texts)),
    decreases texts.len(),
{
    if texts.len() == 0 {
        assert(table =~= table.union_prefer_right(placed(start, texts)));
    } else {
        let head = texts.drop_last();
        lemma_placed_rows(table, start, head);
        let at = (start + texts.len() - 1) as u64;
        match texts.last() {
            Some(text) => {
                let rows = placed_rows(start, head);
                assert(rows.push((at, text)).drop_last() =~= rows);
                assert(table.union_prefer_right(placed(start, head)).insert(at, text) =~= table.union_prefer_right(
                    placed(start, texts),
                ));
            },
            None => {
                assert(placed(start, head) =~= placed(start, texts));
            },
        }
    }
}

/// A table has only one listing.
pub proof fn lemma_listing_unique(
    a: Seq<(u64, Seq<char>)>,
    b: Seq<(u64, Seq<char>)>,
    table: Rows,
)
    requires
        lists_table(a, table),
        lists_table(b, table),
    ensures
        a == b,
    decreases a.len(),
{
    if a.len() == 0 {
        if b.len() > 0 {
            assert(table.contains_key(b[0].0));
        }
        assert(a =~= b);
    } else {
        let last = a.len() - 1;
        let k = a[last].0;
        assert(table.contains_key(k));
        let i = choose|i: int| 0 <= i < b.len() && (#[trigger] b[i]).0 == k;
        let end = b.len() - 1;
        assert(table.contains_key(b[end].0));
        let j = choose|j: int| 0 <= j < a.len() && (#[trigger] a[j]).0 == b[end].0;
        assert(b[end].0 <= k) by {
            if j < last {
                assert(a[j].0 < a[last].0);
            }
        }
        if i < end {
            assert(b[i].0 < b[end].0);
        }
        assert(b[end] == a[last]);
        let rest = table.remove(k);
        lemma_listing_shrinks(a, table);
        lemma_listing_shrinks(b, table);
        lemma_listing_unique(a.drop_last(), b.drop_last(), rest);
        assert(a =~= a.drop_last().push(a[last]));
        assert(b =~= b.drop_last().push(b[end]));
    }
}

/// A listing without its last row lists the table without that row.
proof fn lemma_listing_shrinks(a: Seq<(u64, Seq<char>)>, table: Rows)
    requires
        lists_table(a, table),
        a.len() > 0,
    ensures
        lists_table(a.drop_last(), table.remove(a.last().0)),
{
    let k = a.last().0;
    let rest = table.remove(k);
    let b = a.drop_last();
    assert forall|i: int| 0 <= i < b.len() implies rest.contains_key((#[trigger] b[i]).0) && rest[b[i].0] == b[i].1 by {
        assert(a[i].0 < a[a.len() - 1].0);
        assert(table.contains_key(a[i].0));
    }
    assert forall|m: u64| #[trigger] rest.contains_key(m) implies exists|i: int|
        0 <= i < b.len() && (#[trigger] b[i]).0 == m by {
        assert(table.contains_key(m));
        let i = choose|i: int| 0 <= i < a.len() && (#[trigger] a[i]).0 == m;
        assert(b[i].0 == m);
    }
}

// --- Transactions ----------------------------------------------------------------------------

/// The names of the tables are not empty, and no two are the same.
proof fn lemma_table_names()
    ensures
        SAVED_TABLE@.len() > 0,
        SCALARS_TABLE@.len() > 0,
        SAVED_TABLE@ != SCALARS_TABLE@,
        SAVED_TABLE@ != TEMPOS_TABLE@,
{
    reveal_strlit("saved_tracks");
    reveal_strlit("kv");
    reveal_strlit("bpm");
}

/// Write the rows into the transaction's table of liked songs, one after the other, up to the first
/// that fails. Without rows there is nothing that can fail, and the transaction stays as it is.
fn insert_rows(txn: &mut redb::WriteTransaction, rows: &Vec<(u64, String)>) -> (r: Result<(), redb::Error>)
    ensures
        txn_base(*final(txn)) == txn_base(*old(txn)),
        rows@.len() == 0 ==> r is Ok && *final(txn) == *old(txn),
        r is Ok ==> rows_in(txn_rows(*final(txn)), SAVED_TABLE@) == with_rows(
            rows_in(txn_rows(*old(txn)), SAVED_TABLE@),
            rows_of(rows@),
        ),
        r is Ok ==> txn_entries(*final(txn)) == txn_entries(*old(txn)),
        r is Ok ==> txn_numbers(*final(txn)) == txn_numbers(*old(txn)),
{
    let ghost all = rows_of(rows@);
    proof {
        lemma_table_names();
    }
    assert(all.take(0) =~= Seq::empty());
    let mut i: usize = 0;
    while i < rows.len()
        invariant
            i <= rows@.len(),
            all == rows_of(rows@),
            SAVED_TABLE@.len() > 0,
            i == 0 ==> *txn == *old(txn),
            txn_base(*txn) == txn_base(*old(txn)),
            rows_in(txn_rows(*txn), SAVED_TABLE@) == with_rows(
                rows_in(txn_rows(*old(txn)), SAVED_TABLE@),
                all.take(i as int),
            ),
            txn_entries(*txn) == txn_entries(*old(txn)),
            txn_numbers(*txn) == txn_numbers(*old(txn)),
        decreases rows.len() - i,
    {
        let row = &rows[i];
        match db::insert_row(txn, SAVED_TABLE, row.0, row.1.as_str()) {
            Ok(_) => {},
            Err(e) => {
                return Err(e);
            },
        }
        assert(all.take(i + 1).drop_last() =~= all.take(i as int));
        assert(all.take(i + 1).last() == (row.0, row.1@));
        i += 1;
    }
    assert(all.take(i as int) =~= all);
    Ok(())
}

/// Commit a transaction whose steps succeeded, give up one of which a step failed.
fn conclude(
    database: &mut redb::Database,
    txn: redb::WriteTransaction,
    steps: Result<(), redb::Error>,
) -> (r: Result<(), StoreError>)
    requires
        txn_base(txn) == *old(database),
    ensures
        !db_writing(*final(database)),
        db_path(*final(database)) == db_path(*old(database)),
        match steps {
            Ok(_) => match r {
                Ok(_) => holds_what(*final(database), txn),
                Err(StoreError::Unchanged(_)) => false,
                Err(StoreError::Unknown(_)) => {
                    ||| same_tables(*final(database), *old(database))
                    ||| holds_what(*final(database), txn)
                },
            },
            Err(e) => {
                &&& r == Err::<(), StoreError>(StoreError::Unchanged(e))
                &&& same_tables(*final(database), *old(database))
            },
        },
{
    match steps {
        Ok(_) => match db::commit(txn, database) {
            Ok(_) => Ok(()),
            Err(e) => Err(StoreError::Unknown(e)),
        },
        Err(step_error) => {
            db::abandon(txn, database);
            Err(StoreError::Unchanged(step_error))
        },
    }
}

impl Store {
    /// No write transaction is left open between calls.
    pub closed spec fn wf(self) -> bool {
        self.db is Some ==> !db_writing(self.db->0)
    }

    /// A store on a database that has just been opened, or a disabled one.
    fn new(db: Option<redb::Database>) -> (r: Self)
        requires
            db is Some ==> !db_writing(db->0),
        ensures
            r.wf(),
            r@ == (match db {
                Some(d) => store_on(d),
                None => blank_store(false),
            }),
    {
        Store { db }
    }

    /// Open (or create) the store at `path`. If the file is present but unreadable it is to be
    /// removed and recreated once; if that still fails the store is disabled.
    pub fn open(path: &String, is_retry: bool) -> (r: OpenStep)
        ensures
            match r {
                OpenStep::Ready(store) => {
                    &&& store.wf()
                    &&& is_retry || store@.enabled
                    &&& store@.enabled ==> store@.path == path@
                    &&& !store@.enabled ==> store@ == blank_store(false)
                },
                OpenStep::RemoveAndRetry => !is_retry,
            },
    {
        match db::create_at(path.as_str()) {
            Ok(db) => Store::opened(Some(db), is_retry),
            Err(_) => Store::opened(None, is_retry),
        }
    }

    /// Judge an attempt to open the database.
    pub fn opened(attempt: Option<redb::Database>, is_retry: bool) -> (r: OpenStep)
        requires
            attempt is Some ==> !db_writing(attempt->0),
        ensures
            match (attempt, r) {
                (Some(db), OpenStep::Ready(store)) => store.wf() && store@ == store_on(db),
                (None, OpenStep::Ready(store)) => is_retry && store.wf() && store@ == blank_store(false),
                (None, OpenStep::RemoveAndRetry) => !is_retry,
                (Some(_), OpenStep::RemoveAndRetry) => false,
            },
    {
        match attempt {
            Some(db) => OpenStep::Ready(Store::new(Some(db))),
            None => {
                if is_retry {
                    OpenStep::Ready(Store::new(None))
                } else {
                    OpenStep::RemoveAndRetry
                }
            },
        }
    }

    /// An empty store that lives in memory.
    pub fn in_memory() -> (r: Self)
        ensures
            r.wf(),
            r@ == blank_store(true),
    {
        let db = db::create_in_memory().unwrap();
        Store::new(Some(db))
    }

    /// The database, for the tempos, which this type does not read or write. Whoever holds it has the
    /// store to themselves, and has to end every write before giving it back.
    pub fn db(&mut self) -> (r: Option<&mut redb::Database>)
        ensures
            match r {
                Some(db) => {
                    &&& old(self)@ == store_on(*db)
                    &&& old(self).wf() ==> !db_writing(*db)
                    &&& final(self)@ == store_on(*final(db))
                    &&& final(self).wf() == !db_writing(*final(db))
                },
                None => !old(self)@.enabled && *final(self) == *old(self),
            },
    {
        match &mut self.db {
            Some(db) => Some(db),
            None => None,
        }
    }

    /// Give each encoded track its position, counted from `start`. A track that could not be
    /// encoded is skipped, and leaves its position out.
    pub fn rows(start: u64, tracks: &Vec<Option<String>>) -> (r: Vec<(u64, String)>)
        requires
            start + tracks@.len() <= u64::MAX,
        ensures
            rows_of(r@) == placed_rows(start, optional_texts_of(tracks@)),
    {
        let ghost texts = optional_texts_of(tracks@);
        let mut out: Vec<(u64, String)> = Vec::new();
        assert(texts.take(0) =~= Seq::empty());
        assert(rows_of(out@) =~= placed_rows(start, texts.take(0)));
        for i in 0..tracks.len()
            invariant
                start + tracks@.len() <= u64::MAX,
                texts == optional_texts_of(tracks@),
                rows_of(out@) == placed_rows(start, texts.take(i as int)),
        {
            assert(texts.take(i + 1).drop_last() =~= texts.take(i as int));
            assert(texts.take(i + 1).last() == text_of(tracks@[i as int]));
            match &tracks[i] {
                Some(json) => {
                    let ghost before = out@;
                    let position: u64 = start + i as u64;
                    out.push((position, json.clone()));
                    assert(rows_of(out@) =~= rows_of(before).push((position, json@)));
                },
                None => {},
            }
        }
        assert(texts.take(texts.len() as int) =~= texts);
        out
    }

    /// The rows of the liked songs by rising position, `None` if there is no such table. Without a
    /// database there is none.
    fn read_rows(&self) -> (r: Result<Option<Vec<(u64, String)>>, redb::Error>)
        ensures
            !self@.enabled ==> r is Ok,
            match r {
                Ok(Some(rows)) => lists_table(rows_of(rows@), self@.saved),
                Ok(None) => self@.saved == no_rows(),
                Err(_) => true,
            },
    {
        let db = match &self.db {
            Some(db) => db,
            None => {
                return Ok(None);
            },
        };
        proof {
            lemma_table_names();
        }
        let txn = match db::begin_read(db) {
            Ok(txn) => txn,
            Err(e) => {
                return Err(e);
            },
        };
        match db::open_rows(&txn, SAVED_TABLE) {
            Ok(Some(opened)) => match db::list_rows(&opened) {
                Ok(rows) => Ok(Some(rows)),
                Err(e) => Err(e),
            },
            Ok(None) => Ok(None),
            Err(e) => Err(e),
        }
    }

    /// The encoded tracks in position order. Without a database there are none.
    pub fn try_load_saved_tracks(&self) -> (r: Result<Vec<String>, redb::Error>)
        ensures
            !self@.enabled ==> r is Ok,
            r matches Ok(texts) ==> texts_of(texts@) == texts_in_order(self@.saved),
    {
        let read = self.read_rows();
        proof {
            lemma_empty_listing();
            if read is Ok && read->Ok_0 is Some {
                let rows = rows_of(read->Ok_0->0@);
                lemma_listing_unique(rows, listing(self@.saved), self@.saved);
                assert(texts_in(rows) == texts_in_order(self@.saved));
            }
        }
        Store::texts_read(read)
    }

    /// The encoded tracks that a read of the rows gave, in the order of the rows. A table that does not
    /// exist has none; a read that failed gives its error.
    pub fn texts_read(read: Result<Option<Vec<(u64, String)>>, redb::Error>) -> (r: Result<Vec<String>, redb::Error>)
        ensures
            match read {
                Ok(Some(rows)) => r matches Ok(texts) && texts_of(texts@) == texts_in(rows_of(rows@)),
                Ok(None) => r matches Ok(texts) && texts_of(texts@) == Seq::<Seq<char>>::empty(),
                Err(e) => r == Err::<Vec<String>, redb::Error>(e),
            },
    {
        let mut out: Vec<String> = Vec::new();
        let rows = match read {
            Ok(Some(rows)) => rows,
            Ok(None) => {
                assert(texts_of(out@) =~= Seq::empty());
                return Ok(out);
            },
            Err(e) => {
                return Err(e);
            },
        };
        for i in 0..rows.len()
            invariant
                out@.len() == i,
                forall|j: int| 0 <= j < i ==> (#[trigger] out@[j])@ == rows@[j].1@,
        {
            out.push(rows[i].1.clone());
        }
        assert(texts_of(out@) =~= texts_in(rows_of(rows@)));
        Ok(out)
    }

    /// The encoded tracks in position order (see [`Store::try_load_saved_tracks`]), or none if the store
    /// cannot be read (see [`Store::list_read`]).
    pub fn load_saved_tracks(&self) -> (r: Vec<String>)
        ensures
            texts_of(r@) == texts_in_order(self@.saved) || r@.len() == 0,
            !self@.enabled ==> texts_of(r@) == texts_in_order(self@.saved),
    {
        Store::list_read(self.try_load_saved_tracks())
    }

    /// The list that a read of the store gave; a read that failed gives an empty one.
    pub fn list_read(read: Result<Vec<String>, redb::Error>) -> (r: Vec<String>)
        ensures
            match read {
                Ok(texts) => r == texts,
                Err(_) => r@ == Seq::<String>::empty(),
            },
    {
        match read {
            Ok(texts) => texts,
            Err(_) => Vec::new(),
        }
    }

    /// The tracks that could be decoded, in order; the others (`None`) are skipped.
    pub fn decoded(rows: Vec<Option<Track>>) -> (r: Vec<Track>)
        ensures
            tracks_of(r@) == decoded_of(rows@),
    {
        let mut out: Vec<Track> = Vec::new();
        assert(rows@.take(0) =~= Seq::empty());
        assert(tracks_of(out@) =~= decoded_of(rows@.take(0)));
        for i in 0..rows.len()
            invariant
                tracks_of(out@) == decoded_of(rows@.take(i as int)),
        {
            assert(rows@.take(i + 1).drop_last() =~= rows@.take(i as int));
            match &rows[i] {
                Some(track) => {
                    let ghost before = out@;
                    out.push(track.clone());
                    assert(tracks_of(out@) =~= tracks_of(before).push(track@));
                },
                None => {},
            }
        }
        assert(rows@.take(rows@.len() as int) =~= rows@);
        out
    }

    /// Replace the positions starting at `start` by the encoded tracks, leaving later positions
    /// alone. A track that could not be encoded (`None`) leaves its position as it was.
    pub fn replace_saved_range(&mut self, start: u64, tracks: &Vec<Option<String>>) -> (r: Result<(), StoreError>)
        requires
            old(self).wf(),
            start + tracks@.len() <= u64::MAX,
        ensures
            final(self).wf(),
            write_outcome(
                old(self)@,
                final(self)@,
                old(self)@.with_range(start, optional_texts_of(tracks@)),
                r,
            ),
    {
        let ghost texts = optional_texts_of(tracks@);
        let ghost before = self@;
        match &mut self.db {
            Some(db) => {
                let rows = Store::rows(start, tracks);
                proof {
                    lemma_table_names();
                }
                let mut txn = match db::begin_write(db) {
                    Ok(txn) => txn,
                    Err(e) => {
                        return Err(StoreError::Unchanged(e));
                    },
                };
                let steps = match db::create_rows(&mut txn, SAVED_TABLE) {
                    Ok(_) => insert_rows(&mut txn, &rows),
                    Err(e) => Err(e),
                };
                proof {
                    lemma_placed_rows(before.saved, start, texts);
                }
                conclude(db, txn, steps)
            },
            None => Ok(()),
        }
    }

    /// Rewrite the whole list from the encoded tracks in a single transaction.
    pub fn replace_all_saved(&mut self, tracks: &Vec<Option<String>>) -> (r: Result<(), StoreError>)
        requires
            old(self).wf(),
        ensures
            final(self).wf(),
            write_outcome(old(self)@, final(self)@, old(self)@.with_all(optional_texts_of(tracks@)), r),
    {
        let ghost texts = optional_texts_of(tracks@);
        assert(tracks.len() <= u64::MAX);
        match &mut self.db {
            Some(db) => {
                let rows = Store::rows(0, tracks);
                proof {
                    lemma_table_names();
                }
                let mut txn = match db::begin_write(db) {
                    Ok(txn) => txn,
                    Err(e) => {
                        return Err(StoreError::Unchanged(e));
                    },
                };
                let steps = match db::delete_table(&mut txn, SAVED_TABLE) {
                    Ok(_) => match db::create_rows(&mut txn, SAVED_TABLE) {
                        Ok(_) => insert_rows(&mut txn, &rows),
                        Err(e) => Err(e),
                    },
                    Err(e) => Err(e),
                };
                proof {
                    lemma_placed_rows(no_rows(), 0, texts);
                    assert(no_rows().union_prefer_right(placed(0, texts)) =~= placed(0, texts));
                }
                conclude(db, txn, steps)
            },
            None => Ok(()),
        }
    }

    /// Drop every position from `len` on.
    pub fn truncate_saved(&mut self, len: u64) -> (r: Result<(), StoreError>)
        requires
            old(self).wf(),
        ensures
            final(self).wf(),
            write_outcome(old(self)@, final(self)@, old(self)@.truncated(len), r),
    {
        match &mut self.db {
            Some(db) => {
                proof {
                    lemma_table_names();
                }
                let mut txn = match db::begin_write(db) {
                    Ok(txn) => txn,
                    Err(e) => {
                        return Err(StoreError::Unchanged(e));
                    },
                };
                let steps = db::retain_rows_before(&mut txn, SAVED_TABLE, len);
                conclude(db, txn, steps)
            },
            None => Ok(()),
        }
    }

    /// Make the change of the list that [`crate::liked_songs`] asks for. `page` holds the encoded tracks
    /// of the page that came in last, `list` those of the whole list. The number of liked songs is left
    /// to [`Store::set_saved_total`].
    pub fn persist_list(
        &mut self,
        change: &Persistence,
        page: &Vec<Option<String>>,
        list: &Vec<Option<String>>,
    ) -> (r: Result<(), StoreError>)
        requires
            old(self).wf(),
            change.write matches ListWrite::Page { start } ==> start + page@.len() <= u64::MAX,
        ensures
            final(self).wf(),
            write_outcome(
                old(self)@,
                final(self)@,
                old(self)@.listed(change.write, optional_texts_of(page@), optional_texts_of(list@)),
                r,
            ),
    {
        match change.write {
            ListWrite::Page { start } => self.replace_saved_range(start as u64, page),
            ListWrite::All => self.replace_all_saved(list),
            ListWrite::Truncate { len } => self.truncate_saved(len as u64),
        }
    }

    /// Set a named scalar.
    fn try_set_kv(&mut self, key: &str, value: &str) -> (r: Result<(), StoreError>)
        requires
            old(self).wf(),
        ensures
            final(self).wf(),
            write_outcome(old(self)@, final(self)@, old(self)@.with_scalar(key@, value@), r),
    {
        match &mut self.db {
            Some(db) => {
                proof {
                    lemma_table_names();
                }
                let mut txn = match db::begin_write(db) {
                    Ok(txn) => txn,
                    Err(e) => {
                        return Err(StoreError::Unchanged(e));
                    },
                };
                let steps = db::insert_entry(&mut txn, SCALARS_TABLE, key, value);
                conclude(db, txn, steps)
            },
            None => Ok(()),
        }
    }

    /// The stored number of liked songs, if there is one that can be read as a number.
    pub fn try_saved_total(&self) -> (r: Result<Option<usize>, redb::Error>)
        ensures
            !self@.enabled ==> r is Ok,
            r matches Ok(total) ==> total == stored_total(self@.scalars),
    {
        let db = match &self.db {
            Some(db) => db,
            None => {
                return Ok(None);
            },
        };
        let txn = match db::begin_read(db) {
            Ok(txn) => txn,
            Err(e) => {
                return Err(e);
            },
        };
        proof {
            lemma_table_names();
        }
        let table = match db::open_entries(&txn, SCALARS_TABLE) {
            Ok(Some(table)) => table,
            Ok(None) => {
                return Ok(None);
            },
            Err(e) => {
                return Err(e);
            },
        };
        match db::get_entry(&table, SAVED_TOTAL_KEY) {
            Ok(Some(raw)) => Ok(parse_decimal(&raw)),
            Ok(None) => Ok(None),
            Err(e) => Err(e),
        }
    }

    /// The stored number of liked songs (see [`Store::try_saved_total`]), or `None` also if the store
    /// cannot be read (see [`Store::total_read`]).
    pub fn saved_total(&self) -> (r: Option<usize>)
        ensures
            r == stored_total(self@.scalars) || r is None,
            !self@.enabled ==> r == stored_total(self@.scalars),
    {
        Store::total_read(self.try_saved_total())
    }

    /// The number that a read of the store gave; a read that failed gives none.
    pub fn total_read(read: Result<Option<usize>, redb::Error>) -> (r: Option<usize>)
        ensures
            r == (match read {
                Ok(total) => total,
                Err(_) => None,
            }),
    {
        match read {
            Ok(total) => total,
            Err(_) => None,
        }
    }

    /// Store the number of liked songs.
    pub fn set_saved_total(&mut self, total: usize) -> (r: Result<(), StoreError>)
        requires
            old(self).wf(),
        ensures
            final(self).wf(),
            write_outcome(
                old(self)@,
                final(self)@,
                old(self)@.with_scalar(SAVED_TOTAL_KEY@, decimal(total as nat)),
                r,
            ),
    {
        let text = decimal_text(total);
        self.try_set_kv(SAVED_TOTAL_KEY, text.as_str())
    }
}

// --- Laws ------------------------------------------------------------------------------------

/// The table that holds a list of texts, one per position from 0 on.
pub open spec fn table_of(list: Seq<Seq<char>>) -> Rows {
    Map::new(|p: u64| p < list.len(), |p: u64| list[p as int])
}

/// All of the texts, none absent.
pub open spec fn present(texts: Seq<Seq<char>>) -> Seq<Option<Seq<char>>> {
    texts.map_values(|t: Seq<char>| Some(t))
}

/// `list` with the rows from `start` on replaced by `texts`, which may reach past its end.
pub open spec fn overwritten(list: Seq<Seq<char>>, start: nat, texts: Seq<Seq<char>>) -> Seq<Seq<char>>
    recommends
        start <= list.len(),
{
    if start + texts.len() >= list.len() {
        list.take(start as int) + texts
    } else {
        list.take(start as int) + texts + list.skip((start + texts.len()) as int)
    }
}

/// An empty table has an empty listing.
proof fn lemma_empty_listing()
    ensures
        texts_in_order(no_rows()) == Seq::<Seq<char>>::empty(),
{
    let none: Seq<(u64, Seq<char>)> = Seq::empty();
    assert(lists_table(none, no_rows()));
    lemma_listing_unique(none, listing(no_rows()), no_rows());
    assert(texts_in_order(no_rows()) =~= Seq::empty());
}

/// Loading gives back the list that was stored, in its order.
pub proof fn law_load_gives_back_the_list(list: Seq<Seq<char>>)
    requires
        list.len() <= u64::MAX,
    ensures
        texts_in_order(table_of(list)) == list,
{
    let rows = Seq::new(list.len(), |i: int| (i as u64, list[i]));
    let table = table_of(list);
    assert forall|k: u64| #[trigger] table.contains_key(k) implies exists|i: int|
        0 <= i < rows.len() && (#[trigger] rows[i]).0 == k by {
        assert(rows[k as int].0 == k);
    }
    assert(lists_table(rows, table));
    lemma_listing_unique(rows, listing(table), table);
    assert(texts_in_order(table) =~= list);
}

/// What is loaded after the whole list was rewritten is that list, and the number of liked songs and
/// the tempos are as before.
pub proof fn law_rewrite_then_load(before: StoreView, list: Seq<Seq<char>>)
    requires
        before.enabled,
        list.len() <= u64::MAX,
    ensures
        texts_in_order(before.with_all(present(list)).saved) == list,
        stored_total(before.with_all(present(list)).scalars) == stored_total(before.scalars),
        before.with_all(present(list)).tempos == before.tempos,
{
    assert(before.with_all(present(list)).saved =~= table_of(list));
    law_load_gives_back_the_list(list);
}

/// Rewriting the whole list is all or nothing: one that succeeds leaves the new list, one that fails
/// before the commit leaves the old list, and one whose commit fails leaves either. The number of liked
/// songs and the tempos are as before in any case.
pub proof fn law_rewrite_is_all_or_nothing(
    before: StoreView,
    after: StoreView,
    list: Seq<Seq<char>>,
    r: Result<(), StoreError>,
)
    requires
        before.enabled,
        list.len() <= u64::MAX,
        write_outcome(before, after, before.with_all(present(list)), r),
    ensures
        r is Ok ==> texts_in_order(after.saved) == list,
        r is Err ==> after.saved == before.saved || texts_in_order(after.saved) == list,
        r is Err && r->Err_0 is Unchanged ==> after == before,
        stored_total(after.scalars) == stored_total(before.scalars),
        after.tempos == before.tempos,
{
    law_rewrite_then_load(before, list);
}

/// Replacing a range of a stored list and loading gives the list with that range replaced.
pub proof fn law_replace_then_load(before: StoreView, list: Seq<Seq<char>>, start: u64, texts: Seq<Seq<char>>)
    requires
        before.enabled,
        before.saved == table_of(list),
        start <= list.len() <= u64::MAX,
        start + texts.len() <= u64::MAX,
    ensures
        before.with_range(start, present(texts)).saved == table_of(overwritten(list, start as nat, texts)),
        texts_in_order(before.with_range(start, present(texts)).saved) == overwritten(list, start as nat, texts),
{
    let after = overwritten(list, start as nat, texts);
    assert(before.with_range(start, present(texts)).saved =~= table_of(after));
    law_load_gives_back_the_list(after);
}

/// Truncating a stored list and loading gives the start of the list.
pub proof fn law_truncate_then_load(before: StoreView, list: Seq<Seq<char>>, len: u64)
    requires
        before.enabled,
        before.saved == table_of(list),
        list.len() <= u64::MAX,
    ensures
        texts_in_order(before.truncated(len).saved) == list.take(
            if len <= list.len() {
                len as int
            } else {
                list.len() as int
            },
        ),
{
    let after = list.take(
        if len <= list.len() {
            len as int
        } else {
            list.len() as int
        },
    );
    assert(before.truncated(len).saved =~= table_of(after));
    law_load_gives_back_the_list(after);
}

/// The number of liked songs that is read is the one that was set last, whatever is done to the
/// list in between.
pub proof fn law_total_round_trip(
    before: StoreView,
    total: usize,
    start: u64,
    texts: Seq<Option<Seq<char>>>,
    len: u64,
)
    requires
        before.enabled,
    ensures
        ({
            let after = before.with_scalar(SAVED_TOTAL_KEY@, decimal(total as nat));
            &&& stored_total(after.scalars) == Some(total)
            &&& stored_total(after.with_range(start, texts).scalars) == Some(total)
            &&& stored_total(after.with_all(texts).scalars) == Some(total)
            &&& stored_total(after.truncated(len).scalars) == Some(total)
            &&& after.saved == before.saved
        }),
{
    law_decimal_round_trip(total);
}

/// A write of the list changes nothing but the list, and setting a scalar nothing but the scalars.
pub proof fn law_writes_leave_the_rest_alone(
    before: StoreView,
    start: u64,
    texts: Seq<Option<Seq<char>>>,
    len: u64,
    key: Seq<char>,
    value: Seq<char>,
)
    ensures
        before.with_range(start, texts) == (StoreView { saved: before.with_range(start, texts).saved, ..before }),
        before.with_all(texts) == (StoreView { saved: before.with_all(texts).saved, ..before }),
        before.truncated(len) == (StoreView { saved: before.truncated(len).saved, ..before }),
        before.with_scalar(key, value) == (StoreView { scalars: before.with_scalar(key, value).scalars, ..before }),
{
}

/// A store that could not be opened stays empty through every write.
pub proof fn law_disabled_store_is_inert(
    store: StoreView,
    start: u64,
    texts: Seq<Option<Seq<char>>>,
    len: u64,
    key: Seq<char>,
    value: Seq<char>,
)
    requires
        !store.enabled,
    ensures
        store.with_range(start, texts) == store,
        store.with_all(texts) == store,
        store.truncated(len) == store,
        store.with_scalar(key, value) == store,
{
}

/// The names under which the list, the scalars, the tempos and the number of liked songs are kept.
pub proof fn law_names_in_the_database(scalars: Entries, other: Seq<char>, value: Seq<char>)
    requires
        other != "saved_total"@,
    ensures
        SAVED_TABLE@ == "saved_tracks"@,
        SCALARS_TABLE@ == "kv"@,
        TEMPOS_TABLE@ == "bpm"@,
        stored_total(scalars.insert(other, value)) == stored_total(scalars),
        !scalars.contains_key("saved_total"@) ==> stored_total(scalars) is None,
        stored_total(scalars.insert("saved_total"@, value)) == parsed(value),
{
}

/// What is held at each position after a write of a range: the new text where there is one for the position,
/// and else what was there. Positions outside the range keep what they have.
pub proof fn law_range_position_by_position(
    before: StoreView,
    start: u64,
    texts: Seq<Option<Seq<char>>>,
    position: u64,
)
    requires
        before.enabled,
        start + texts.len() <= u64::MAX,
    ensures
        ({
            let after = before.with_range(start, texts).saved;
            if start <= position < start + texts.len() && texts[position - start] is Some {
                after.contains_pair(position, texts[position - start]->0)
            } else {
                &&& after.contains_key(position) == before.saved.contains_key(position)
                &&& after.contains_key(position) ==> after[position] == before.saved[position]
            }
        }),
{
}

/// What is held at each position after the whole list has been written: its text, if it has one, and nothing
/// else.
pub proof fn law_rewrite_position_by_position(before: StoreView, texts: Seq<Option<Seq<char>>>, position: u64)
    requires
        before.enabled,
    ensures
        ({
            let after = before.with_all(texts).saved;
            &&& after.contains_key(position) <==> position < texts.len() && texts[position as int] is Some
            &&& after.contains_key(position) ==> after[position] == texts[position as int]->0
        }),
{
}

/// What is held at each position after the list has been cut: what was there before the cut, nothing from it on.
pub proof fn law_cut_position_by_position(before: StoreView, len: u64, position: u64)
    requires
        before.enabled,
    ensures
        ({
            let after = before.truncated(len).saved;
            &&& after.contains_key(position) <==> position < len && before.saved.contains_key(position)
            &&& after.contains_key(position) ==> after[position] == before.saved[position]
        }),
{
}

/// The rows of a range are those of the texts that are there, each at its place counted from the start, by
/// rising position.
pub proof fn law_rows_have_their_positions(start: u64, texts: Seq<Option<Seq<char>>>)
    requires
        start + texts.len() <= u64::MAX,
    ensures
        ({
            let rows = placed_rows(start, texts);
            &&& forall|a: int, b: int| 0 <= a < b < rows.len() ==> (#[trigger] rows[a]).0 < (#[trigger] rows[b]).0
            &&& forall|a: int|
                0 <= a < rows.len() ==> start <= (#[trigger] rows[a]).0 < start + texts.len() && texts[rows[a].0 - start]
                    == Some(rows[a].1)
            &&& forall|i: int|
                0 <= i < texts.len() && #[trigger] texts[i] is Some ==> rows.contains(
                    ((start + i) as u64, texts[i]->0),
                )
        }),
    decreases texts.len(),
{
    let rows = placed_rows(start, texts);
    if texts.len() > 0 {
        let head = texts.drop_last();
        let before = placed_rows(start, head);
        law_rows_have_their_positions(start, head);
        assert forall|a: int| 0 <= a < rows.len() implies start <= (#[trigger] rows[a]).0 < start + texts.len()
            && texts[rows[a].0 - start] == Some(rows[a].1) by {
            if a < before.len() {
                assert(before[a] == rows[a]);
                assert(head[before[a].0 - start] == texts[before[a].0 - start]);
            }
        }
        assert forall|a: int, b: int| 0 <= a < b < rows.len() implies (#[trigger] rows[a]).0 < (#[trigger] rows[b]).0 by {
            assert(before[a] == rows[a]);
            if b < before.len() {
                assert(before[b] == rows[b]);
            } else {
                assert(before[a].0 < start + head.len());
            }
        }
        assert forall|i: int| 0 <= i < texts.len() && #[trigger] texts[i] is Some implies rows.contains(
            ((start + i) as u64, texts[i]->0),
        ) by {
            if i < head.len() {
                assert(head[i] == texts[i]);
                let row = ((start + i) as u64, texts[i]->0);
                assert(before.contains(row));
                let a = choose|a: int| 0 <= a < before.len() && before[a] == row;
                assert(rows[a] == row);
            } else {
                assert(rows[before.len() as int] == ((start + i) as u64, texts[i]->0));
            }
        }
    }
}

/// A stored list is loaded by rising position, gaps or not: rows that are exactly the table's, each position
/// above the one before, are loaded in that order.
pub proof fn law_rows_are_loaded_by_position(table: Rows, rows: Seq<(u64, Seq<char>)>)
    requires
        forall|a: int, b: int| 0 <= a < b < rows.len() ==> (#[trigger] rows[a]).0 < (#[trigger] rows[b]).0,
        forall|a: int| 0 <= a < rows.len() ==> table.contains_pair((#[trigger] rows[a]).0, rows[a].1),
        forall|position: u64| #[trigger]
            table.contains_key(position) ==> exists|a: int| 0 <= a < rows.len() && (#[trigger] rows[a]).0 == position,
    ensures
        texts_in_order(table).len() == rows.len(),
        forall|a: int| 0 <= a < rows.len() ==> texts_in_order(table)[a] == (#[trigger] rows[a]).1,
{
    assert forall|i: int| 0 <= i < rows.len() implies table.contains_key((#[trigger] rows[i]).0) && table[rows[i].0]
        == rows[i].1 by {
        assert(table.contains_pair(rows[i].0, rows[i].1));
    }
    assert(lists_table(rows, table));
    lemma_listing_unique(rows, listing(table), table);
}

/// Decoding goes row by row: a row that can be decoded gives its track, one that cannot gives nothing, and what
/// two lists of rows give stands one behind the other.
pub proof fn law_decoding_goes_row_by_row(a: Seq<Option<Track>>, b: Seq<Option<Track>>, track: Track)
    ensures
        decoded_of(Seq::empty()) == Seq::<TrackView>::empty(),
        decoded_of(seq![Some(track)]) == seq![track@],
        decoded_of(seq![None]) == Seq::<TrackView>::empty(),
        decoded_of(a + b) == decoded_of(a) + decoded_of(b),
    decreases b.len(),
{
    let one: Seq<Option<Track>> = seq![Some(track)];
    let nothing: Seq<Option<Track>> = Seq::empty();
    assert(decoded_of(nothing) == Seq::<TrackView>::empty());
    assert(one.drop_last() =~= nothing);
    assert(one.last() == Some(track));
    assert(decoded_of(one) =~= seq![track@]);
    let none: Seq<Option<Track>> = seq![None];
    assert(none.drop_last() =~= nothing);
    assert(none.last() == None::<Track>);
    if b.len() == 0 {
        assert(a + b =~= a);
        assert(decoded_of(a) + decoded_of(b) =~= decoded_of(a));
    } else {
        let all = a + b;
        law_decoding_goes_row_by_row(a, b.drop_last(), track);
        assert(all.drop_last() =~= a + b.drop_last());
        assert(all.last() == b.last());
        assert(decoded_of(all) =~= decoded_of(a) + decoded_of(b));
    }
}

/// A change of the list writes the page at its start, or the whole list, or cuts the list, as it says, and
/// nothing of what it does not ask for.
pub proof fn law_changes_are_written_as_they_say(
    before: StoreView,
    start: usize,
    len: usize,
    page: Seq<Option<Seq<char>>>,
    list: Seq<Option<Seq<char>>>,
)
    ensures
        before.listed(ListWrite::Page { start }, page, list) == before.with_range(start as u64, page),
        before.listed(ListWrite::All, page, list) == before.with_all(list),
        before.listed(ListWrite::Truncate { len }, page, list) == before.truncated(len as u64),
{
}

/// However a write ends, the store is as it was to be or as it was, in the same file; it is as it was to be if
/// the write succeeded and as it was if it failed before the commit, and without a database it succeeds.
pub proof fn law_writes_are_all_or_nothing(
    before: StoreView,
    after: StoreView,
    target: StoreView,
    r: Result<(), StoreError>,
)
    requires
        write_outcome(before, after, target, r),
    ensures
        after == target || r is Err && after == before,
        r is Ok ==> after == target,
        r is Err && r->Err_0 is Unchanged ==> after == before,
        after.path == before.path,
        after.enabled == before.enabled,
        !before.enabled ==> r is Ok,
{
}

/// A blank store holds nothing, and what is loaded from it is nothing.
pub proof fn law_blank_store_holds_nothing(enabled: bool, position: u64, key: Seq<char>)
    ensures
        blank_store(enabled).enabled == enabled,
        !blank_store(enabled).saved.contains_key(position),
        !blank_store(enabled).scalars.contains_key(key),
        !blank_store(enabled).tempos.contains_key(key),
        blank_store(enabled).path.len() == 0,
        texts_in_order(blank_store(enabled).saved).len() == 0,
        stored_total(blank_store(enabled).scalars) is None,
{
    lemma_empty_listing();
}

// --- Laws of the operations ------------------------------------------------------------------

/// What [`Store::replace_all_saved`] wrote is what [`Store::try_load_saved_tracks`] gives, in order and with nothing of
/// what was there before, and the number of liked songs is as it was; a rewrite that failed before its commit leaves
/// what was there.
pub proof fn law_rewrite_and_load(
    store: &mut Store,
    tracks: &Vec<Option<String>>,
    r: Result<(), StoreError>,
    loaded: Result<Vec<String>, redb::Error>,
    before: Result<Option<usize>, redb::Error>,
    after: Result<Option<usize>, redb::Error>,
)
    requires
        call_ensures(Store::replace_all_saved, (store, tracks), r),
        call_ensures(Store::try_load_saved_tracks, (&*final(store),), loaded),
        call_ensures(Store::try_saved_total, (&*old(store),), before),
        call_ensures(Store::try_saved_total, (&*final(store),), after),
        old(store)@.enabled,
        tracks@.len() <= u64::MAX,
        forall|i: int| 0 <= i < tracks@.len() ==> #[trigger] tracks@[i] is Some,
    ensures
        r is Ok && loaded is Ok ==> {
            &&& loaded->Ok_0@.len() == tracks@.len()
            &&& forall|i: int| 0 <= i < tracks@.len() ==> loaded->Ok_0@[i]@ == (#[trigger] tracks@[i])->0@
        },
        before is Ok && after is Ok ==> before->Ok_0 == after->Ok_0,
        r is Err && r->Err_0 is Unchanged ==> final(store)@ == old(store)@,
        r is Err && loaded is Ok ==> final(store)@ == old(store)@ || loaded->Ok_0@.len() == tracks@.len(),
{
    let texts = optional_texts_of(tracks@);
    let list = Seq::new(tracks@.len(), |i: int| tracks@[i]->0@);
    assert forall|i: int| 0 <= i < tracks@.len() implies texts[i] == Some(list[i]) by {
        assert(tracks@[i] is Some);
    }
    assert(present(list) =~= texts);
    law_rewrite_is_all_or_nothing(old(store)@, final(store)@, list, r);
    law_writes_are_all_or_nothing(old(store)@, final(store)@, old(store)@.with_all(texts), r);
    law_rewrite_then_load(old(store)@, list);
    if loaded is Ok {
        let given = loaded->Ok_0@;
        assert(texts_of(given).len() == given.len());
        assert forall|i: int| 0 <= i < given.len() implies texts_of(given)[i] == given[i]@ by {}
        if texts_of(given) == list {
            assert forall|i: int| 0 <= i < tracks@.len() implies given[i]@ == (#[trigger] tracks@[i])->0@ by {
                assert(list[i] == tracks@[i]->0@);
                assert(texts_of(given)[i] == given[i]@);
            }
        }
    }
}

/// What [`Store::set_saved_total`] wrote is what [`Store::try_saved_total`] gives, and the list is as it was.
pub proof fn law_total_is_given_back(
    store: &mut Store,
    total: usize,
    r: Result<(), StoreError>,
    read: Result<Option<usize>, redb::Error>,
)
    requires
        call_ensures(Store::set_saved_total, (store, total), r),
        call_ensures(Store::try_saved_total, (&*final(store),), read),
        old(store)@.enabled,
    ensures
        r is Ok && read is Ok ==> read->Ok_0 == Some(total),
        final(store)@.saved == old(store)@.saved,
        final(store)@.tempos == old(store)@.tempos,
        r is Err && r->Err_0 is Unchanged ==> final(store)@ == old(store)@,
{
    law_total_round_trip(old(store)@, total, 0, Seq::empty(), 0);
    let target = old(store)@.with_scalar(SAVED_TOTAL_KEY@, decimal(total as nat));
    law_writes_are_all_or_nothing(old(store)@, final(store)@, target, r);
}

/// [`Store::replace_saved_range`] puts each text that is there at its place from the start on and leaves every other
/// position alone; [`Store::truncate_saved`] drops the positions from the length on and leaves those before it.
pub proof fn law_range_and_cut(
    store: &mut Store,
    start: u64,
    tracks: &Vec<Option<String>>,
    r: Result<(), StoreError>,
    cut: &mut Store,
    len: u64,
    s: Result<(), StoreError>,
    position: u64,
)
    requires
        call_ensures(Store::replace_saved_range, (store, start, tracks), r),
        call_ensures(Store::truncate_saved, (cut, len), s),
        old(store)@.enabled && old(cut)@.enabled,
        start + tracks@.len() <= u64::MAX,
        r is Ok && s is Ok,
    ensures
        ({
            let before = old(store)@.saved;
            let after = final(store)@.saved;
            if start <= position < start + tracks@.len() && tracks@[position - start] is Some {
                after.contains_pair(position, tracks@[position - start]->0@)
            } else {
                &&& after.contains_key(position) == before.contains_key(position)
                &&& after.contains_key(position) ==> after[position] == before[position]
            }
        }),
        final(store)@.scalars == old(store)@.scalars && final(store)@.tempos == old(store)@.tempos,
        ({
            let before = old(cut)@.saved;
            let after = final(cut)@.saved;
            &&& after.contains_key(position) <==> position < len && before.contains_key(position)
            &&& after.contains_key(position) ==> after[position] == before[position]
        }),
        final(cut)@.scalars == old(cut)@.scalars && final(cut)@.tempos == old(cut)@.tempos,
{
    let texts = optional_texts_of(tracks@);
    law_range_position_by_position(old(store)@, start, texts, position);
    law_cut_position_by_position(old(cut)@, len, position);
    law_writes_are_all_or_nothing(old(store)@, final(store)@, old(store)@.with_range(start, texts), r);
    law_writes_are_all_or_nothing(old(cut)@, final(cut)@, old(cut)@.truncated(len), s);
    assert(texts.len() == tracks@.len());
    if start <= position < start + tracks@.len() {
        assert(texts[position - start] == text_of(tracks@[position - start]));
    }
}

/// [`Store::persist_list`] writes the page, the whole list or the cut that the change asks for.
pub proof fn law_persist_list(
    store: &mut Store,
    change: &Persistence,
    page: &Vec<Option<String>>,
    list: &Vec<Option<String>>,
    r: Result<(), StoreError>,
)
    requires
        call_ensures(Store::persist_list, (store, change, page, list), r),
        r is Ok,
    ensures
        final(store)@ == (match change.write {
            ListWrite::Page { start } => old(store)@.with_range(start as u64, optional_texts_of(page@)),
            ListWrite::All => old(store)@.with_all(optional_texts_of(list@)),
            ListWrite::Truncate { len } => old(store)@.truncated(len as u64),
        }),
{
    match change.write {
        ListWrite::Page { start } => {
            law_changes_are_written_as_they_say(
                old(store)@,
                start,
                0,
                optional_texts_of(page@),
                optional_texts_of(list@),
            );
        },
        ListWrite::All => {},
        ListWrite::Truncate { len } => {
            law_changes_are_written_as_they_say(
                old(store)@,
                0,
                len,
                optional_texts_of(page@),
                optional_texts_of(list@),
            );
        },
    }
}

/// A store that could not be opened twice is disabled, one that could is the database's, and nothing but a first
/// failure asks for another attempt.
pub proof fn law_opening(attempt: Option<redb::Database>, is_retry: bool, r: OpenStep)
    requires
        call_ensures(Store::opened, (attempt, is_retry), r),
    ensures
        r is RemoveAndRetry <==> attempt is None && !is_retry,
        r matches OpenStep::Ready(store) ==> {
            &&& store.wf()
            &&& store@.enabled <==> attempt is Some
            &&& attempt matches Some(db) ==> store@ == store_on(db)
        },
{
}

/// [`Store::rows`] gives each text that is there its place from the start on, by rising position, and
/// [`Store::decoded`] gives, in order, the track of each row that could be decoded.
pub proof fn law_rows_and_decoded(
    start: u64,
    tracks: &Vec<Option<String>>,
    rows: Vec<(u64, String)>,
    read: Vec<Option<Track>>,
    decoded: Vec<Track>,
    i: int,
)
    requires
        call_ensures(Store::rows, (start, tracks), rows),
        start + tracks@.len() <= u64::MAX,
        call_ensures(Store::decoded, (read,), decoded),
    ensures
        forall|a: int, b: int|
            0 <= a < b < rows@.len() ==> rows_of(rows@)[a].0 < rows_of(rows@)[b].0,
        0 <= i < tracks@.len() && tracks@[i] is Some ==> rows_of(rows@).contains(
            ((start + i) as u64, tracks@[i]->0@),
        ),
        ({
            let there = |row: Option<Track>| row is Some;
            exists|kept: Seq<Option<Track>>|
                {
                    &&& #[trigger] picked_from(read@, there, kept)
                    &&& decoded@.len() == kept.len()
                    &&& forall|k: int| 0 <= k < kept.len() ==> (#[trigger] decoded@[k])@ == kept[k]->0@
                }
        }),
{
    let texts = optional_texts_of(tracks@);
    law_rows_have_their_positions(start, texts);
    assert(rows_of(rows@).len() == rows@.len());
    if 0 <= i < tracks@.len() {
        assert(texts[i] == text_of(tracks@[i]));
    }
    let there = |row: Option<Track>| row is Some;
    let kept = read@.filter(there);
    lemma_filter_picks(read@, there);
    lemma_decoded_picks(read@);
    assert(tracks_of(decoded@).len() == decoded@.len());
    assert forall|k: int| 0 <= k < kept.len() implies (#[trigger] decoded@[k])@ == kept[k]->0@ by {
        assert(tracks_of(decoded@)[k] == decoded@[k]@);
    }
    assert(picked_from(read@, there, kept));
}

/// Decoding gives the tracks of the rows that pass a filter for them.
proof fn lemma_decoded_picks(rows: Seq<Option<Track>>)
    ensures
        decoded_of(rows).len() == rows.filter(|row: Option<Track>| row is Some).len(),
        forall|k: int|
            0 <= k < decoded_of(rows).len() ==> #[trigger] decoded_of(rows)[k] == rows.filter(
                |row: Option<Track>| row is Some,
            )[k]->0@,
    decreases rows.len(),
{
    reveal(Seq::filter);
    if rows.len() > 0 {
        lemma_decoded_picks(rows.drop_last());
    }
}

/// A read that failed gives an empty list and no number, and one that did not gives what it read.
pub proof fn law_failed_reads_give_nothing(
    read: Result<Vec<String>, redb::Error>,
    list: Vec<String>,
    total: Result<Option<usize>, redb::Error>,
    number: Option<usize>,
)
    requires
        call_ensures(Store::list_read, (read,), list),
        call_ensures(Store::total_read, (total,), number),
    ensures
        read is Ok ==> list == read->Ok_0,
        read is Err ==> list@.len() == 0,
        total is Ok ==> number == total->Ok_0,
        total is Err ==> number is None,
{
}

/// A store in memory is enabled and holds no row and no number, and what [`Store::texts_read`] gives of rows that were
/// read are their texts, in order; without a table there are none, and a failure stays one.
pub proof fn law_read_texts(
    made: Store,
    position: u64,
    name: Seq<char>,
    read: Result<Option<Vec<(u64, String)>>, redb::Error>,
    r: Result<Vec<String>, redb::Error>,
)
    requires
        call_ensures(Store::in_memory, (), made),
        call_ensures(Store::texts_read, (read,), r),
    ensures
        made.wf() && made@.enabled,
        !made@.saved.contains_key(position) && !made@.scalars.contains_key(name),
        read is Err <==> r is Err,
        read matches Ok(Some(rows)) ==> {
            &&& r->Ok_0@.len() == rows@.len()
            &&& forall|k: int| 0 <= k < rows@.len() ==> (#[trigger] r->Ok_0@[k])@ == rows@[k].1@
        },
        read matches Ok(None) ==> r->Ok_0@.len() == 0,
{
    if let Ok(texts) = r {
        assert(texts_of(texts@).len() == texts@.len());
        if let Ok(Some(rows)) = read {
            assert forall|k: int| 0 <= k < rows@.len() implies (#[trigger] texts@[k])@ == rows@[k].1@ by {
                assert(texts_of(texts@)[k] == texts@[k]@);
                assert(texts_in(rows_of(rows@))[k] == rows@[k].1@);
            }
        }
    }
}

/// [`Store::load_saved_tracks`] gives the texts of the stored rows by rising position, or nothing if the database could
/// not be read, and [`Store::saved_total`] gives no number but the stored one; without a database both give what
/// there is.
pub proof fn law_best_effort_reads(
    store: &Store,
    rows: Seq<(u64, Seq<char>)>,
    list: Vec<String>,
    total: Option<usize>,
    n: usize,
)
    requires
        call_ensures(Store::load_saved_tracks, (store,), list),
        call_ensures(Store::saved_total, (store,), total),
        forall|a: int, b: int| 0 <= a < b < rows.len() ==> (#[trigger] rows[a]).0 < (#[trigger] rows[b]).0,
        forall|a: int| 0 <= a < rows.len() ==> store@.saved.contains_pair((#[trigger] rows[a]).0, rows[a].1),
        forall|position: u64| #[trigger]
            store@.saved.contains_key(position) ==> exists|a: int|
                0 <= a < rows.len() && (#[trigger] rows[a]).0 == position,
        store@.scalars.contains_pair("saved_total"@, decimal(n as nat)),
    ensures
        list@.len() == rows.len() || list@.len() == 0,
        list@.len() > 0 ==> forall|a: int| 0 <= a < rows.len() ==> list@[a]@ == (#[trigger] rows[a]).1,
        total == Some(n) || total is None,
        !store@.enabled ==> list@.len() == rows.len() && total == Some(n),
{
    law_rows_are_loaded_by_position(store@.saved, rows);
    law_decimal_round_trip(n);
    let texts = texts_of(list@);
    assert(texts.len() == list@.len());
    if list@.len() > 0 {
        assert forall|a: int| 0 <= a < rows.len() implies list@[a]@ == (#[trigger] rows[a]).1 by {
            assert(texts[a] == list@[a]@);
        }
    }
}

/// Whatever is written, and however that ends, the store stays well formed.
pub proof fn law_stores_stay_well_formed(
    ranged: &mut Store,
    start: u64,
    page: &Vec<Option<String>>,
    a: Result<(), StoreError>,
    rewritten: &mut Store,
    list: &Vec<Option<String>>,
    b: Result<(), StoreError>,
    cut: &mut Store,
    len: u64,
    c: Result<(), StoreError>,
    counted: &mut Store,
    total: usize,
    d: Result<(), StoreError>,
    persisted: &mut Store,
    change: &Persistence,
    e: Result<(), StoreError>,
)
    requires
        call_ensures(Store::replace_saved_range, (ranged, start, page), a),
        call_ensures(Store::replace_all_saved, (rewritten, list), b),
        call_ensures(Store::truncate_saved, (cut, len), c),
        call_ensures(Store::set_saved_total, (counted, total), d),
        call_ensures(Store::persist_list, (persisted, change, page, list), e),
    ensures
        final(ranged).wf() && final(rewritten).wf() && final(cut).wf() && final(counted).wf() && final(persisted).wf(),
{
}

} // verus!
