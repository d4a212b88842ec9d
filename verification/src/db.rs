//! The calls into `redb`, the embedded database behind [`crate::store`].
//!
//! A database is taken here as its tables by name, as far as they have one of three shapes: texts by
//! position, texts by text, and numbers by text. Each function makes one step of a transaction on the
//! table that it is given the name of, and says what the step does to all of these tables.

use vstd::prelude::*;

verus! {

/// An open database.
#[verifier::external_type_specification]
#[verifier::external_body]
pub struct ExDatabase(redb::Database);

/// A transaction that may write.
#[verifier::external_type_specification]
#[verifier::external_body]
pub struct ExWriteTransaction(redb::WriteTransaction);

/// A transaction that reads a snapshot.
#[verifier::external_type_specification]
#[verifier::external_body]
pub struct ExReadTransaction(redb::ReadTransaction);

/// Any failure of the database.
#[verifier::external_type_specification]
#[verifier::external_body]
pub struct ExError(redb::Error);

/// Texts by position.
pub type Rows = Map<u64, Seq<char>>;

/// Texts by text.
pub type Entries = Map<Seq<char>, Seq<char>>;

/// Double-precision numbers by text, each as its IEEE 754 bits.
pub type Numbers = Map<Seq<char>, u64>;

/// The path of the file that the database was opened in; no text for a database in memory.
pub uninterp spec fn db_path(db: redb::Database) -> Seq<char>;

/// The tables of texts by position, by name, as the last commit left them.
pub uninterp spec fn db_rows(db: redb::Database) -> Map<Seq<char>, Rows>;

/// The tables of texts by text, by name, as the last commit left them.
pub uninterp spec fn db_entries(db: redb::Database) -> Map<Seq<char>, Entries>;

/// The tables of numbers by text, by name, as the last commit left them.
pub uninterp spec fn db_numbers(db: redb::Database) -> Map<Seq<char>, Numbers>;

/// Whether a write transaction of the database is in progress.
pub uninterp spec fn db_writing(db: redb::Database) -> bool;

/// The tables of texts by position as a write transaction has made them.
pub uninterp spec fn txn_rows(txn: redb::WriteTransaction) -> Map<Seq<char>, Rows>;

/// The tables of texts by text as a write transaction has made them.
pub uninterp spec fn txn_entries(txn: redb::WriteTransaction) -> Map<Seq<char>, Entries>;

/// The tables of numbers by text as a write transaction has made them.
pub uninterp spec fn txn_numbers(txn: redb::WriteTransaction) -> Map<Seq<char>, Numbers>;

/// The database, as it was, that a write transaction belongs to.
pub uninterp spec fn txn_base(txn: redb::WriteTransaction) -> redb::Database;

/// The tables of texts by position that a read transaction sees.
pub uninterp spec fn snapshot_rows(txn: redb::ReadTransaction) -> Map<Seq<char>, Rows>;

/// The tables of texts by text that a read transaction sees.
pub uninterp spec fn snapshot_entries(txn: redb::ReadTransaction) -> Map<Seq<char>, Entries>;

/// The rows of an opened table of texts by position.
pub uninterp spec fn table_rows(table: RowTable) -> Rows;

/// The entries of an opened table of texts by text.
pub uninterp spec fn table_entries(table: EntryTable) -> Entries;

/// A table of texts by position, opened for reading.
#[verifier::external_body]
pub struct RowTable {
    table: redb::ReadOnlyTable<u64, &'static str>,
}

/// A table of texts by text, opened for reading.
#[verifier::external_body]
pub struct EntryTable {
    table: redb::ReadOnlyTable<&'static str, &'static str>,
}

/// Whether `rows` are the entries of the table, each once, by rising position.
pub open spec fn lists_table(rows: Seq<(u64, Seq<char>)>, table: Rows) -> bool {
    &&& forall|i: int, j: int| 0 <= i < j < rows.len() ==> (#[trigger] rows[i]).0 < (#[trigger] rows[j]).0
    &&& forall|i: int|
        0 <= i < rows.len() ==> table.contains_key((#[trigger] rows[i]).0) && table[rows[i].0] == rows[i].1
    &&& forall|k: u64| #[trigger]
        table.contains_key(k) ==> exists|i: int| 0 <= i < rows.len() && (#[trigger] rows[i]).0 == k
}

/// A table without rows.
pub open spec fn no_rows() -> Rows {
    Map::empty()
}

/// A table without entries.
pub open spec fn no_entries() -> Entries {
    Map::empty()
}

/// A table without numbers.
pub open spec fn no_numbers() -> Numbers {
    Map::empty()
}

/// The rows of the table of the name; one that does not exist has none.
pub open spec fn rows_in(tables: Map<Seq<char>, Rows>, table: Seq<char>) -> Rows {
    if tables.contains_key(table) {
        tables[table]
    } else {
        no_rows()
    }
}

/// The entries of the table of the name; one that does not exist has none.
pub open spec fn entries_in(tables: Map<Seq<char>, Entries>, table: Seq<char>) -> Entries {
    if tables.contains_key(table) {
        tables[table]
    } else {
        no_entries()
    }
}

/// The numbers of the table of the name; one that does not exist has none.
pub open spec fn numbers_in(tables: Map<Seq<char>, Numbers>, table: Seq<char>) -> Numbers {
    if tables.contains_key(table) {
        tables[table]
    } else {
        no_numbers()
    }
}

/// The tables after one has been created, if it did not exist.
pub open spec fn with_table(tables: Map<Seq<char>, Rows>, table: Seq<char>) -> Map<Seq<char>, Rows> {
    tables.insert(table, rows_in(tables, table))
}

/// The tables after a text has been put at a position of one.
pub open spec fn with_row(
    tables: Map<Seq<char>, Rows>,
    table: Seq<char>,
    position: u64,
    text: Seq<char>,
) -> Map<Seq<char>, Rows> {
    tables.insert(table, rows_in(tables, table).insert(position, text))
}

/// The tables after the rows from `len` on have been dropped from one.
pub open spec fn with_rows_before(tables: Map<Seq<char>, Rows>, table: Seq<char>, len: u64) -> Map<Seq<char>, Rows> {
    tables.insert(table, rows_in(tables, table).restrict(Set::new(|k: u64| k < len)))
}

/// The tables after a key of one has been given a value.
pub open spec fn with_entry(
    tables: Map<Seq<char>, Entries>,
    table: Seq<char>,
    key: Seq<char>,
    value: Seq<char>,
) -> Map<Seq<char>, Entries> {
    tables.insert(table, entries_in(tables, table).insert(key, value))
}

/// Whether there is no table of any of the three shapes.
pub open spec fn is_blank(db: redb::Database) -> bool {
    &&& db_rows(db) == Map::<Seq<char>, Rows>::empty()
    &&& db_entries(db) == Map::<Seq<char>, Entries>::empty()
    &&& db_numbers(db) == Map::<Seq<char>, Numbers>::empty()
}

/// Whether two states of a database have the same tables.
pub open spec fn same_tables(a: redb::Database, b: redb::Database) -> bool {
    &&& db_rows(a) == db_rows(b)
    &&& db_entries(a) == db_entries(b)
    &&& db_numbers(a) == db_numbers(b)
}

/// Whether the database has the tables that the transaction has made.
pub open spec fn holds_what(db: redb::Database, txn: redb::WriteTransaction) -> bool {
    &&& db_rows(db) == txn_rows(txn)
    &&& db_entries(db) == txn_entries(txn)
    &&& db_numbers(db) == txn_numbers(txn)
}

/// The contents of a list of rows.
pub open spec fn rows_of(v: Seq<(u64, String)>) -> Seq<(u64, Seq<char>)> {
    v.map_values(|row: (u64, String)| (row.0, row.1@))
}

/// Whether a position lies before `len`.
pub(crate) fn lies_before(position: u64, len: u64) -> (r: bool)
    ensures
        r == (position < len),
{
    position < len
}

/// `redb::Database::create`: opens the database in the file at the path, or makes a new one if there
/// is no file or an empty one. On success it is the database of that path, and no transaction of it
/// is in progress. Whether it succeeds and what the database then holds rests on the disk and is not
/// stated.
#[verifier::external_body]
pub(crate) fn create_at(path: &str) -> (r: Result<redb::Database, redb::Error>)
    ensures
        r matches Ok(db) ==> !db_writing(db) && db_path(db) == path@,
{
    Ok(redb::Database::create(path)?)
}

/// `redb::Builder::create_with_backend` with `redb::backends::InMemoryBackend`: a database without
/// any table and without a file, no transaction of which is in progress. The backend fails only on a
/// place past its end, and making a database reads and writes none.
#[verifier::external_body]
pub(crate) fn create_in_memory() -> (r: Result<redb::Database, redb::Error>)
    ensures
        r is Ok,
        r matches Ok(db) ==> !db_writing(db) && is_blank(db) && db_path(db) == Seq::<char>::empty(),
{
    Ok(redb::Builder::new().create_with_backend(redb::backends::InMemoryBackend::new())?)
}

/// `redb::Database::begin_read`: on success a transaction that sees what has been committed.
#[verifier::external_body]
pub(crate) fn begin_read(db: &redb::Database) -> (r: Result<redb::ReadTransaction, redb::Error>)
    ensures
        r matches Ok(txn) ==> snapshot_rows(txn) == db_rows(*db) && snapshot_entries(txn) == db_entries(*db),
{
    Ok(db.begin_read()?)
}

/// `redb::ReadTransaction::open_table` on a table of texts by position: on success the table as the
/// transaction sees it, or `None` for one that does not exist. A table name is never empty.
#[verifier::external_body]
pub(crate) fn open_rows(txn: &redb::ReadTransaction, table: &str) -> (r: Result<Option<RowTable>, redb::Error>)
    requires
        table@.len() > 0,
    ensures
        match r {
            Ok(Some(opened)) => {
                &&& snapshot_rows(*txn).contains_key(table@)
                &&& table_rows(opened) == snapshot_rows(*txn)[table@]
            },
            Ok(None) => !snapshot_rows(*txn).contains_key(table@),
            Err(_) => true,
        },
{
    match txn.open_table(redb::TableDefinition::<u64, &'static str>::new(table)) {
        Ok(table) => Ok(Some(RowTable { table })),
        Err(redb::TableError::TableDoesNotExist(_)) => Ok(None),
        Err(e) => Err(e.into()),
    }
}

/// `redb::ReadableTable::iter` on a table of texts by position: on success every row, by rising
/// position.
#[verifier::external_body]
pub(crate) fn list_rows(table: &RowTable) -> (r: Result<Vec<(u64, String)>, redb::Error>)
    ensures
        r matches Ok(rows) ==> lists_table(rows_of(rows@), table_rows(*table)),
{
    let rows = redb::ReadableTable::iter(&table.table)?;
    rows.map(|row| row.map(|(k, v)| (k.value(), v.value().to_string())).map_err(|e| e.into())).collect()
}

/// `redb::ReadTransaction::open_table` on a table of texts by text: on success the table as the
/// transaction sees it, or `None` for one that does not exist. A table name is never empty.
#[verifier::external_body]
pub(crate) fn open_entries(txn: &redb::ReadTransaction, table: &str) -> (r: Result<Option<EntryTable>, redb::Error>)
    requires
        table@.len() > 0,
    ensures
        match r {
            Ok(Some(opened)) => {
                &&& snapshot_entries(*txn).contains_key(table@)
                &&& table_entries(opened) == snapshot_entries(*txn)[table@]
            },
            Ok(None) => !snapshot_entries(*txn).contains_key(table@),
            Err(_) => true,
        },
{
    match txn.open_table(redb::TableDefinition::<&'static str, &'static str>::new(table)) {
        Ok(table) => Ok(Some(EntryTable { table })),
        Err(redb::TableError::TableDoesNotExist(_)) => Ok(None),
        Err(e) => Err(e.into()),
    }
}

/// `redb::ReadableTable::get` on a table of texts by text: on success the value of the key, or `None`
/// for a key that is not in the table.
#[verifier::external_body]
pub(crate) fn get_entry(table: &EntryTable, key: &str) -> (r: Result<Option<String>, redb::Error>)
    ensures
        match r {
            Ok(Some(value)) => table_entries(*table).contains_key(key@) && table_entries(*table)[key@] == value@,
            Ok(None) => !table_entries(*table).contains_key(key@),
            Err(_) => true,
        },
{
    let value = redb::ReadableTable::get(&table.table, key)?;
    Ok(value.map(|v| v.value().to_string()))
}

/// `redb::Database::begin_write`: on success a transaction that starts from what has been
/// committed. It waits for another write transaction to end, so there must be none. The database
/// stays the one of its path, and its tables stay as they are.
#[verifier::external_body]
pub(crate) fn begin_write(db: &mut redb::Database) -> (r: Result<redb::WriteTransaction, redb::Error>)
    requires
        !db_writing(*old(db)),
    ensures
        db_path(*final(db)) == db_path(*old(db)),
        db_rows(*final(db)) == db_rows(*old(db)),
        db_entries(*final(db)) == db_entries(*old(db)),
        db_numbers(*final(db)) == db_numbers(*old(db)),
        match r {
            Ok(txn) => {
                &&& db_writing(*final(db))
                &&& txn_base(txn) == *final(db)
                &&& txn_rows(txn) == db_rows(*old(db))
                &&& txn_entries(txn) == db_entries(*old(db))
                &&& txn_numbers(txn) == db_numbers(*old(db))
            },
            Err(_) => !db_writing(*final(db)),
        },
{
    Ok(db.begin_write()?)
}

/// `redb::WriteTransaction::open_table` on a table of texts by position: on success there is a table
/// of that name, with the rows that it had, and nothing else has changed. A table name is never empty.
#[verifier::external_body]
pub(crate) fn create_rows(txn: &mut redb::WriteTransaction, table: &str) -> (r: Result<(), redb::Error>)
    requires
        table@.len() > 0,
    ensures
        txn_base(*final(txn)) == txn_base(*old(txn)),
        r is Ok ==> txn_rows(*final(txn)) == with_table(txn_rows(*old(txn)), table@),
        r is Ok ==> txn_entries(*final(txn)) == txn_entries(*old(txn)),
        r is Ok ==> txn_numbers(*final(txn)) == txn_numbers(*old(txn)),
{
    txn.open_table(redb::TableDefinition::<u64, &str>::new(table))?;
    Ok(())
}

/// `redb::Table::insert` into a table of texts by position, opened by
/// `redb::WriteTransaction::open_table`, which creates the table if there is none: on success the
/// position holds the text, and nothing else has changed. A table name is never empty.
#[verifier::external_body]
pub(crate) fn insert_row(txn: &mut redb::WriteTransaction, table: &str, position: u64, text: &str) -> (r: Result<
    (),
    redb::Error,
>)
    requires
        table@.len() > 0,
    ensures
        txn_base(*final(txn)) == txn_base(*old(txn)),
        r is Ok ==> txn_rows(*final(txn)) == with_row(txn_rows(*old(txn)), table@, position, text@),
        r is Ok ==> txn_entries(*final(txn)) == txn_entries(*old(txn)),
        r is Ok ==> txn_numbers(*final(txn)) == txn_numbers(*old(txn)),
{
    let mut opened = txn.open_table(redb::TableDefinition::<u64, &str>::new(table))?;
    opened.insert(position, text)?;
    Ok(())
}

/// `redb::WriteTransaction::delete_table`: on success there is no table of that name, whatever its
/// shape was, and nothing else has changed. A table name is never empty.
#[verifier::external_body]
pub(crate) fn delete_table(txn: &mut redb::WriteTransaction, table: &str) -> (r: Result<(), redb::Error>)
    requires
        table@.len() > 0,
    ensures
        txn_base(*final(txn)) == txn_base(*old(txn)),
        r is Ok ==> txn_rows(*final(txn)) == txn_rows(*old(txn)).remove(table@),
        r is Ok ==> txn_entries(*final(txn)) == txn_entries(*old(txn)).remove(table@),
        r is Ok ==> txn_numbers(*final(txn)) == txn_numbers(*old(txn)).remove(table@),
{
    txn.delete_table(redb::TableDefinition::<u64, &str>::new(table))?;
    Ok(())
}

/// `redb::Table::retain` on a table of texts by position, opened by
/// `redb::WriteTransaction::open_table`: on success the rows before `len` are left, and nothing else
/// has changed. A table name is never empty.
#[verifier::external_body]
pub(crate) fn retain_rows_before(txn: &mut redb::WriteTransaction, table: &str, len: u64) -> (r: Result<
    (),
    redb::Error,
>)
    requires
        table@.len() > 0,
    ensures
        txn_base(*final(txn)) == txn_base(*old(txn)),
        r is Ok ==> txn_rows(*final(txn)) == with_rows_before(txn_rows(*old(txn)), table@, len),
        r is Ok ==> txn_entries(*final(txn)) == txn_entries(*old(txn)),
        r is Ok ==> txn_numbers(*final(txn)) == txn_numbers(*old(txn)),
{
    let mut opened = txn.open_table(redb::TableDefinition::<u64, &str>::new(table))?;
    opened.retain(|k, _| lies_before(k, len))?;
    Ok(())
}

/// `redb::Table::insert` into a table of texts by text, opened by
/// `redb::WriteTransaction::open_table`: on success the key has the value, and nothing else has
/// changed. A table name is never empty.
#[verifier::external_body]
pub(crate) fn insert_entry(txn: &mut redb::WriteTransaction, table: &str, key: &str, value: &str) -> (r: Result<
    (),
    redb::Error,
>)
    requires
        table@.len() > 0,
    ensures
        txn_base(*final(txn)) == txn_base(*old(txn)),
        r is Ok ==> txn_rows(*final(txn)) == txn_rows(*old(txn)),
        r is Ok ==> txn_entries(*final(txn)) == with_entry(txn_entries(*old(txn)), table@, key@, value@),
        r is Ok ==> txn_numbers(*final(txn)) == txn_numbers(*old(txn)),
{
    let mut opened = txn.open_table(redb::TableDefinition::<&str, &str>::new(table))?;
    opened.insert(key, value)?;
    Ok(())
}

/// `redb::WriteTransaction::commit`: the transaction is over. On success the database holds what it
/// made; on failure the database holds either that or what it held before. Which of the two rests on
/// how far the writing to the disk got and is not stated. The database stays the one of its path.
#[verifier::external_body]
pub(crate) fn commit(txn: redb::WriteTransaction, db: &mut redb::Database) -> (r: Result<(), redb::Error>)
    requires
        txn_base(txn) == *old(db),
    ensures
        !db_writing(*final(db)),
        db_path(*final(db)) == db_path(*old(db)),
        r is Ok ==> db_rows(*final(db)) == txn_rows(txn),
        r is Ok ==> db_entries(*final(db)) == txn_entries(txn),
        r is Ok ==> db_numbers(*final(db)) == txn_numbers(txn),
        r is Err ==> same_tables(*final(db), *old(db)) || holds_what(*final(db), txn),
{
    let _ = db;
    Ok(txn.commit()?)
}

/// The `Drop` of `redb::WriteTransaction`: the transaction is over, and the database holds what it
/// held before. What the transaction did is rolled back, unless the storage has failed: then it is
/// left behind without ever being committed. The database stays the one of its path.
#[verifier::external_body]
pub(crate) fn abandon(txn: redb::WriteTransaction, db: &mut redb::Database)
    requires
        txn_base(txn) == *old(db),
    ensures
        !db_writing(*final(db)),
        db_path(*final(db)) == db_path(*old(db)),
        db_rows(*final(db)) == db_rows(*old(db)),
        db_entries(*final(db)) == db_entries(*old(db)),
        db_numbers(*final(db)) == db_numbers(*old(db)),
{
    let _ = db;
    drop(txn);
}

} // verus!
