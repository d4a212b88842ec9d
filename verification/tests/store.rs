use std::sync::atomic::{AtomicBool, Ordering};
use std::sync::Arc;

use redb::backends::InMemoryBackend;
use redb::{ReadableTable, StorageBackend};
use serde_json::Value;
use spotclean::liked_songs::{LikedSongs, ListWrite, Persistence, WalkStep};
use spotclean::model::Track;
use spotclean::store::{OpenStep, Store, StoreError, SAVED_TABLE, SCALARS_TABLE, TEMPOS_TABLE};

fn track(id: &str) -> Track {
    Track {
        id: Some(id.to_string()),
        uri: format!("spotify:track:{id}"),
        title: id.to_string(),
        track_number: 0,
        disc_number: 0,
        duration: 0,
        artists: vec![],
        artist_ids: vec![],
        album: None,
        album_id: None,
        album_artists: vec![],
        cover_url: None,
        url: String::new(),
        added_at: None,
        list_index: 0,
        is_local: false,
        is_playable: Some(true),
    }
}

fn text_value(text: &Option<String>) -> Value {
    match text {
        Some(s) => Value::String(s.clone()),
        None => Value::Null,
    }
}

fn encode(track: &Track) -> Option<String> {
    let mut fields = serde_json::Map::new();
    fields.insert("id".to_string(), text_value(&track.id));
    fields.insert("uri".to_string(), Value::String(track.uri.clone()));
    fields.insert("title".to_string(), Value::String(track.title.clone()));
    fields.insert(
        "is_playable".to_string(),
        match track.is_playable {
            Some(b) => Value::Bool(b),
            None => Value::Null,
        },
    );
    serde_json::to_string(&Value::Object(fields)).ok()
}

fn decode(json: &str) -> Option<Track> {
    let value: Value = serde_json::from_str(json).ok()?;
    let id = value.get("id")?.as_str()?;
    let mut decoded = track(id);
    decoded.title = value.get("title")?.as_str()?.to_string();
    Some(decoded)
}

fn encode_all(tracks: &[Track]) -> Vec<Option<String>> {
    tracks.iter().map(encode).collect()
}

fn load(store: &Store) -> Vec<Track> {
    let rows: Vec<Option<Track>> = store.load_saved_tracks().iter().map(|json| decode(json)).collect();
    Store::decoded(rows)
}

fn ids(tracks: &[Track]) -> Vec<String> {
    tracks.iter().filter_map(|t| t.id.clone()).collect()
}

#[test]
fn saved_tracks_round_trip_and_truncate() {
    let mut store = Store::in_memory();
    let tracks: Vec<Track> = ["a", "b", "c", "d"].iter().map(|id| track(id)).collect();
    assert!(store.replace_saved_range(0, &encode_all(&tracks)).is_ok());
    assert!(store.set_saved_total(4).is_ok());

    assert_eq!(ids(&load(&store)), vec!["a", "b", "c", "d"]);
    assert_eq!(store.saved_total(), Some(4));

    // Replace just the middle two, then drop the tail.
    assert!(store
        .replace_saved_range(1, &encode_all(&[track("x"), track("y")]))
        .is_ok());
    assert!(store.truncate_saved(3).is_ok());
    assert_eq!(ids(&load(&store)), vec!["a", "x", "y"]);
}

#[test]
fn a_fresh_store_is_empty() {
    let mut store = Store::in_memory();
    assert!(store.load_saved_tracks().is_empty());
    assert_eq!(store.saved_total(), None);
    assert!(store.db().is_some());
}

#[test]
fn rewriting_the_list_leaves_nothing_of_the_old_one() {
    let mut store = Store::in_memory();
    let long: Vec<Option<String>> = (0..20).map(|i| Some(format!("old{i}"))).collect();
    assert!(store.replace_all_saved(&long).is_ok());
    assert_eq!(store.load_saved_tracks().len(), 20);
    let short = vec![Some("new0".to_string()), Some("new1".to_string())];
    assert!(store.replace_all_saved(&short).is_ok());
    assert_eq!(store.load_saved_tracks(), vec!["new0", "new1"]);
}

#[test]
fn rows_come_back_by_position_past_ten() {
    let mut store = Store::in_memory();
    for i in (0..12u64).rev() {
        assert!(store.replace_saved_range(i, &vec![Some(format!("t{i}"))]).is_ok());
    }
    let expected: Vec<String> = (0..12).map(|i| format!("t{i}")).collect();
    assert_eq!(store.load_saved_tracks(), expected);
}

#[test]
fn a_track_that_cannot_be_encoded_is_skipped() {
    let rows = Store::rows(5, &vec![Some("a".to_string()), None, Some("c".to_string())]);
    assert_eq!(rows, vec![(5, "a".to_string()), (7, "c".to_string())]);

    let mut store = Store::in_memory();
    assert!(store
        .replace_saved_range(0, &vec![Some("a".to_string()), Some("b".to_string())])
        .is_ok());
    assert!(store.replace_saved_range(0, &vec![None, Some("z".to_string())]).is_ok());
    assert_eq!(store.load_saved_tracks(), vec!["a", "z"]);
}

#[test]
fn a_row_that_cannot_be_decoded_is_skipped() {
    let tracks = Store::decoded(vec![Some(track("a")), None, Some(track("c"))]);
    assert_eq!(ids(&tracks), vec!["a", "c"]);
}

#[test]
fn the_total_survives_changes_of_the_list() {
    let mut store = Store::in_memory();
    assert!(store.set_saved_total(0).is_ok());
    assert_eq!(store.saved_total(), Some(0));
    assert!(store.set_saved_total(1_234_567).is_ok());
    assert!(store.replace_all_saved(&vec![Some("a".to_string())]).is_ok());
    assert!(store.truncate_saved(0).is_ok());
    assert_eq!(store.saved_total(), Some(1_234_567));
    assert!(store.load_saved_tracks().is_empty());
}

#[test]
fn truncating_an_empty_store_is_fine() {
    let mut store = Store::in_memory();
    assert!(store.truncate_saved(3).is_ok());
    assert!(store.load_saved_tracks().is_empty());
}

#[test]
fn a_store_that_fails_to_open_twice_is_disabled() {
    assert!(matches!(Store::opened(None, false), OpenStep::RemoveAndRetry));
    let mut store = match Store::opened(None, true) {
        OpenStep::Ready(store) => store,
        OpenStep::RemoveAndRetry => panic!("no third attempt"),
    };
    assert!(store.db().is_none());
    assert!(store.replace_saved_range(0, &vec![Some("a".to_string())]).is_ok());
    assert!(store.replace_all_saved(&vec![Some("a".to_string())]).is_ok());
    assert!(store.truncate_saved(0).is_ok());
    assert!(store.set_saved_total(7).is_ok());
    assert!(store.load_saved_tracks().is_empty());
    assert_eq!(store.saved_total(), None);
}

#[test]
fn a_path_that_cannot_be_opened_asks_for_a_retry() {
    let path = "/nonexistent-directory/for/sure/store.redb".to_string();
    assert!(matches!(Store::open(&path, false), OpenStep::RemoveAndRetry));
    match Store::open(&path, true) {
        OpenStep::Ready(mut store) => assert!(store.db().is_none()),
        OpenStep::RemoveAndRetry => panic!("no third attempt"),
    }
}

#[test]
fn a_scalar_that_is_no_number_counts_as_absent() {
    let mut store = Store::in_memory();
    {
        let db = store.db().unwrap();
        let txn = db.begin_write().unwrap();
        {
            let mut table = txn
                .open_table(redb::TableDefinition::<&str, &str>::new(SCALARS_TABLE))
                .unwrap();
            table.insert("saved_total", "many").unwrap();
        }
        txn.commit().unwrap();
    }
    assert_eq!(store.saved_total(), None);
}

#[test]
fn a_table_of_another_type_makes_writes_fail_and_change_nothing() {
    let mut store = Store::in_memory();
    {
        let db = store.db().unwrap();
        let txn = db.begin_write().unwrap();
        {
            let mut table = txn
                .open_table(redb::TableDefinition::<&str, &str>::new(SAVED_TABLE))
                .unwrap();
            table.insert("a", "b").unwrap();
        }
        txn.commit().unwrap();
    }
    assert!(matches!(store.truncate_saved(0), Err(StoreError::Unchanged(_))));
    // Also with nothing to write the table is opened.
    assert!(matches!(
        store.replace_saved_range(0, &vec![]),
        Err(StoreError::Unchanged(_))
    ));
    assert!(matches!(
        store.replace_saved_range(0, &vec![Some("x".to_string())]),
        Err(StoreError::Unchanged(_))
    ));
    assert!(store.try_load_saved_tracks().is_err());
    assert!(store.load_saved_tracks().is_empty());
    assert!(store.set_saved_total(3).is_ok());
    assert_eq!(store.saved_total(), Some(3));
}

#[test]
fn a_store_on_disk_keeps_its_list() {
    let path = "/tmp/spotclean_store_test.redb".to_string();
    let wrote = match Store::open(&path, false) {
        OpenStep::Ready(mut store) => {
            assert!(store.db().is_some());
            assert!(store
                .replace_all_saved(&vec![Some("a".to_string()), Some("b".to_string())])
                .is_ok());
            assert!(store.set_saved_total(12).is_ok());
            true
        }
        OpenStep::RemoveAndRetry => false,
    };
    match Store::open(&path, true) {
        OpenStep::Ready(mut store) => {
            // Where no file can be made, the second attempt gives a store without one.
            assert_eq!(store.db().is_some(), wrote);
            let (list, total) = if wrote { (vec!["a", "b"], Some(12)) } else { (vec![], None) };
            assert_eq!(store.load_saved_tracks(), list);
            assert_eq!(store.saved_total(), total);
        }
        OpenStep::RemoveAndRetry => panic!("no third attempt"),
    }
}

#[test]
fn a_read_of_the_total_that_fails_gives_none() {
    assert_eq!(Store::total_read(Ok(Some(5))), Some(5));
    assert_eq!(Store::total_read(Ok(None)), None);
    assert_eq!(Store::total_read(Err(redb::Error::DatabaseAlreadyOpen)), None);
}

#[test]
fn writing_no_rows_changes_nothing() {
    let mut store = Store::in_memory();
    assert!(store.replace_all_saved(&vec![Some("a".to_string())]).is_ok());
    assert!(store.replace_saved_range(0, &vec![]).is_ok());
    assert!(store.replace_saved_range(0, &vec![None]).is_ok());
    assert_eq!(store.load_saved_tracks(), vec!["a"]);
}

#[test]
fn a_read_of_rows_becomes_a_list() {
    let rows = vec![(0, "a".to_string()), (7, "b".to_string())];
    assert_eq!(Store::texts_read(Ok(Some(rows))).unwrap(), vec!["a", "b"]);
    assert!(Store::texts_read(Ok(None)).unwrap().is_empty());
    assert!(matches!(
        Store::texts_read(Err(redb::Error::DatabaseAlreadyOpen)),
        Err(redb::Error::DatabaseAlreadyOpen)
    ));
    assert_eq!(Store::list_read(Ok(vec!["a".to_string()])), vec!["a"]);
    assert!(Store::list_read(Err(redb::Error::DatabaseAlreadyOpen)).is_empty());
}

#[test]
fn writes_of_the_list_leave_the_tempos_alone() {
    let table = redb::TableDefinition::<&str, f64>::new(TEMPOS_TABLE);
    let mut store = Store::in_memory();
    {
        let txn = store.db().unwrap().begin_write().unwrap();
        txn.open_table(table).unwrap().insert("a", 128.0).unwrap();
        txn.commit().unwrap();
    }
    assert!(store.set_saved_total(2).is_ok());
    assert!(store.replace_all_saved(&vec![Some("x".to_string())]).is_ok());
    assert!(store.truncate_saved(0).is_ok());
    assert_eq!(store.saved_total(), Some(2));
    let txn = store.db().unwrap().begin_read().unwrap();
    let tempos = txn.open_table(table).unwrap();
    assert_eq!(tempos.get("a").unwrap().unwrap().value(), 128.0);
}

fn has_saved_table(store: &mut Store) -> bool {
    let txn = store.db().unwrap().begin_read().unwrap();
    txn.open_table(redb::TableDefinition::<u64, &str>::new(SAVED_TABLE)).is_ok()
}

#[test]
fn an_empty_write_of_the_list_creates_its_table() {
    let mut store = Store::in_memory();
    assert!(!has_saved_table(&mut store));
    assert!(store.replace_saved_range(0, &vec![]).is_ok());
    assert!(has_saved_table(&mut store));

    let mut other = Store::in_memory();
    assert!(other.replace_all_saved(&vec![]).is_ok());
    assert!(has_saved_table(&mut other));
    assert!(other.load_saved_tracks().is_empty());
    assert!(other.replace_all_saved(&vec![Some("a".to_string())]).is_ok());
    assert!(other.replace_all_saved(&vec![]).is_ok());
    assert!(has_saved_table(&mut other));
    assert!(other.load_saved_tracks().is_empty());
}

#[test]
fn a_change_of_the_list_is_stored_as_it_asks() {
    let texts = |names: &[&str]| -> Vec<Option<String>> { names.iter().map(|n| Some(n.to_string())).collect() };
    let change = |write| Persistence { write, total: None };
    let mut store = Store::in_memory();
    assert!(store
        .persist_list(&change(ListWrite::All), &texts(&["p"]), &texts(&["a", "b", "c", "d"]))
        .is_ok());
    assert_eq!(store.load_saved_tracks(), vec!["a", "b", "c", "d"]);
    assert!(store
        .persist_list(&change(ListWrite::Page { start: 1 }), &texts(&["x", "y"]), &texts(&["l"]))
        .is_ok());
    assert_eq!(store.load_saved_tracks(), vec!["a", "x", "y", "d"]);
    assert!(store
        .persist_list(&change(ListWrite::Truncate { len: 3 }), &texts(&["p"]), &texts(&["l"]))
        .is_ok());
    assert_eq!(store.load_saved_tracks(), vec!["a", "x", "y"]);
    assert_eq!(store.saved_total(), None);
}

fn names(liked: &LikedSongs) -> Vec<Option<String>> {
    liked.saved_tracks().iter().map(|t| t.id.clone()).collect()
}

fn stored(store: &Store) -> Vec<Option<String>> {
    store.load_saved_tracks().into_iter().map(Some).collect()
}

#[test]
fn the_store_follows_the_list() {
    let service: Vec<Track> = (0..120).map(|i| track(&format!("s{i}"))).collect();
    let cached: Vec<Track> = (0..250).map(|i| track(&format!("c{i}"))).collect();
    let mut store = Store::in_memory();
    let mut liked = LikedSongs::new();
    liked.load_cache(cached, Some(250));
    assert!(store.replace_all_saved(&names(&liked)).is_ok());

    let head: Vec<Track> = service[..50].to_vec();
    let change = liked.revalidate(Some((&head, 120))).unwrap();
    let page: Vec<Option<String>> = head.iter().map(|t| t.id.clone()).collect();
    assert!(store.persist_list(&change, &page, &vec![]).is_ok());
    assert_eq!(stored(&store), names(&liked));

    let mut walk = liked.ensure_through(0).unwrap();
    loop {
        match liked.next_step(&mut walk) {
            WalkStep::Fetch { offset } => {
                let from = offset as usize;
                let items: Vec<Track> = service[from..(from + 50).min(120)].to_vec();
                let change = liked.page_arrived(&mut walk, &items, 120);
                let page: Vec<Option<String>> = items.iter().map(|t| t.id.clone()).collect();
                assert!(store.persist_list(&change, &page, &vec![]).is_ok());
            }
            WalkStep::Truncate { len } => {
                let change = Persistence { write: ListWrite::Truncate { len }, total: None };
                assert!(store.persist_list(&change, &vec![], &vec![]).is_ok());
                break;
            }
            WalkStep::Stop => break,
        }
        assert_eq!(stored(&store), names(&liked));
    }
    let expected: Vec<Option<String>> = service.iter().map(|t| t.id.clone()).collect();
    assert_eq!(names(&liked), expected);
    assert_eq!(stored(&store), expected);

    let change = liked.apply_saved_added(&vec![track("new")]);
    assert!(store.persist_list(&change, &vec![], &names(&liked)).is_ok());
    let change = liked.apply_saved_removed(&vec![track("s3")]);
    assert!(store.persist_list(&change, &vec![], &names(&liked)).is_ok());
    assert_eq!(stored(&store), names(&liked));
    assert_eq!(stored(&store).len(), 120);
}

/// Storage that outlives the database on it and can be made to fail.
#[derive(Clone, Debug, Default)]
struct Disk {
    bytes: Arc<InMemoryBackend>,
    full: Arc<AtomicBool>,
    unsynced: Arc<AtomicBool>,
}

fn fails(flag: &AtomicBool) -> Result<(), std::io::Error> {
    if flag.load(Ordering::SeqCst) {
        Err(std::io::Error::other("the disk fails"))
    } else {
        Ok(())
    }
}

impl StorageBackend for Disk {
    fn len(&self) -> Result<u64, std::io::Error> {
        StorageBackend::len(&*self.bytes)
    }

    fn read(&self, offset: u64, len: usize) -> Result<Vec<u8>, std::io::Error> {
        StorageBackend::read(&*self.bytes, offset, len)
    }

    fn set_len(&self, len: u64) -> Result<(), std::io::Error> {
        fails(&self.full)?;
        StorageBackend::set_len(&*self.bytes, len)
    }

    fn sync_data(&self, eventual: bool) -> Result<(), std::io::Error> {
        fails(&self.unsynced)?;
        StorageBackend::sync_data(&*self.bytes, eventual)
    }

    fn write(&self, offset: u64, data: &[u8]) -> Result<(), std::io::Error> {
        StorageBackend::write(&*self.bytes, offset, data)
    }
}

fn store_on_disk(disk: &Disk) -> Store {
    let db = redb::Builder::new().create_with_backend(disk.clone()).unwrap();
    match Store::opened(Some(db), false) {
        OpenStep::Ready(store) => store,
        OpenStep::RemoveAndRetry => panic!("the database is there"),
    }
}

#[test]
fn a_rewrite_that_finds_the_disk_full_leaves_the_old_list() {
    let disk = Disk::default();
    let mut store = store_on_disk(&disk);
    let old = vec![Some("a".to_string()), Some("b".to_string())];
    assert!(store.replace_all_saved(&old).is_ok());
    assert!(store.set_saved_total(2).is_ok());

    disk.full.store(true, Ordering::SeqCst);
    let long: Vec<Option<String>> = (0..400).map(|_| Some("x".repeat(20_000))).collect();
    assert!(matches!(store.replace_all_saved(&long), Err(StoreError::Unchanged(_))));
    drop(store);

    disk.full.store(false, Ordering::SeqCst);
    let mut store = store_on_disk(&disk);
    assert_eq!(store.load_saved_tracks(), vec!["a", "b"]);
    assert_eq!(store.saved_total(), Some(2));
    assert!(store.replace_all_saved(&long).is_ok());
    assert_eq!(store.load_saved_tracks().len(), 400);
}

#[test]
fn a_rewrite_that_cannot_be_committed_is_all_or_nothing() {
    let disk = Disk::default();
    let mut store = store_on_disk(&disk);
    assert!(store.replace_all_saved(&vec![Some("a".to_string()), Some("b".to_string())]).is_ok());

    disk.unsynced.store(true, Ordering::SeqCst);
    let new = vec![Some("c".to_string())];
    assert!(matches!(store.replace_all_saved(&new), Err(StoreError::Unknown(_))));
    drop(store);

    disk.unsynced.store(false, Ordering::SeqCst);
    let list = store_on_disk(&disk).load_saved_tracks();
    assert!(list == vec!["a", "b"] || list == vec!["c"]);
}
