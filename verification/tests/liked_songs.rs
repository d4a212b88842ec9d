use spotclean::liked_songs::{LikedSongs, ListWrite, WalkStep, SAVED_TRACKS_MARGIN};
use spotclean::model::Track;

fn track(id: &str) -> Track {
    Track {
        id: Some(id.to_string()),
        uri: String::new(),
        title: id.to_string(),
        track_number: 0,
        disc_number: 0,
        duration: 0,
        artists: vec![],
        artist_ids: vec![],
        album: None,
        album_id: None,
        album_artists: vec![],
        cover_url: None,
        url: String::new(),
        added_at: None,
        list_index: 0,
        is_local: false,
        is_playable: None,
    }
}

fn numbered(from: usize, to: usize) -> Vec<Track> {
    (from..to).map(|i| track(&format!("t{i}"))).collect()
}

fn ids(liked: &LikedSongs) -> Vec<String> {
    liked.saved_tracks().iter().filter_map(|t| t.id.clone()).collect()
}

#[test]
fn the_cache_seeds_the_list_unconfirmed() {
    let mut liked = LikedSongs::new();
    assert_eq!(liked.version(), 0);
    assert_eq!(liked.total(), None);
    liked.load_cache(numbered(0, 3), Some(3));
    assert_eq!(ids(&liked), vec!["t0", "t1", "t2"]);
    assert_eq!(liked.total(), Some(3));
    assert_eq!(liked.version(), 1);
    assert_eq!(liked.meta().fetched_through, 0);
    assert!(!liked.meta().fresh);
}

#[test]
fn an_unchanged_list_is_trusted_whole() {
    let mut liked = LikedSongs::new();
    liked.load_cache(numbered(0, 200), Some(200));
    let head = numbered(0, 50);
    let write = liked.revalidate(Some((&head, 200))).unwrap();
    assert!(matches!(write.write, ListWrite::Page { start: 0 }));
    assert_eq!(write.total, Some(200));
    assert!(liked.meta().fresh);
    assert_eq!(liked.meta().fetched_through, 200);
    assert!(liked.ensure_through(10_000).is_none());
    assert!(liked.ensure_through(usize::MAX).is_none());
}

#[test]
fn a_changed_list_is_confirmed_as_far_as_the_page_reaches() {
    let mut liked = LikedSongs::new();
    liked.load_cache(numbered(1, 201), Some(200));
    let head = numbered(0, 50);
    liked.revalidate(Some((&head, 201))).unwrap();
    assert!(!liked.meta().fresh);
    assert_eq!(liked.meta().fetched_through, 50);
    assert_eq!(liked.total(), Some(201));
    assert_eq!(liked.saved_tracks().len(), 200);
    assert_eq!(ids(&liked)[0], "t0");
    assert_eq!(ids(&liked)[49], "t49");
    assert_eq!(ids(&liked)[50], "t51");
}

#[test]
fn a_page_that_cannot_be_fetched_changes_nothing() {
    let mut liked = LikedSongs::new();
    liked.load_cache(numbered(0, 2), None);
    assert!(liked.revalidate(None).is_none());
    assert_eq!(liked.version(), 1);
    assert_eq!(ids(&liked), vec!["t0", "t1"]);
}

#[test]
fn a_short_list_is_replaced_by_the_first_page() {
    let mut liked = LikedSongs::new();
    liked.load_cache(numbered(10, 12), Some(2));
    let head = numbered(0, 3);
    liked.revalidate(Some((&head, 3))).unwrap();
    assert_eq!(ids(&liked), vec!["t0", "t1", "t2"]);
    assert_eq!(liked.meta().fetched_through, 3);
    assert!(!liked.meta().fresh);
}

#[test]
fn a_walk_fetches_page_after_page_and_cuts_the_tail() {
    let mut liked = LikedSongs::new();
    // The cached list is longer than what the service reports.
    liked.load_cache(numbered(100, 350), Some(250));
    let mut walk = liked.ensure_through(0).unwrap();
    let mut fetched = vec![];
    loop {
        match liked.next_step(&mut walk) {
            WalkStep::Fetch { offset } => {
                fetched.push(offset);
                let from = offset as usize;
                let items = numbered(from, (from + 50).min(120));
                let write = liked.page_arrived(&mut walk, &items, 120);
                assert!(matches!(write.write, ListWrite::Page { start } if start == from));
                assert_eq!(write.total, Some(120));
            }
            WalkStep::Truncate { len } => {
                assert_eq!(len, 120);
                break;
            }
            WalkStep::Stop => panic!("the tail has to be cut"),
        }
    }
    assert_eq!(fetched, vec![0, 50, 100]);
    assert_eq!(liked.version(), 1);
    assert!(liked.finish_walk(walk));
    assert_eq!(liked.version(), 2);
    assert!(liked.meta().fresh);
    let expected: Vec<String> = (0..120).map(|i| format!("t{i}")).collect();
    assert_eq!(ids(&liked), expected);
}

#[test]
fn a_walk_stops_once_the_margin_is_confirmed() {
    let mut liked = LikedSongs::new();
    let mut walk = liked.ensure_through(10).unwrap();
    let mut pages = 0;
    while let WalkStep::Fetch { offset } = liked.next_step(&mut walk) {
        let from = offset as usize;
        liked.page_arrived(&mut walk, &numbered(from, from + 50), 1000);
        pages += 1;
    }
    // 160 rows are wanted, 50 come with each page.
    assert_eq!(pages, 4);
    assert_eq!(liked.meta().fetched_through, 200);
    assert!(liked.finish_walk(walk));
    assert!(liked.ensure_through(200 - SAVED_TRACKS_MARGIN).is_none());
    assert!(liked.ensure_through(201 - SAVED_TRACKS_MARGIN).is_some());
}

#[test]
fn an_empty_page_ends_the_list_whatever_the_total_says() {
    let mut liked = LikedSongs::new();
    let mut walk = liked.ensure_through(500).unwrap();
    assert!(matches!(liked.next_step(&mut walk), WalkStep::Fetch { offset: 0 }));
    liked.page_arrived(&mut walk, &numbered(0, 30), 99);
    assert!(matches!(liked.next_step(&mut walk), WalkStep::Fetch { offset: 30 }));
    let write = liked.page_arrived(&mut walk, &vec![], 99);
    assert_eq!(write.total, Some(30));
    assert!(matches!(liked.next_step(&mut walk), WalkStep::Stop));
    assert!(liked.meta().fresh);
    assert_eq!(liked.total(), Some(30));
}

#[test]
fn a_walk_that_did_nothing_does_not_change_the_version() {
    let mut liked = LikedSongs::new();
    let walk = liked.ensure_through(0).unwrap();
    assert!(!liked.finish_walk(walk));
    assert_eq!(liked.version(), 0);
}

#[test]
fn new_likes_lead_the_list_once_each() {
    let mut liked = LikedSongs::new();
    liked.load_cache(numbered(0, 2), Some(2));
    let write = liked.apply_saved_added(&vec![track("x"), track("t1"), track("y"), track("x")]);
    assert!(matches!(write.write, ListWrite::All));
    assert_eq!(write.total, Some(4));
    assert_eq!(ids(&liked), vec!["y", "x", "t0", "t1"]);
    assert_eq!(liked.version(), 2);
}

#[test]
fn removed_likes_go_and_an_unknown_total_stays_unknown() {
    let mut liked = LikedSongs::new();
    liked.load_cache(numbered(0, 4), None);
    let write = liked.apply_saved_removed(&vec![track("t1"), track("t3"), track("nope")]);
    assert_eq!(write.total, None);
    assert_eq!(ids(&liked), vec!["t0", "t2"]);
}

#[test]
fn removing_what_was_added_restores_the_list() {
    let mut liked = LikedSongs::new();
    liked.load_cache(numbered(0, 3), Some(3));
    let new = vec![track("x"), track("y")];
    liked.apply_saved_added(&new);
    assert_eq!(ids(&liked), vec!["x", "y", "t0", "t1", "t2"]);
    liked.apply_saved_removed(&new);
    assert_eq!(ids(&liked), vec!["t0", "t1", "t2"]);
    assert_eq!(liked.total(), Some(3));
}

#[test]
fn unliking_confirmed_rows_leaves_the_others_confirmed() {
    let mut liked = LikedSongs::new();
    liked.load_cache(numbered(1, 201), Some(200));
    let head = numbered(0, 50);
    liked.revalidate(Some((&head, 201))).unwrap();
    // Two of the confirmed rows go, and one that was not confirmed.
    liked.apply_saved_removed(&vec![track("t3"), track("t7"), track("t150")]);
    assert_eq!(liked.meta().fetched_through, 48);
    assert_eq!(liked.saved_tracks().len(), 197);
    assert_eq!(ids(&liked)[47], "t49");
    // A new like comes in front; the rows that are known to be right do not reach further.
    liked.apply_saved_added(&vec![track("n")]);
    assert_eq!(liked.meta().fetched_through, 48);
    assert_eq!(ids(&liked)[0], "n");
}

#[test]
fn rows_that_the_service_does_not_have_are_cut_when_they_are_wanted() {
    let mut liked = LikedSongs::new();
    liked.load_cache(numbered(0, 100), Some(100));
    liked.revalidate(Some((&numbered(0, 40), 40))).unwrap();
    assert_eq!(liked.saved_tracks().len(), 100);
    let mut walk = liked.ensure_through(99).unwrap();
    assert!(matches!(liked.next_step(&mut walk), WalkStep::Truncate { len: 40 }));
    assert!(liked.finish_walk(walk));
    assert_eq!(liked.saved_tracks().len(), 40);
    assert!(liked.meta().fresh);
    assert!(liked.ensure_through(99).is_none());
}

#[test]
fn a_list_that_is_confirmed_to_its_end_needs_no_walk() {
    let mut liked = LikedSongs::new();
    liked.revalidate(Some((&numbered(0, 40), 40))).unwrap();
    assert!(!liked.meta().fresh);
    assert!(liked.ensure_through(99).is_none());
}

#[test]
fn likes_and_unlikes_leave_the_rest_of_the_list_to_be_loaded() {
    let mut liked = LikedSongs::new();
    liked.revalidate(Some((&numbered(0, 50), 1000))).unwrap();
    let write = liked.apply_saved_removed(&vec![track("t1"), track("t2")]);
    assert_eq!(write.total, Some(998));
    assert_eq!(liked.total(), Some(998));
    assert_eq!(liked.saved_tracks().len(), 48);
    assert!(liked.ensure_through(500).is_some());
    liked.apply_saved_added(&vec![track("n")]);
    assert_eq!(liked.total(), Some(999));
    assert!(liked.ensure_through(500).is_some());
}

#[test]
fn the_total_never_drops_below_nothing() {
    let mut liked = LikedSongs::new();
    liked.load_cache(numbered(0, 3), Some(1));
    liked.apply_saved_removed(&numbered(0, 3));
    assert_eq!(liked.total(), Some(0));
}
