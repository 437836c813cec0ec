use odysseus_lib::{Playlist, Store, StoreError};

fn pl(name: &str, card_id: Option<u32>) -> Playlist {
    Playlist::new(name.to_string(), card_id, false, None)
}

fn store_of(playlists: Vec<Playlist>) -> Store {
    let listings = playlists.iter().map(|_| Vec::new()).collect();
    Store::resolve("/music".to_string(), playlists, listings)
}

fn jazz_rock() -> Store {
    store_of(vec![pl("Jazz", None), pl("Rock", None)])
}

#[test]
fn next_card_id_empty_is_zero() {
    let store = store_of(vec![]);
    assert_eq!(store.next_card_id(), 0);
    let store = jazz_rock();
    assert_eq!(store.next_card_id(), 0);
}

#[test]
fn next_card_id_extends_contiguous() {
    let store = store_of(vec![pl("a", Some(0)), pl("b", Some(1)), pl("c", Some(2))]);
    assert_eq!(store.next_card_id(), 3);
}

#[test]
fn next_card_id_fills_gap() {
    let store = store_of(vec![pl("a", Some(0)), pl("b", Some(2)), pl("c", Some(3))]);
    assert_eq!(store.next_card_id(), 1);
}

#[test]
fn next_card_id_ignores_order_and_unbound() {
    let store = store_of(vec![pl("a", Some(3)), pl("x", None), pl("b", Some(0)), pl("c", Some(2))]);
    assert_eq!(store.next_card_id(), 1);
}

#[test]
fn next_card_id_does_not_fill_below_smallest() {
    let store = store_of(vec![pl("a", Some(1)), pl("b", Some(2))]);
    assert_eq!(store.next_card_id(), 3);
}

#[test]
fn next_card_id_single() {
    let store = store_of(vec![pl("a", Some(41))]);
    assert_eq!(store.next_card_id(), 42);
}

#[test]
fn playlist_by_name_finds_and_fails() {
    let mut store = jazz_rock();
    let p = store.playlist_by_name("Jazz").unwrap();
    assert_eq!(p.name, "Jazz");
    let e = store.playlist_by_name("Rock2").unwrap_err();
    assert_eq!(e, StoreError::PlaylistNotFound("Rock2".to_string()));
}

#[test]
fn playlist_by_name_returns_first_match() {
    let mut store = store_of(vec![pl("Jazz", Some(1)), pl("Jazz", Some(2))]);
    assert_eq!(store.playlist_by_name("Jazz").unwrap().card_id, Some(1));
}

#[test]
fn playlist_by_name_allows_change_in_place() {
    let mut store = jazz_rock();
    store.playlist_by_name("Rock").unwrap().allow_random = true;
    assert!(store.playlists()[1].allow_random);
    assert!(!store.playlists()[0].allow_random);
}

#[test]
fn playlist_by_card_unknown_reports_card_key() {
    let mut store = jazz_rock();
    let e = store.playlist_by_card(7).unwrap_err();
    assert_eq!(e, StoreError::PlaylistNotFound("card 7".to_string()));
    let e = store.playlist_by_card(1234).unwrap_err();
    assert_eq!(e, StoreError::PlaylistNotFound("card 1234".to_string()));
}

#[test]
fn get_files_unknown_is_empty() {
    let store = jazz_rock();
    assert!(store.get_files("Blues").is_empty());
}

#[test]
fn get_files_of_named_playlist() {
    let listing = vec!["/music/files/Jazz/a.flac".to_string(), "/music/files/Jazz/b.flac".to_string()];
    let store = Store::resolve("/music".to_string(), vec![pl("Jazz", None)], vec![listing.clone()]);
    assert_eq!(store.get_files("Jazz"), listing);
}

#[test]
fn radio_playlist_gets_no_files() {
    let radio = Playlist::new("Radio".to_string(), None, false, Some("http://stream.example/live".to_string()));
    let listing = vec!["/music/files/Radio/x.flac".to_string()];
    let store = Store::resolve("/music".to_string(), vec![radio], vec![listing]);
    assert!(store.playlists()[0].files.is_empty());
    assert!(store.get_files("Radio").is_empty());
    assert!(store.playlists()[0].is_radio());
}

#[test]
fn set_card_then_lookup_by_card() {
    let mut store = jazz_rock();
    store.set_playlist_card_id("Jazz", 5).unwrap();
    assert_eq!(store.playlist_by_card(5).unwrap().name, "Jazz");
}

#[test]
fn set_card_unknown_name_fails() {
    let mut store = jazz_rock();
    let e = store.set_playlist_card_id("Blues", 5).unwrap_err();
    assert_eq!(e, StoreError::PlaylistNotFound("Blues".to_string()));
    assert!(store.playlists().iter().all(|p| p.card_id.is_none()));
}

#[test]
fn set_card_overwrites() {
    let mut store = store_of(vec![pl("Jazz", Some(2))]);
    store.set_playlist_card_id("Jazz", 9).unwrap();
    assert_eq!(store.playlists()[0].card_id, Some(9));
}

#[test]
fn three_entries_give_three_files() {
    let listing = vec![
        "/music/files/Jazz/1.flac".to_string(),
        "/music/files/Jazz/2.flac".to_string(),
        "/music/files/Jazz/3.flac".to_string(),
    ];
    let store = Store::resolve("/music".to_string(), vec![pl("Jazz", None)], vec![listing]);
    assert_eq!(store.get_files("Jazz").len(), 3);
    assert_eq!(store.playlists()[0].files.len(), 3);
}

#[test]
fn set_position_resets_offset() {
    let mut store = jazz_rock();
    store.playlist_by_name("Rock").unwrap().position = Some((1, 30));
    store.set_position("Rock", 4).unwrap();
    assert_eq!(store.playlists()[1].position, Some((4, 0)));
    let e = store.set_position("Pop", 1).unwrap_err();
    assert_eq!(e, StoreError::PlaylistNotFound("Pop".to_string()));
}

#[test]
fn positions_lists_only_set_ones() {
    let mut store = jazz_rock();
    assert!(store.positions().is_empty());
    store.set_position("Rock", 2).unwrap();
    assert_eq!(store.positions(), vec![("Rock".to_string(), (2, 0))]);
}

#[test]
fn playlists_without_card_copies() {
    let store = store_of(vec![pl("a", Some(0)), pl("b", None), pl("c", None)]);
    let names: Vec<String> = store.playlists_without_card().into_iter().map(|p| p.name).collect();
    assert_eq!(names, vec!["b".to_string(), "c".to_string()]);
}

#[test]
fn root_path_is_kept() {
    let store = jazz_rock();
    assert_eq!(store.root_path(), "/music");
}

#[test]
fn definitions_reload_to_same_fields() {
    let radio = Playlist::new("Radio".to_string(), Some(3), true, Some("http://s".to_string()));
    let listing = vec!["/music/files/Jazz/1.flac".to_string()];
    let mut store = Store::resolve("/music".to_string(), vec![pl("Jazz", Some(1)), radio], vec![listing, vec![]]);
    store.set_position("Jazz", 1).unwrap();
    let defs = store.definitions();
    assert!(defs.iter().all(|p| p.files.is_empty() && p.position.is_none()));
    let again = Store::resolve("/music".to_string(), defs, vec![vec![], vec![]]);
    assert_eq!(again.playlists().len(), 2);
    for (a, b) in store.playlists().iter().zip(again.playlists()) {
        assert_eq!(a.name, b.name);
        assert_eq!(a.card_id, b.card_id);
        assert_eq!(a.allow_random, b.allow_random);
        assert_eq!(a.radio_url, b.radio_url);
    }
}
