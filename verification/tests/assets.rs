use abura::{AssetServer, Handle, SpriteSheet};

fn test_sheet() -> SpriteSheet {
    SpriteSheet { frame_width: 32, frame_height: 32, columns: 4, rows: 4 }
}

#[test]
fn same_path_returns_same_handle() {
    let mut server = AssetServer::new();
    let h1 = server.load_sheet("player.png", test_sheet());
    let h2 = server.load_sheet("player.png", test_sheet());
    assert_eq!(h1, h2);
}

#[test]
fn different_paths_return_different_handles() {
    let mut server = AssetServer::new();
    let h1 = server.load_sheet("player.png", test_sheet());
    let h2 = server.load_sheet("enemy.png", test_sheet());
    assert_ne!(h1, h2);
}

#[test]
fn get_sheet_returns_stored_metadata() {
    let mut server = AssetServer::new();
    let handle = server.load_sheet("player.png", test_sheet());
    let sheet = server.get_sheet(&handle).unwrap();
    assert_eq!(sheet.columns, 4);
}

#[test]
fn handles_are_numbered_from_zero_in_load_order() {
    let mut server = AssetServer::default();
    assert_eq!(server.load_sheet("a.png", test_sheet()).id(), 0);
    assert_eq!(server.load_sheet("b.png", test_sheet()).id(), 1);
    assert_eq!(server.load_sheet("a.png", test_sheet()).id(), 0);
    assert_eq!(server.load_sheet("c.png", test_sheet()).id(), 2);
}

#[test]
fn reloading_a_path_keeps_the_first_sheet() {
    let mut server = AssetServer::new();
    let first = SpriteSheet { frame_width: 16, frame_height: 8, columns: 2, rows: 3 };
    let second = SpriteSheet { frame_width: 64, frame_height: 64, columns: 9, rows: 9 };
    let h1 = server.load_sheet("tiles.png", first);
    let h2 = server.load_sheet("tiles.png", second);
    assert_eq!(h1, h2);
    assert_eq!(*server.get_sheet(&h2).unwrap(), first);
}

#[test]
fn loading_other_paths_keeps_earlier_sheets() {
    let mut server = AssetServer::new();
    let first = SpriteSheet { frame_width: 16, frame_height: 8, columns: 2, rows: 3 };
    let h1 = server.load_sheet("tiles.png", first);
    server.load_sheet("player.png", test_sheet());
    server.load_sheet("enemy.png", test_sheet());
    assert_eq!(*server.get_sheet(&h1).unwrap(), first);
}

#[test]
fn unknown_handle_has_no_sheet() {
    let mut server = AssetServer::new();
    server.load_sheet("player.png", test_sheet());
    let unknown: Handle<SpriteSheet> = Handle::new(7);
    assert!(server.get_sheet(&unknown).is_none());
}

#[test]
fn handle_new_and_clone_keep_the_id() {
    let h: Handle<SpriteSheet> = Handle::new(41);
    assert_eq!(h.id(), 41);
    assert_eq!(h.clone().id(), 41);
    assert_eq!(h.clone(), h);
}

#[test]
fn handles_compare_by_id() {
    let a: Handle<SpriteSheet> = Handle::new(4);
    let b: Handle<SpriteSheet> = Handle::new(4);
    let c: Handle<SpriteSheet> = Handle::new(5);
    assert!(a == b);
    assert!(a != c);
    assert_eq!(a.clone(), a);
}

#[test]
fn history_of_loads_dedups_by_path_and_keeps_first_sheets() {
    let mut server = AssetServer::new();
    let first = SpriteSheet { frame_width: 16, frame_height: 8, columns: 2, rows: 3 };
    let second = test_sheet();
    let paths = ["a.png", "b.png", "a.png", "c.png", "b.png", "a.png"];
    let handles: Vec<Handle<SpriteSheet>> = paths
        .iter()
        .enumerate()
        .map(|(i, p)| server.load_sheet(p, if i == 0 { first } else { second }))
        .collect();
    for i in 0..paths.len() {
        for j in 0..paths.len() {
            assert_eq!(handles[i] == handles[j], paths[i] == paths[j]);
        }
    }
    assert_eq!(*server.get_sheet(&handles[5]).unwrap(), first);
    assert_eq!(*server.get_sheet(&handles[4]).unwrap(), second);
    assert!(server.get_sheet(&Handle::new(3)).is_none());
}
