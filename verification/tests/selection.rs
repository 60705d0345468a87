use steam_random_game::catalog::build_catalog;
use steam_random_game::catalog::choose_game;
use steam_random_game::catalog::scan_manifests;

fn manifest(name: &str, id: &str) -> String {
    format!(
        "\"AppState\"\n{{\n\t\"appid\"\t\t\"{}\"\n\t\"name\"\t\t\"{}\"\n}}\n",
        id, name
    )
}

#[test]
fn scan_filters_non_games() {
    let root = vec![
        manifest("Half-Life", "70"),
        manifest("SteamVR", "250820"),
        manifest("Proton 7.0", "1887720"),
    ];
    let games = scan_manifests(&root);
    assert_eq!(games.len(), 1);
    assert_eq!(games[0].name, "Half-Life");
    assert_eq!(games[0].id, "70");
}

#[test]
fn catalog_aggregates_every_root() {
    let default_root = vec![manifest("Half-Life", "70"), manifest("Portal 2", "620")];
    let extra_one = vec![manifest("Dota 2", "570")];
    let extra_two = vec![manifest("Celeste", "504230")];
    let catalog = build_catalog(&vec![default_root, extra_one, extra_two]);
    let names: Vec<&str> = catalog.iter().map(|e| e.name.as_str()).collect();
    assert_eq!(names, vec!["Half-Life", "Portal 2", "Dota 2", "Celeste"]);
}

#[test]
fn empty_root_yields_empty_catalog() {
    let catalog = build_catalog(&vec![Vec::new()]);
    assert_eq!(catalog.len(), 0);
    assert!(choose_game(&catalog).is_none());
}

#[test]
fn choose_returns_index_in_range() {
    let root = vec![manifest("Half-Life", "70"), manifest("Portal 2", "620")];
    let catalog = scan_manifests(&root);
    for _ in 0..100 {
        let i = choose_game(&catalog).unwrap();
        assert!(i < catalog.len());
    }
}

#[test]
fn choose_is_roughly_uniform() {
    let root = vec![
        manifest("A", "1"),
        manifest("B", "2"),
        manifest("C", "3"),
        manifest("D", "4"),
    ];
    let catalog = scan_manifests(&root);
    assert_eq!(catalog.len(), 4);
    let trials = 8000;
    let mut counts = [0usize; 4];
    for _ in 0..trials {
        let i = choose_game(&catalog).unwrap();
        counts[i] += 1;
    }
    for &c in counts.iter() {
        assert!(c > 1600, "count {} too far below the uniform share", c);
        assert!(c < 2400, "count {} too far above the uniform share", c);
    }
}
