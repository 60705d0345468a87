use steam_random_game::steam::classify_install;
use steam_random_game::steam::default_root_candidates;
use steam_random_game::steam::generate_steam_rungame;
use steam_random_game::steam::is_manifest_filename;
use steam_random_game::steam::launch_command;
use steam_random_game::steam::library_folders_filename;
use steam_random_game::steam::listing_has_steam;
use steam_random_game::steam::manifest_subdir;
use steam_random_game::steam::SteamKind;

#[test]
fn rungame_url_embeds_the_id() {
    assert_eq!(generate_steam_rungame("70"), "steam://rungameid/70");
    assert_eq!(generate_steam_rungame(""), "steam://rungameid/");
}

#[test]
fn native_install_wins_over_sandboxed() {
    assert_eq!(classify_install(true, true), SteamKind::Vanilla);
    assert_eq!(classify_install(true, false), SteamKind::Vanilla);
    assert_eq!(classify_install(false, true), SteamKind::Flatpak);
    assert_eq!(classify_install(false, false), SteamKind::NotFound);
}

#[test]
fn listing_probe_looks_for_the_client() {
    let listing = "Name\tApplication ID\tVersion\n\
                   Steam\tcom.valvesoftware.Steam\t1.0\n\
                   GIMP\torg.gimp.GIMP\t2.10\n";
    assert!(listing_has_steam(listing));
    assert!(!listing_has_steam("GIMP\torg.gimp.GIMP\t2.10\n"));
    assert!(!listing_has_steam(""));
}

#[test]
fn root_candidates_per_install_kind() {
    let vanilla = default_root_candidates(SteamKind::Vanilla);
    assert_eq!(vanilla, vec![".local/share/steam", ".steam/steam"]);
    let flatpak = default_root_candidates(SteamKind::Flatpak);
    assert_eq!(flatpak, vec![".var/app/com.valvesoftware.Steam/data/Steam"]);
    assert_eq!(default_root_candidates(SteamKind::NotFound).len(), 0);
}

#[test]
fn fixed_names() {
    assert_eq!(manifest_subdir(), "steamapps");
    assert_eq!(library_folders_filename(), "libraryfolders.vdf");
    assert!(is_manifest_filename("appmanifest_70.acf"));
    assert!(!is_manifest_filename("libraryfolders.vdf"));
}

#[test]
fn launch_invocation_per_install_kind() {
    let native = launch_command(SteamKind::Vanilla, "70").unwrap();
    assert_eq!(native.program, "steam");
    assert_eq!(native.args, vec!["steam://rungameid/70"]);

    let sandboxed = launch_command(SteamKind::Flatpak, "70").unwrap();
    assert_eq!(sandboxed.program, "flatpak");
    assert_eq!(
        sandboxed.args,
        vec!["run", "com.valvesoftware.Steam", "steam://rungameid/70"]
    );

    assert!(launch_command(SteamKind::NotFound, "70").is_none());
}
