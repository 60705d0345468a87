use steam_random_game::vdf::parse_library_folders;
use steam_random_game::vdf::parse_manifest;

#[test]
fn library_folders_keeps_numeric_keys_only() {
    let contents = "\"libraryfolders\"\n\
                    {\n\
                    \t\"0\"\t\t\"/home/u/.steam/steam\"\n\
                    \t\"tool\"\t\t\"something\"\n\
                    \t\"1\"\t\t\"/mnt/games\"\n\
                    \t\"contentstatsid\"\t\"-4711\"\n\
                    \t\"2\"\t\t\"/data/library\"\n\
                    }\n";
    let paths = parse_library_folders(contents);
    assert_eq!(paths.len(), 3);
    assert_eq!(paths[0], "/home/u/.steam/steam");
    assert_eq!(paths[1], "/mnt/games");
    assert_eq!(paths[2], "/data/library");
}

#[test]
fn library_folders_strips_quotes_and_blanks() {
    let contents = "\"libraryfolders\"\n\
                    {\n\
                    \t\"7\"\t  \"/spaced\"  \n\
                    }\n";
    let paths = parse_library_folders(contents);
    assert_eq!(paths.len(), 1);
    assert_eq!(paths[0], "/spaced");
}

#[test]
fn library_folders_empty_without_body() {
    assert_eq!(parse_library_folders("").len(), 0);
    assert_eq!(parse_library_folders("\"libraryfolders\"\n{\n}\n").len(), 0);
}

#[test]
fn manifest_reads_name_and_id() {
    let contents = "\"AppState\"\n\
                    {\n\
                    \t\"appid\"\t\t\"70\"\n\
                    \t\"Universe\"\t\"1\"\n\
                    \t\"name\"\t\t\"Half-Life\"\n\
                    }\n";
    let e = parse_manifest(contents);
    assert_eq!(e.name, "Half-Life");
    assert_eq!(e.id, "70");
}

#[test]
fn manifest_last_name_wins() {
    let contents = "\"AppState\"\n\
                    {\n\
                    \t\"name\"\t\t\"MyGame\"\n\
                    \t\"appid\"\t\t\"99\"\n\
                    \t\"name\"\t\t\"MyGameOverride\"\n\
                    }\n";
    let e = parse_manifest(contents);
    assert_eq!(e.name, "MyGameOverride");
    assert_eq!(e.id, "99");
}

#[test]
fn manifest_missing_fields_stay_empty() {
    let contents = "\"AppState\"\n\
                    {\n\
                    \t\"appid\"\t\t\"400\"\n\
                    }\n";
    let e = parse_manifest(contents);
    assert_eq!(e.name, "");
    assert_eq!(e.id, "400");

    let empty = parse_manifest("");
    assert_eq!(empty.name, "");
    assert_eq!(empty.id, "");
}

#[test]
fn manifest_skips_malformed_lines() {
    let contents = "\"AppState\"\n\
                    {\n\
                    justoneword\n\
                    \n\
                    \t\"name\"\t\t\"Sturdy\"\n\
                    \t\"appid\"\t\t\"8\"\n\
                    }\n";
    let e = parse_manifest(contents);
    assert_eq!(e.name, "Sturdy");
    assert_eq!(e.id, "8");
}
