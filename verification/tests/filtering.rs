use steam_random_game::filter::is_blacklisted;
use steam_random_game::filter::is_proton;
use steam_random_game::filter::parses_nonzero_float;

#[test]
fn proton_true_on_nonzero_versions() {
    assert!(is_proton("Proton 7.0"));
    assert!(is_proton("Proton 5.13"));
    assert!(is_proton("Proton 0.5"));
    assert!(is_proton("Proton .5"));
    assert!(is_proton("Proton 5."));
    assert!(is_proton("Proton +2"));
    assert!(is_proton("Proton 1e3"));
    assert!(is_proton("Proton inf"));
    assert!(is_proton("Proton NaN"));
}

#[test]
fn proton_false_on_zero_versions() {
    assert!(!is_proton("Proton 0"));
    assert!(!is_proton("Proton 0.0"));
    assert!(!is_proton("Proton -0"));
    assert!(!is_proton("Proton 000.000"));
    assert!(!is_proton("Proton 0e5"));
}

#[test]
fn proton_false_on_non_numeric_or_missing_versions() {
    assert!(!is_proton("Proton"));
    assert!(!is_proton("Proton Experimental"));
    assert!(!is_proton("Proton 5.13-6"));
    assert!(!is_proton("Proton - EasyAntiCheat Runtime"));
    assert!(!is_proton(""));
    assert!(!is_proton("Half-Life"));
    assert!(!is_proton("ProtonDB"));
}

#[test]
fn float_token_grammar() {
    assert!(parses_nonzero_float("7"));
    assert!(parses_nonzero_float("-3.25"));
    assert!(parses_nonzero_float("2e-4"));
    assert!(parses_nonzero_float("2E+4"));
    assert!(parses_nonzero_float("INFINITY"));
    assert!(!parses_nonzero_float("0"));
    assert!(!parses_nonzero_float("0.0"));
    assert!(!parses_nonzero_float(""));
    assert!(!parses_nonzero_float("."));
    assert!(!parses_nonzero_float("1.2.3"));
    assert!(!parses_nonzero_float("1e"));
    assert!(!parses_nonzero_float("e5"));
    assert!(!parses_nonzero_float("abc"));
    assert!(!parses_nonzero_float("7 "));
}

#[test]
fn blacklist_exact_names() {
    assert!(is_blacklisted("Steamworks Common Redistributables"));
    assert!(is_blacklisted("SteamVR"));
    assert!(is_blacklisted("Proton Experimental"));
}

#[test]
fn blacklist_suffix_and_prefix_rules() {
    assert!(is_blacklisted("AnyGame Soundtrack"));
    assert!(is_blacklisted("Steam Linux Runtime 3.0"));
    assert!(is_blacklisted("Steam Linux Runtime"));
    assert!(is_blacklisted("Proton 7.0"));
}

#[test]
fn blacklist_lets_ordinary_games_through() {
    assert!(!is_blacklisted("Half-Life"));
    assert!(!is_blacklisted("Portal 2"));
    assert!(!is_blacklisted("Dota 2"));
    assert!(!is_blacklisted("A Soundtrack of War"));
    assert!(!is_blacklisted("ProtonDB Helper"));
}
