//! The install kinds of the client, the paths they imply, and the launch
//! invocation built for a chosen game.

use vstd::prelude::*;
use vstd::string::StringExecFns;
use crate::text::contains;
use crate::text::spec_contains;
use crate::text::spec_lines;
use crate::text::spec_starts_with;
use crate::text::split_lines;
use crate::text::starts_with;

verus! {

/// How the client is installed: as a native package, as a sandboxed
/// flatpak package, or not at all.
#[derive(Clone, Copy, Debug, PartialEq, Eq, Structural)]
pub enum SteamKind {
    Vanilla,
    Flatpak,
    NotFound,
}

/// The launch URL for a game identifier.
pub open spec fn spec_rungame_url(id: Seq<char>) -> Seq<char> {
    "steam://rungameid/"@ + id
}

/// Builds the appropriate URL to run the game.
pub fn generate_steam_rungame(id: &str) -> (r: String)
    ensures
        r@ == spec_rungame_url(id@),
{
    let mut s = String::from_str("steam://rungameid/");
    s.append(id);
    s
}

/// Combine the two detection probes: a native install wins over a
/// sandboxed one, and without either the client is not found.
pub fn classify_install(native: bool, sandboxed: bool) -> (k: SteamKind)
    ensures
        k == (if native {
            SteamKind::Vanilla
        } else if sandboxed {
            SteamKind::Flatpak
        } else {
            SteamKind::NotFound
        }),
{
    if native {
        SteamKind::Vanilla
    } else if sandboxed {
        SteamKind::Flatpak
    } else {
        SteamKind::NotFound
    }
}

/// Some line of the package manager's listing mentions the client.
pub open spec fn spec_listing_has_steam(out: Seq<char>) -> bool {
    exists|i: int| 0 <= i < spec_lines(out).len() && spec_contains(spec_lines(out)[i], "Steam"@)
}

/// Decide from the sandbox package manager's "list installed" output
/// whether the client package is listed.
pub fn listing_has_steam(output: &str) -> (r: bool)
    ensures
        r == spec_listing_has_steam(output@),
{
    let lines = split_lines(output);
    let ghost gl = lines.deep_view();
    let mut i: usize = 0;
    while i < lines.len()
        invariant
            0 <= i <= lines.len(),
            gl == lines.deep_view(),
            gl.len() == lines.len(),
            gl == spec_lines(output@),
            forall|j: int| 0 <= j < i ==> !spec_contains(gl[j], "Steam"@),
        decreases lines.len() - i,
    {
        proof {
            assert(gl[i as int] == lines@[i as int]@);
        }
        if contains(lines[i].as_str(), "Steam") {
            return true;
        }
        i = i + 1;
    }
    false
}

/// The candidate install roots under the home directory for each install
/// kind, probed in order; the first existing directory is the default
/// library root.
pub open spec fn spec_root_candidates(kind: SteamKind) -> Seq<Seq<char>> {
    match kind {
        SteamKind::Vanilla => seq![".local/share/steam"@, ".steam/steam"@],
        SteamKind::Flatpak => seq![".var/app/com.valvesoftware.Steam/data/Steam"@],
        SteamKind::NotFound => Seq::empty(),
    }
}

/// Exec counterpart of [`spec_root_candidates`].
pub fn default_root_candidates(kind: SteamKind) -> (r: Vec<String>)
    ensures
        r.deep_view() == spec_root_candidates(kind),
{
    let mut r: Vec<String> = Vec::new();
    match kind {
        SteamKind::Vanilla => {
            r.push(String::from_str(".local/share/steam"));
            r.push(String::from_str(".steam/steam"));
        },
        SteamKind::Flatpak => {
            r.push(String::from_str(".var/app/com.valvesoftware.Steam/data/Steam"));
        },
        SteamKind::NotFound => {
        },
    }
    proof {
        assert(r.deep_view() =~~= spec_root_candidates(kind));
    }
    r
}

/// The subdirectory of a library root that holds the manifest files.
pub fn manifest_subdir() -> (r: String)
    ensures
        r@ == "steamapps"@,
{
    String::from_str("steamapps")
}

/// The name of the file that declares additional library roots.
pub fn library_folders_filename() -> (r: String)
    ensures
        r@ == "libraryfolders.vdf"@,
{
    String::from_str("libraryfolders.vdf")
}

/// A file in the manifest subdirectory is a game manifest when its name
/// begins with the manifest marker.
pub fn is_manifest_filename(name: &str) -> (r: bool)
    ensures
        r == spec_starts_with(name@, "appmanifest"@),
{
    starts_with(name, "appmanifest")
}

/// One launch invocation: the program to spawn and its arguments.
pub struct LaunchCommand {
    pub program: String,
    pub args: Vec<String>,
}

/// The invocation each install kind launches a game with: the native
/// launcher takes the URL alone, the sandboxed one goes through the
/// package manager's run subcommand; a missing install launches nothing.
pub open spec fn spec_launch(kind: SteamKind, id: Seq<char>) -> Option<(Seq<char>, Seq<Seq<char>>)> {
    match kind {
        SteamKind::Vanilla => Some(("steam"@, seq![spec_rungame_url(id)])),
        SteamKind::Flatpak => Some(
            ("flatpak"@, seq!["run"@, "com.valvesoftware.Steam"@, spec_rungame_url(id)]),
        ),
        SteamKind::NotFound => None,
    }
}

/// Build the launch invocation for the chosen identifier.
pub fn launch_command(kind: SteamKind, id: &str) -> (r: Option<LaunchCommand>)
    ensures
        r is None <==> kind == SteamKind::NotFound,
        r matches Some(c) ==> Some((c.program@, c.args.deep_view())) == spec_launch(kind, id@),
{
    match kind {
        SteamKind::Vanilla => {
            let mut args: Vec<String> = Vec::new();
            args.push(generate_steam_rungame(id));
            let c = LaunchCommand { program: String::from_str("steam"), args };
            proof {
                assert(Some((c.program@, c.args.deep_view())) =~~= spec_launch(kind, id@));
            }
            Some(c)
        },
        SteamKind::Flatpak => {
            let mut args: Vec<String> = Vec::new();
            args.push(String::from_str("run"));
            args.push(String::from_str("com.valvesoftware.Steam"));
            args.push(generate_steam_rungame(id));
            let c = LaunchCommand { program: String::from_str("flatpak"), args };
            proof {
                assert(Some((c.program@, c.args.deep_view())) =~~= spec_launch(kind, id@));
            }
            Some(c)
        },
        SteamKind::NotFound => None,
    }
}

} // verus!
