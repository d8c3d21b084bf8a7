use include_dir::{Dir, DirEntry, File};
use mcp_core::web::shell::shell_missing;

static API_ENTRIES: [DirEntry<'static>; 1] = [DirEntry::File(File::new("api/mcp-ui.js", b"export {};"))];
static LIT_ENTRIES: [DirEntry<'static>; 1] = [DirEntry::File(File::new("web_modules/lit/index.js", b"export {};"))];
static MODULE_ENTRIES: [DirEntry<'static>; 1] =
    [DirEntry::Dir(Dir::new("web_modules/lit", &LIT_ENTRIES))];
static DIST_ENTRIES: [DirEntry<'static>; 3] = [
    DirEntry::File(File::new("index.html", b"<!doctype html>")),
    DirEntry::Dir(Dir::new("api", &API_ENTRIES)),
    DirEntry::Dir(Dir::new("web_modules", &MODULE_ENTRIES)),
];
/// A dist with the layout the shell build embeds. The shell's front-end asset build is not
/// part of this crate, so there is no built dist to embed at compile time: these tests check
/// the lookups on a hand-built dir of the same layout instead.
static SHELL_DIST: Dir<'static> = Dir::new("", &DIST_ENTRIES);

#[test]
fn shell_is_embedded_in_the_binary() {
    // Checks the embedded dist's layout on the hand-built stand-in above, and that the
    // library's layout check accepts it; no built dist is embedded in this crate's tests.
    assert!(
        SHELL_DIST.get_file("index.html").is_some(),
        "index.html embedded"
    );
    assert!(
        SHELL_DIST.get_file("api/mcp-ui.js").is_some(),
        "mcp-ui API embedded"
    );
    assert!(
        SHELL_DIST.get_dir("web_modules/lit").is_some(),
        "lit vendored + embedded"
    );
    assert!(shell_missing(&SHELL_DIST).is_empty());
}

static PARTIAL_ENTRIES: [DirEntry<'static>; 1] = [DirEntry::File(File::new("index.html", b"<!doctype html>"))];
static PARTIAL: Dir<'static> = Dir::new("", &PARTIAL_ENTRIES);
static EMPTY: Dir<'static> = Dir::new("", &[]);

#[test]
fn incomplete_dists_name_what_is_missing() {
    assert_eq!(
        shell_missing(&PARTIAL),
        vec!["api/mcp-ui.js".to_string(), "web_modules/lit".to_string()]
    );
    assert_eq!(
        shell_missing(&EMPTY),
        vec![
            "index.html".to_string(),
            "api/mcp-ui.js".to_string(),
            "web_modules/lit".to_string()
        ]
    );
}
