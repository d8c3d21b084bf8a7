//! The UI shell's embedded dist: the entries a complete dist holds (`index.html` with the
//! inlined import map, the public `api/mcp-ui.js` module and the vendored `lit`), looked up in
//! the directory that `include_dir` embeds into the binary.

use include_dir::Dir;
use vstd::prelude::*;

verus! {

#[verifier::external_type_specification]
#[verifier::external_body]
pub struct ExDir<'a>(Dir<'a>);

/// What an embedded directory holds, by lookup path: `true` where the first entry found at
/// that path (depth-first, as `Dir::get_entry` searches) is a file, `false` where it is a
/// directory.
pub uninterp spec fn dir_lookup(dir: Dir<'static>) -> Map<Seq<char>, bool>;

/// include_dir's `Dir::get_file(path).is_some()`.
#[verifier::external_body]
fn has_file(dir: &Dir<'static>, path: &str) -> (res: bool)
    ensures
        res == (dir_lookup(*dir).contains_key(path@) && dir_lookup(*dir)[path@]),
{
    dir.get_file(path).is_some()
}

/// include_dir's `Dir::get_dir(path).is_some()`.
#[verifier::external_body]
fn has_dir(dir: &Dir<'static>, path: &str) -> (res: bool)
    ensures
        res == (dir_lookup(*dir).contains_key(path@) && !dir_lookup(*dir)[path@]),
{
    dir.get_dir(path).is_some()
}

/// The file entries a complete shell dist holds.
pub open spec fn shell_files() -> Seq<Seq<char>> {
    seq!["index.html"@, "api/mcp-ui.js"@]
}

/// The directory entries a complete shell dist holds.
pub open spec fn shell_dirs() -> Seq<Seq<char>> {
    seq!["web_modules/lit"@]
}

/// Whether `dir` holds `path` as a file.
pub open spec fn holds_file(dir: Dir<'static>, path: Seq<char>) -> bool {
    dir_lookup(dir).contains_key(path) && dir_lookup(dir)[path]
}

/// Whether `dir` holds `path` as a directory.
pub open spec fn holds_dir(dir: Dir<'static>, path: Seq<char>) -> bool {
    dir_lookup(dir).contains_key(path) && !dir_lookup(dir)[path]
}

/// The required shell entries that `dist` lacks, files first, in the order of
/// [`shell_files`] then [`shell_dirs`]; empty exactly when the dist is complete.
pub fn shell_missing(dist: &Dir<'static>) -> (res: Vec<String>)
    ensures
        res@.map_values(|s: String| s@) == shell_files().filter(|p: Seq<char>| !holds_file(*dist, p))
            + shell_dirs().filter(|p: Seq<char>| !holds_dir(*dist, p)),
{
    let mut missing: Vec<String> = Vec::new();
    let index = has_file(dist, "index.html");
    if !index {
        missing.push(String::from_str("index.html"));
    }
    let api = has_file(dist, "api/mcp-ui.js");
    if !api {
        missing.push(String::from_str("api/mcp-ui.js"));
    }
    let lit = has_dir(dist, "web_modules/lit");
    if !lit {
        missing.push(String::from_str("web_modules/lit"));
    }
    proof {
        let f = |p: Seq<char>| !holds_file(*dist, p);
        let g = |p: Seq<char>| !holds_dir(*dist, p);
        reveal_with_fuel(Seq::<_>::filter, 3);
        assert(shell_files().drop_last() =~= seq!["index.html"@]);
        assert(seq!["index.html"@].drop_last() =~= Seq::<Seq<char>>::empty());
        assert(shell_dirs().drop_last() =~= Seq::<Seq<char>>::empty());
        assert(missing@.map_values(|s: String| s@) =~= shell_files().filter(f) + shell_dirs().filter(g));
    }
    missing
}

} // verus!
