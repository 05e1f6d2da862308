//! Which highlighting language an extension selects.
use vstd::prelude::*;

use crate::text::{chars_of, in_list, one_of};

verus! {

pub open spec fn lang_spec(ext: Seq<char>) -> Option<&'static str> {
    if ext == "rs"@ {
        Some("rust")
    } else if ext == "ts"@ {
        Some("typescript")
    } else if ext == "tsx"@ {
        Some("typescript-jsx")
    } else if in_list(ext, seq!["js", "mjs", "cjs", "jsx"]) {
        Some("js")
    } else if ext == "json"@ {
        Some("json")
    } else if in_list(ext, seq!["md", "markdown"]) {
        Some("markdown")
    } else if ext == "css"@ {
        Some("css")
    } else if in_list(ext, seq!["html", "htm"]) {
        Some("html")
    } else if in_list(ext, seq!["py", "pyi", "py3"]) {
        Some("python3")
    } else if ext == "toml"@ {
        Some("toml")
    } else if in_list(ext, seq!["yml", "yaml"]) {
        Some("yaml")
    } else if in_list(ext, seq!["sh", "bash", "zsh", "fish"]) {
        Some("sh")
    } else if ext == "c"@ {
        Some("c")
    } else if ext == "h"@ {
        Some("chdr")
    } else if in_list(ext, seq!["cpp", "cc", "cxx", "hpp", "hxx"]) {
        Some("cpp")
    } else if ext == "go"@ {
        Some("go")
    } else if ext == "lua"@ {
        Some("lua")
    } else if ext == "rb"@ {
        Some("ruby")
    } else if in_list(ext, seq!["xml", "svg"]) {
        Some("xml")
    } else if ext == "dtd"@ {
        Some("dtd")
    } else {
        None
    }
}

/// The language identifier for a (lower-case) file extension.
pub fn language_id_for_extension(ext: &str) -> (res: Option<&'static str>)
    ensures
        res == lang_spec(ext@),
{
    let e = chars_of(ext);
    let l = |s: &str| -> (r: bool)
        ensures
            r == (e@ == s@),
        { crate::text::is_lit(&e, s) };
    let js: [&str; 4] = ["js", "mjs", "cjs", "jsx"];
    assert(js@ == seq!["js", "mjs", "cjs", "jsx"]);
    let md: [&str; 2] = ["md", "markdown"];
    assert(md@ == seq!["md", "markdown"]);
    let html: [&str; 2] = ["html", "htm"];
    assert(html@ == seq!["html", "htm"]);
    let py: [&str; 3] = ["py", "pyi", "py3"];
    assert(py@ == seq!["py", "pyi", "py3"]);
    let yml: [&str; 2] = ["yml", "yaml"];
    assert(yml@ == seq!["yml", "yaml"]);
    let sh: [&str; 4] = ["sh", "bash", "zsh", "fish"];
    assert(sh@ == seq!["sh", "bash", "zsh", "fish"]);
    let cpp: [&str; 5] = ["cpp", "cc", "cxx", "hpp", "hxx"];
    assert(cpp@ == seq!["cpp", "cc", "cxx", "hpp", "hxx"]);
    let xml: [&str; 2] = ["xml", "svg"];
    assert(xml@ == seq!["xml", "svg"]);
    if l("rs") {
        Some("rust")
    } else if l("ts") {
        Some("typescript")
    } else if l("tsx") {
        Some("typescript-jsx")
    } else if one_of(&e, &js) {
        Some("js")
    } else if l("json") {
        Some("json")
    } else if one_of(&e, &md) {
        Some("markdown")
    } else if l("css") {
        Some("css")
    } else if one_of(&e, &html) {
        Some("html")
    } else if one_of(&e, &py) {
        Some("python3")
    } else if l("toml") {
        Some("toml")
    } else if one_of(&e, &yml) {
        Some("yaml")
    } else if one_of(&e, &sh) {
        Some("sh")
    } else if l("c") {
        Some("c")
    } else if l("h") {
        Some("chdr")
    } else if one_of(&e, &cpp) {
        Some("cpp")
    } else if l("go") {
        Some("go")
    } else if l("lua") {
        Some("lua")
    } else if l("rb") {
        Some("ruby")
    } else if one_of(&e, &xml) {
        Some("xml")
    } else if l("dtd") {
        Some("dtd")
    } else {
        None
    }
}


/// A bundled file is written to the cache unless the cache already holds
/// exactly its contents (`existing` is what reading the cached copy gave).
pub fn needs_write(existing: Option<&str>, contents: &str) -> (res: bool)
    ensures
        res == match existing {
            Some(e) => e@ != contents@,
            None => true,
        },
{
    match existing {
        Some(e) => !crate::text::str_eq(e, contents),
        None => true,
    }
}

/// The search path with the cache directory in front, unless it is on it
/// already; says whether the path changed.
pub fn with_search_dir(paths: Vec<String>, dir: String) -> (res: (Vec<String>, bool))
    ensures
        (exists|i: int| 0 <= i < paths@.len() && paths@[i]@ == dir@) ==> res.0@ == paths@ && !res.1,
        !(exists|i: int| 0 <= i < paths@.len() && paths@[i]@ == dir@) ==> res.0@ == seq![dir] + paths@ && res.1,
{
    let mut i: usize = 0;
    while i < paths.len()
        invariant
            i <= paths.len(),
            forall|j: int| 0 <= j < i ==> paths@[j]@ != dir@,
        decreases paths.len() - i,
    {
        if crate::text::str_eq(paths[i].as_str(), dir.as_str()) {
            return (paths, false);
        }
        i += 1;
    }
    let mut out = paths;
    out.insert(0, dir);
    (out, true)
}

} // verus!
