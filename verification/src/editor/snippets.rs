//! The snippet files that ship with the editor.
use vstd::prelude::*;

verus! {

pub open spec fn snippet_names_spec() -> Seq<&'static str> {
    seq![
        "c.snippets",
        "css.snippets",
        "go.snippets",
        "html.snippets",
        "js.snippets",
        "json.snippets",
        "licenses.snippets",
        "markdown.snippets",
        "python.snippets",
        "rust.snippets",
        "sh.snippets",
        "shebang.snippets",
        "toml.snippets",
        "typescript.snippets",
        "xml.snippets",
        "yaml.snippets",
    ]
}

/// The file names of the bundled snippet files, in the order they are written.
pub fn bundled_snippet_names() -> (res: Vec<&'static str>)
    ensures
        res@ == snippet_names_spec(),
{
    let v = vec![
        "c.snippets",
        "css.snippets",
        "go.snippets",
        "html.snippets",
        "js.snippets",
        "json.snippets",
        "licenses.snippets",
        "markdown.snippets",
        "python.snippets",
        "rust.snippets",
        "sh.snippets",
        "shebang.snippets",
        "toml.snippets",
        "typescript.snippets",
        "xml.snippets",
        "yaml.snippets",
    ];
    assert(v@ =~= snippet_names_spec());
    v
}

} // verus!
