//! Where unsaved buffers are kept for recovery.
use vstd::prelude::*;

use crate::paths::{join, path_join};
use crate::text::{chars_of, is_ascii_alnum, string_of};

verus! {

pub open spec fn safe_char(c: char) -> char {
    if is_ascii_alnum(c) || c == '-' || c == '_' || c == '.' {
        c
    } else {
        '_'
    }
}

/// `id` with every character but ASCII letters, digits, `-`, `_` and `.`
/// replaced by `_`; `"_"` for an empty id.
pub open spec fn sanitize_spec(id: Seq<char>) -> Seq<char> {
    if id.len() == 0 {
        seq!['_']
    } else {
        id.map_values(|c: char| safe_char(c))
    }
}

pub fn sanitize(id: &str) -> (res: String)
    ensures
        res@ == sanitize_spec(id@),
{
    let v = chars_of(id);
    if v.len() == 0 {
        let mut s = String::new();
        crate::text::push_char(&mut s, '_');
        assert(s@ =~= seq!['_']);
        return s;
    }
    let mut out: Vec<char> = Vec::new();
    let mut i: usize = 0;
    while i < v.len()
        invariant
            0 <= i <= v.len(),
            out@ == v@.subrange(0, i as int).map_values(|c: char| safe_char(c)),
        decreases v.len() - i,
    {
        let c = v[i];
        let keep = ('a' <= c && c <= 'z') || ('A' <= c && c <= 'Z') || ('0' <= c && c <= '9')
            || c == '-' || c == '_' || c == '.';
        out.push(if keep { c } else { '_' });
        assert(v@.subrange(0, i + 1).map_values(|c: char| safe_char(c)) =~= v@.subrange(
            0,
            i as int,
        ).map_values(|c: char| safe_char(c)).push(safe_char(c)));
        i += 1;
    }
    assert(v@.subrange(0, v@.len() as int) =~= v@);
    string_of(&out)
}

/// `<state dir>/lyrux/swap/<workspace>/<pane>`, with both ids sanitized.
pub open spec fn swap_dir_spec(state_dir: Seq<char>, workspace_id: Seq<char>, pane_id: Seq<char>) -> Seq<
    char,
> {
    path_join(
        path_join(path_join(state_dir, "lyrux/swap"@), sanitize_spec(workspace_id)),
        sanitize_spec(pane_id),
    )
}

/// The swap directory of a pane, under the user's state directory (none
/// when the platform has no state directory).
pub fn swap_dir(state_dir: Option<String>, workspace_id: &str, pane_id: &str) -> (res: Option<
    String,
>)
    ensures
        match state_dir {
            Some(d) => res is Some && res->0@ == swap_dir_spec(d@, workspace_id@, pane_id@),
            None => res is None,
        },
{
    let base = match state_dir {
        Some(d) => d,
        None => return None,
    };
    let a = join(&base, "lyrux/swap");
    let ws = sanitize(workspace_id);
    let b = join(&a, &ws);
    let pane = sanitize(pane_id);
    Some(join(&b, &pane))
}

} // verus!
