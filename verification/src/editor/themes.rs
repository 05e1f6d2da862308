//! The bundled editor colour schemes.
use vstd::prelude::*;

use crate::order::{key_views, ranked, sort_order};
use crate::text::{chars_of, is_lit, string_of, to_lowercase, lowercase};

verus! {

/// Identifier and label of each bundled scheme, in menu order.
pub open spec fn schemes() -> Seq<(&'static str, &'static str)> {
    seq![
        ("lyrux-grey", "Lyrux Grey"),
        ("lyrux-dark", "Lyrux Dark"),
        ("lyrux-light", "Lyrux Light"),
        ("catppuccin-latte", "Catppuccin Latte"),
        ("catppuccin-frappe", "Catppuccin Frappé"),
        ("catppuccin-macchiato", "Catppuccin Macchiato"),
        ("catppuccin-mocha", "Catppuccin Mocha"),
        ("tokyo-night", "Tokyo Night"),
        ("tokyo-night-storm", "Tokyo Night Storm"),
        ("one-dark", "One Dark"),
        ("one-light", "One Light"),
    ]
}

fn scheme_table() -> (res: [(&'static str, &'static str); 11])
    ensures
        res@ == schemes(),
{
    let t: [(&'static str, &'static str); 11] = [
        ("lyrux-grey", "Lyrux Grey"),
        ("lyrux-dark", "Lyrux Dark"),
        ("lyrux-light", "Lyrux Light"),
        ("catppuccin-latte", "Catppuccin Latte"),
        ("catppuccin-frappe", "Catppuccin Frappé"),
        ("catppuccin-macchiato", "Catppuccin Macchiato"),
        ("catppuccin-mocha", "Catppuccin Mocha"),
        ("tokyo-night", "Tokyo Night"),
        ("tokyo-night-storm", "Tokyo Night Storm"),
        ("one-dark", "One Dark"),
        ("one-light", "One Light"),
    ];
    assert(t@ == schemes());
    t
}

/// The bundled schemes: `(identifier, label)`.
pub fn available() -> (res: Vec<(&'static str, &'static str)>)
    ensures
        res@ == schemes(),
{
    let t = scheme_table();
    let mut out: Vec<(&'static str, &'static str)> = Vec::new();
    let mut i: usize = 0;
    while i < 11
        invariant
            0 <= i <= 11,
            t@ == schemes(),
            out@ == schemes().subrange(0, i as int),
        decreases 11 - i,
    {
        out.push(t[i]);
        assert(schemes().subrange(0, i + 1) =~= schemes().subrange(0, i as int).push(
            schemes()[i as int],
        ));
        i += 1;
    }
    assert(schemes().subrange(0, 11) =~= schemes());
    out
}

/// The label of the first bundled scheme with identifier `id`.
pub open spec fn label_for_spec(id: Seq<char>) -> Option<&'static str> {
    first_label(id, schemes().len() as int)
}

/// Label of the last scheme among the first `n` whose identifier is `id`,
/// searching from the front: the first match wins.
pub open spec fn first_label(id: Seq<char>, n: int) -> Option<&'static str>
    decreases n,
{
    if n <= 0 {
        None
    } else {
        match first_label(id, n - 1) {
            Some(l) => Some(l),
            None => if schemes()[n - 1].0@ == id {
                Some(schemes()[n - 1].1)
            } else {
                None
            },
        }
    }
}

proof fn lemma_first_label_stable(id: Seq<char>, a: int, b: int)
    requires
        0 <= a <= b,
        first_label(id, a) is Some,
    ensures
        first_label(id, b) == first_label(id, a),
    decreases b - a,
{
    if b > a {
        lemma_first_label_stable(id, a, b - 1);
    }
}

pub fn label_for(id: &str) -> (res: Option<&'static str>)
    ensures
        res == label_for_spec(id@),
{
    let t = scheme_table();
    let v = chars_of(id);
    let mut i: usize = 0;
    while i < 11
        invariant
            0 <= i <= 11,
            t@ == schemes(),
            v@ == id@,
            first_label(id@, i as int) is None,
        decreases 11 - i,
    {
        if is_lit(&v, t[i].0) {
            proof {
                assert(first_label(id@, i + 1) == Some(schemes()[i as int].1));
                lemma_first_label_stable(id@, i + 1, 11);
            }
            return Some(t[i].1);
        }
        i += 1;
    }
    None
}

/// The scheme used when nothing was chosen.
pub fn default_id() -> (res: &'static str)
    ensures
        res@ == "lyrux-grey"@,
{
    "lyrux-grey"
}

pub fn default_light_id() -> (res: &'static str)
    ensures
        res@ == "lyrux-light"@,
{
    "lyrux-light"
}

pub fn default_dark_id() -> (res: &'static str)
    ensures
        res@ == "lyrux-grey"@,
{
    "lyrux-grey"
}


/// The label a scheme is shown with: its bundled label; else `scheme_name`,
/// the name that the installed scheme gives itself, when it has a non-empty
/// one; else its identifier.
pub open spec fn display_label_spec(id: Seq<char>, scheme_name: Option<Seq<char>>) -> Seq<char> {
    match label_for_spec(id) {
        Some(l) => l@,
        None => match scheme_name {
            Some(n) => if n.len() > 0 {
                n
            } else {
                id
            },
            None => id,
        },
    }
}

pub fn display_label(id: &str, scheme_name: Option<&str>) -> (res: String)
    ensures
        res@ == display_label_spec(id@, match scheme_name {
            Some(n) => Some(n@),
            None => None,
        }),
{
    if let Some(bundled) = label_for(id) {
        return string_of(&chars_of(bundled));
    }
    match scheme_name {
        Some(n) => {
            let c = chars_of(n);
            if c.len() > 0 {
                return string_of(&c);
            }
        },
        None => {},
    }
    string_of(&chars_of(id))
}

/// The installed schemes `(identifier, name it gives itself)` as the menu
/// lists them: `(identifier, display label)`, ordered by the lower-cased
/// label, schemes with equal ones in the order given.
pub open spec fn dynamic_spec(schemes: Seq<(String, Option<String>)>, res: Seq<(String, String)>) -> bool {
    let labels = schemes.map_values(|p: (String, Option<String>)| display_label_spec(p.0@, match p.1 {
        Some(n) => Some(n@),
        None => None,
    }));
    let keys = labels.map_values(|l: Seq<char>| (0int, lowercase(l)));
    let order = ranked(keys);
    &&& res.len() == schemes.len()
    &&& forall|i: int| 0 <= i < res.len() ==> {
        &&& (#[trigger] res[i]).0@ == schemes[order[i] as int].0@
        &&& res[i].1@ == labels[order[i] as int]
    }
}

pub fn available_dynamic(schemes: &Vec<(String, Option<String>)>) -> (res: Vec<(String, String)>)
    ensures
        dynamic_spec(schemes@, res@),
{
    let ghost labels = schemes@.map_values(|p: (String, Option<String>)| display_label_spec(p.0@, match p.1 {
        Some(n) => Some(n@),
        None => None,
    }));
    let ghost gk = labels.map_values(|l: Seq<char>| (0int, lowercase(l)));
    let mut entries: Vec<(String, String)> = Vec::new();
    let mut keys: Vec<(i128, Vec<char>)> = Vec::new();
    let mut i: usize = 0;
    while i < schemes.len()
        invariant
            i <= schemes.len(),
            labels == schemes@.map_values(|p: (String, Option<String>)| display_label_spec(p.0@, match p.1 {
                Some(n) => Some(n@),
                None => None,
            })),
            gk == labels.map_values(|l: Seq<char>| (0int, lowercase(l))),
            entries.len() == i,
            keys.len() == i,
            forall|j: int| 0 <= j < i ==> {
                &&& (#[trigger] entries@[j]).0@ == schemes@[j].0@
                &&& entries@[j].1@ == labels[j]
                &&& key_views(keys@)[j] == gk[j]
            },
        decreases schemes.len() - i,
    {
        let name: Option<&str> = match &schemes[i].1 {
            Some(n) => Some(n.as_str()),
            None => None,
        };
        let label = display_label(schemes[i].0.as_str(), name);
        let lower = to_lowercase(label.as_str());
        let ghost old_e = entries@;
        let ghost old_k = keys@;
        keys.push((0, chars_of(lower.as_str())));
        entries.push((schemes[i].0.clone(), label));
        proof {
            assert(labels[i as int] == display_label_spec(schemes@[i as int].0@, match schemes@[i as int].1 {
                Some(n) => Some(n@),
                None => None,
            }));
            assert(entries@[i as int].1@ == labels[i as int]);
            assert(key_views(keys@)[i as int] == gk[i as int]);
            assert forall|j: int| 0 <= j < i + 1 implies {
                &&& (#[trigger] entries@[j]).0@ == schemes@[j].0@
                &&& entries@[j].1@ == labels[j]
                &&& key_views(keys@)[j] == gk[j]
            } by {
                if j < i {
                    assert(entries@[j] == old_e[j]);
                    assert(keys@[j] == old_k[j]);
                    assert(key_views(old_k)[j] == gk[j]);
                }
            }
        }
        i += 1;
    }
    assert(gk.len() == keys@.len());
    assert forall|j: int| 0 <= j < gk.len() implies key_views(keys@)[j] == gk[j] by {
        assert(entries@[j].0@ == schemes@[j].0@);
    }
    assert(key_views(keys@) =~= gk);
    let order = sort_order(&keys);
    let mut out: Vec<(String, String)> = Vec::new();
    let mut r: usize = 0;
    while r < order.len()
        invariant
            order.len() == schemes.len(),
            entries.len() == schemes.len(),
            labels.len() == schemes.len(),
            order@ == ranked(gk),
            forall|j: int| 0 <= j < order.len() ==> order@[j] < schemes.len(),
            forall|j: int| 0 <= j < schemes.len() ==> {
                &&& (#[trigger] entries@[j]).0@ == schemes@[j].0@
                &&& entries@[j].1@ == labels[j]
            },
            out.len() == r,
            r <= order.len(),
            forall|j: int| 0 <= j < r ==> {
                &&& (#[trigger] out@[j]).0@ == schemes@[order@[j] as int].0@
                &&& out@[j].1@ == labels[order@[j] as int]
            },
        decreases order.len() - r,
    {
        let k = order[r];
        let e = (entries[k].0.clone(), entries[k].1.clone());
        let ghost old_out = out@;
        out.push(e);
        proof {
            assert forall|j: int| 0 <= j < r + 1 implies {
                &&& (#[trigger] out@[j]).0@ == schemes@[order@[j] as int].0@
                &&& out@[j].1@ == labels[order@[j] as int]
            } by {
                if j < r {
                    assert(out@[j] == old_out[j]);
                }
            }
        }
        r += 1;
    }
    out
}

} // verus!
