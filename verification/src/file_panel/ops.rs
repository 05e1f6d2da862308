//! Decisions of the file operations: where a new entry goes, whether it may,
//! and which free name a copy takes.
use vstd::prelude::*;

use crate::file_panel::model::{is_within_root, resolved_path};
use crate::paths::{
    file_name, file_name_of, join, last_dot, parent, parent_of, path_join, path_starts_with,
    rfind_dot, suffix_from,
};
use crate::text::{dec, in_list, push_dec, string_of, string_of_range};

verus! {

/// Why a file operation was refused or failed.
#[derive(Debug)]
pub enum OpError {
    OutOfRoot,
    AlreadyExists,
    Io(String),
    Trash(String),
}

pub open spec fn opt_view(o: Option<String>) -> Option<Seq<char>> {
    match o {
        Some(s) => Some(s@),
        None => None,
    }
}

/// What `is_within_root` answers for these canonical forms.
pub open spec fn within(
    path: Seq<char>,
    root: Seq<char>,
    canon: Option<Seq<char>>,
    canon_parent: Option<Seq<char>>,
) -> bool {
    match resolved_path(path, canon, canon_parent) {
        Some(r) => path_starts_with(r, root),
        None => false,
    }
}

/// The target of `new_file`/`new_folder`. `canon`/`canon_parent` are the
/// canonical forms of the target and of its parent; `exists` is whether the
/// target exists.
pub fn plan_new_entry(
    root: &str,
    parent_dir: &str,
    name: &str,
    canon: Option<String>,
    canon_parent: Option<String>,
    exists: bool,
) -> (res: Result<String, OpError>)
    ensures
        ({
            let target = path_join(parent_dir@, name@);
            &&& !within(target, root@, opt_view(canon), opt_view(canon_parent)) ==> (res matches Err(OpError::OutOfRoot))
            &&& within(target, root@, opt_view(canon), opt_view(canon_parent)) && exists ==> (res matches Err(OpError::AlreadyExists))
            &&& within(target, root@, opt_view(canon), opt_view(canon_parent)) && !exists ==> (res
                matches Ok(t) && t@ == target)
        }),
{
    let target = join(parent_dir, name);
    if !is_within_root(&target, root, canon, canon_parent) {
        return Err(OpError::OutOfRoot);
    }
    if exists {
        return Err(OpError::AlreadyExists);
    }
    Ok(target)
}

/// The target of `rename`: `new_name` next to `old`. `OutOfRoot` when `old`
/// has no parent or the target leaves the workspace; `AlreadyExists` when the
/// target exists.
pub fn plan_rename(
    root: &str,
    old: &str,
    new_name: &str,
    canon: Option<String>,
    canon_parent: Option<String>,
    exists: bool,
) -> (res: Result<String, OpError>)
    ensures
        match parent(old@) {
            None => (res matches Err(OpError::OutOfRoot)),
            Some(p) => {
                let target = path_join(p, new_name@);
                &&& !within(target, root@, opt_view(canon), opt_view(canon_parent)) ==> (res matches Err(OpError::OutOfRoot))
                &&& within(target, root@, opt_view(canon), opt_view(canon_parent)) && exists
                    ==> (res matches Err(OpError::AlreadyExists))
                &&& within(target, root@, opt_view(canon), opt_view(canon_parent)) && !exists
                    ==> (res matches Ok(t) && t@ == target)
            },
        },
{
    let p = match parent_of(old) {
        Some(p) => p,
        None => return Err(OpError::OutOfRoot),
    };
    plan_new_entry(root, &p, new_name, canon, canon_parent, exists)
}

/// Whether every path lies inside the workspace: `canons[i]`/`canon_parents[i]`
/// are what canonicalizing `paths[i]` and its parent gave.
pub fn check_all_within(
    root: &str,
    paths: &[String],
    canons: &[Option<String>],
    canon_parents: &[Option<String>],
) -> (res: Result<(), OpError>)
    requires
        canons.len() == paths.len(),
        canon_parents.len() == paths.len(),
    ensures
        res is Ok <==> forall|i: int|
            0 <= i < paths.len() ==> within(
                #[trigger] paths@[i]@,
                root@,
                opt_view(canons@[i]),
                opt_view(canon_parents@[i]),
            ),
        res is Err ==> (res matches Err(OpError::OutOfRoot)),
{
    let mut i: usize = 0;
    while i < paths.len()
        invariant
            0 <= i <= paths.len(),
            canons.len() == paths.len(),
            canon_parents.len() == paths.len(),
            forall|j: int|
                0 <= j < i ==> within(
                    #[trigger] paths@[j]@,
                    root@,
                    opt_view(canons@[j]),
                    opt_view(canon_parents@[j]),
                ),
        decreases paths.len() - i,
    {
        let c = match &canons[i] {
            Some(s) => Some(s.clone()),
            None => None,
        };
        let cp = match &canon_parents[i] {
            Some(s) => Some(s.clone()),
            None => None,
        };
        if !is_within_root(&paths[i], root, c, cp) {
            return Err(OpError::OutOfRoot);
        }
        i += 1;
    }
    Ok(())
}

// ---------------------------------------------------------------------------
// Names of copies
// ---------------------------------------------------------------------------

/// The stem and extension that a copy keeps: a directory keeps its whole name;
/// a file splits at its last `.` when that `.` is not the first character.
pub open spec fn split_name_spec(name: Seq<char>, is_dir: bool) -> (Seq<char>, Option<Seq<char>>) {
    if is_dir {
        (name, None)
    } else {
        match last_dot(name) {
            Some(i) => if i > 0 {
                (name.subrange(0, i), Some(name.subrange(i + 1, name.len() as int)))
            } else {
                (name, None)
            },
            None => (name, None),
        }
    }
}

/// File name of `p`, empty when it has none.
pub open spec fn name_or_empty(p: Seq<char>) -> Seq<char> {
    match file_name(p) {
        Some(n) => n,
        None => Seq::empty(),
    }
}

/// Stem and extension of the file name of `p` (`is_dir` says whether `p` is a directory).
pub fn split_name(p: &str, is_dir: bool) -> (res: (String, Option<String>))
    ensures
        res.0@ == split_name_spec(name_or_empty(p@), is_dir).0,
        opt_view(res.1) == split_name_spec(name_or_empty(p@), is_dir).1,
{
    let name: Vec<char> = match file_name_of(p) {
        Some(n) => n,
        None => Vec::new(),
    };
    assert(name@ == name_or_empty(p@));
    if is_dir {
        return (string_of(&name), None);
    }
    match rfind_dot(&name) {
        Some(i) => {
            proof {
                crate::paths::lemma_last_dot(name@);
            }
            if i > 0 {
                let stem = string_of_range(&name, 0, i);
                let ext = string_of_range(&name, i + 1, name.len());
                (stem, Some(ext))
            } else {
                (string_of(&name), None)
            }
        },
        None => (string_of(&name), None),
    }
}

/// `"{stem} ({n}).{ext}"`, or `"{stem} ({n})"` without an extension.
pub open spec fn candidate_name_spec(stem: Seq<char>, ext: Option<Seq<char>>, n: nat) -> Seq<
    char,
> {
    let base = stem + seq![' ', '('] + dec(n) + seq![')'];
    match ext {
        Some(e) => base + seq!['.'] + e,
        None => base,
    }
}

pub fn candidate_name(stem: &str, ext: &Option<String>, n: u32) -> (res: String)
    ensures
        res@ == candidate_name_spec(
            stem@,
            match ext {
                Some(e) => Some(e@),
                None => None,
            },
            n as nat,
        ),
{
    let mut v = crate::text::chars_of(stem);
    v.push(' ');
    v.push('(');
    push_dec(&mut v, n as u64);
    v.push(')');
    match ext {
        Some(e) => {
            v.push('.');
            let ec = crate::text::chars_of(e);
            let mut k: usize = 0;
            let ghost base = v@;
            while k < ec.len()
                invariant
                    0 <= k <= ec.len(),
                    v@ == base + ec@.subrange(0, k as int),
                decreases ec.len() - k,
            {
                v.push(ec[k]);
                assert(ec@.subrange(0, k + 1) =~= ec@.subrange(0, k as int).push(ec@[k as int]));
                k += 1;
            }
            assert(ec@.subrange(0, ec@.len() as int) =~= ec@);
        },
        None => {},
    }
    let ghost expected = candidate_name_spec(
        stem@,
        match ext {
            Some(e) => Some(e@),
            None => None,
        },
        n as nat,
    );
    assert(v@ =~= expected);
    string_of(&v)
}

/// A name is taken when it is empty (it names the directory itself) or it is
/// among the names that exist in the directory.
pub open spec fn name_taken(name: Seq<char>, taken: Seq<Seq<char>>) -> bool {
    name.len() == 0 || taken.contains(name)
}

/// The name that the `n`-th copy of `src` takes.
pub open spec fn nth_candidate(src: Seq<char>, is_dir: bool, n: nat) -> Seq<char> {
    let (stem, ext) = split_name_spec(name_or_empty(src), is_dir);
    candidate_name_spec(stem, ext, n)
}

/// Some copy number below `u32::MAX` has a free name (else numbering overflows).
pub open spec fn has_free_candidate(src: Seq<char>, is_dir: bool, taken: Seq<Seq<char>>) -> bool {
    exists|n: nat| 1 <= n < u32::MAX && !name_taken(#[trigger] nth_candidate(src, is_dir, n), taken)
}

/// The smallest copy number from 1 whose name is free.
pub open spec fn first_free(src: Seq<char>, is_dir: bool, taken: Seq<Seq<char>>, n: nat) -> bool {
    &&& 1 <= n < u32::MAX
    &&& !name_taken(nth_candidate(src, is_dir, n), taken)
    &&& forall|m: nat| 1 <= m < n ==> name_taken(#[trigger] nth_candidate(src, is_dir, m), taken)
}

fn is_taken(name: &String, taken: &Vec<String>) -> (res: bool)
    ensures
        res == name_taken(name@, crate::paths::views_of_strings(taken@)),
{
    let nv = crate::text::chars_of(name.as_str());
    if nv.len() == 0 {
        return true;
    }
    let mut i: usize = 0;
    while i < taken.len()
        invariant
            0 <= i <= taken.len(),
            nv@ == name@,
            forall|j: int| 0 <= j < i ==> taken@[j]@ != name@,
        decreases taken.len() - i,
    {
        if crate::text::str_eq(taken[i].as_str(), name.as_str()) {
            assert(crate::paths::views_of_strings(taken@)[i as int] == name@);
            return true;
        }
        i += 1;
    }
    assert(!crate::paths::views_of_strings(taken@).contains(name@)) by {
        if crate::paths::views_of_strings(taken@).contains(name@) {
            let j = choose|j: int|
                0 <= j < taken@.len() && crate::paths::views_of_strings(taken@)[j] == name@;
            assert(taken@[j]@ == name@);
        }
    }
    false
}

/// Whether some copy of `src` below number `u32::MAX` has a free name, which
/// `duplicate` and `unique_target` need (`taken` lists the names in use).
pub fn copy_name_available(src: &str, is_dir: bool, taken: &Vec<String>) -> (res: bool)
    ensures
        res == has_free_candidate(src@, is_dir, crate::paths::views_of_strings(taken@)),
{
    let ghost tv = crate::paths::views_of_strings(taken@);
    let (stem, ext) = split_name(src, is_dir);
    let mut n: u32 = 1;
    while n < u32::MAX
        invariant
            1 <= n <= u32::MAX,
            tv == crate::paths::views_of_strings(taken@),
            stem@ == split_name_spec(name_or_empty(src@), is_dir).0,
            opt_view(ext) == split_name_spec(name_or_empty(src@), is_dir).1,
            forall|m: nat| 1 <= m < n ==> name_taken(#[trigger] nth_candidate(src@, is_dir, m), tv),
        decreases u32::MAX - n,
    {
        let name = candidate_name(&stem, &ext, n);
        assert(name@ == nth_candidate(src@, is_dir, n as nat));
        if !is_taken(&name, taken) {
            return true;
        }
        n = n + 1;
    }
    proof {
        if has_free_candidate(src@, is_dir, tv) {
            let w = choose|w: nat| 1 <= w < u32::MAX && !name_taken(#[trigger] nth_candidate(src@, is_dir, w), tv);
            assert(name_taken(nth_candidate(src@, is_dir, w), tv));
        }
    }
    false
}

/// The first free copy name of `src`, counting from 1.
fn first_free_name(src: &str, is_dir: bool, taken: &Vec<String>) -> (res: (String, Ghost<nat>))
    requires
        has_free_candidate(src@, is_dir, crate::paths::views_of_strings(taken@)),
    ensures
        res.0@ == nth_candidate(src@, is_dir, res.1@),
        first_free(src@, is_dir, crate::paths::views_of_strings(taken@), res.1@),
{
    let ghost tv = crate::paths::views_of_strings(taken@);
    let (stem, ext) = split_name(src, is_dir);
    let mut n: u32 = 1;
    loop
        invariant
            1 <= n,
            tv == crate::paths::views_of_strings(taken@),
            has_free_candidate(src@, is_dir, tv),
            stem@ == split_name_spec(name_or_empty(src@), is_dir).0,
            opt_view(ext) == split_name_spec(name_or_empty(src@), is_dir).1,
            forall|m: nat| 1 <= m < n ==> name_taken(#[trigger] nth_candidate(src@, is_dir, m), tv),
        decreases u32::MAX - n,
    {
        let name = candidate_name(&stem, &ext, n);
        assert(name@ == nth_candidate(src@, is_dir, n as nat));
        if !is_taken(&name, taken) {
            return (name, Ghost(n as nat));
        }
        if n == u32::MAX - 1 {
            proof {
                let w = choose|w: nat|
                    1 <= w < u32::MAX && !name_taken(#[trigger] nth_candidate(src@, is_dir, w), tv);
                assert(w <= n);
            }
            assert(false);
        }
        n = n + 1;
    }
}

/// Where `duplicate` copies `src`: the first free `"{stem} ({n}).{ext}"` next
/// to it. `OutOfRoot` when `src` leaves the workspace or has no parent.
/// `taken` lists the names that exist next to `src`.
pub fn duplicate(
    root: &str,
    src: &str,
    canon: Option<String>,
    canon_parent: Option<String>,
    is_dir: bool,
    taken: &Vec<String>,
) -> (res: Result<String, OpError>)
    requires
        has_free_candidate(src@, is_dir, crate::paths::views_of_strings(taken@)),
    ensures
        !within(src@, root@, opt_view(canon), opt_view(canon_parent)) ==> (res matches Err(OpError::OutOfRoot)),
        within(src@, root@, opt_view(canon), opt_view(canon_parent)) && parent(src@) is None
            ==> (res matches Err(OpError::OutOfRoot)),
        within(src@, root@, opt_view(canon), opt_view(canon_parent)) && parent(src@) is Some
            ==> (res matches Ok(t) && exists|n: nat|
            first_free(src@, is_dir, crate::paths::views_of_strings(taken@), n) && t@
                == path_join(parent(src@)->0, nth_candidate(src@, is_dir, n))),
{
    if !is_within_root(src, root, canon, canon_parent) {
        return Err(OpError::OutOfRoot);
    }
    let p = match parent_of(src) {
        Some(p) => p,
        None => return Err(OpError::OutOfRoot),
    };
    let (name, Ghost(n)) = first_free_name(src, is_dir, taken);
    let t = join(&p, &name);
    assert(first_free(src@, is_dir, crate::paths::views_of_strings(taken@), n));
    Ok(t)
}

/// Where `paste` puts `src` inside `dst_dir`: its own name when free, else
/// the first free numbered copy name. `taken` lists the names in `dst_dir`.
pub fn unique_target(dst_dir: &str, src: &str, is_dir: bool, taken: &Vec<String>) -> (res: String)
    requires
        has_free_candidate(src@, is_dir, crate::paths::views_of_strings(taken@)),
    ensures
        !name_taken(name_or_empty(src@), crate::paths::views_of_strings(taken@)) ==> res@
            == path_join(dst_dir@, name_or_empty(src@)),
        name_taken(name_or_empty(src@), crate::paths::views_of_strings(taken@)) ==> exists|n: nat|
            first_free(src@, is_dir, crate::paths::views_of_strings(taken@), n) && res@
                == path_join(dst_dir@, nth_candidate(src@, is_dir, n)),
{
    let own: Vec<char> = match file_name_of(src) {
        Some(n) => n,
        None => Vec::new(),
    };
    let own_s = string_of(&own);
    if !is_taken(&own_s, taken) {
        return join(dst_dir, &own_s);
    }
    let (name, Ghost(n)) = first_free_name(src, is_dir, taken);
    assert(first_free(src@, is_dir, crate::paths::views_of_strings(taken@), n));
    join(dst_dir, &name)
}

} // verus!
