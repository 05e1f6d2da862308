//! Unix paths held as strings, with the component rules of `std::path`.
use vstd::prelude::*;

use crate::text::{chars_of, concat, push_char, seq_eq, string_of};

verus! {

/// `s` cut at every `/`, left to right (so `"a//b"` gives `["a", "", "b"]`).
pub open spec fn split_slash(s: Seq<char>) -> Seq<Seq<char>>
    decreases s.len(),
{
    if s.len() == 0 {
        seq![Seq::<char>::empty()]
    } else if s.last() == '/' {
        split_slash(s.drop_last()).push(Seq::<char>::empty())
    } else {
        let t = split_slash(s.drop_last());
        t.update(t.len() - 1, t.last().push(s.last()))
    }
}

pub proof fn lemma_split_slash_nonempty(s: Seq<char>)
    ensures
        split_slash(s).len() >= 1,
    decreases s.len(),
{
    if s.len() > 0 {
        lemma_split_slash_nonempty(s.drop_last());
    }
}

/// A piece between separators that names something (not empty, not `.`).
pub open spec fn is_named(seg: Seq<char>) -> bool {
    seg.len() > 0 && seg != seq!['.']
}

/// The pieces that name something, in order.
pub open spec fn named_parts(segs: Seq<Seq<char>>) -> Seq<Seq<char>>
    decreases segs.len(),
{
    if segs.len() == 0 {
        Seq::empty()
    } else if is_named(segs.last()) {
        named_parts(segs.drop_last()).push(segs.last())
    } else {
        named_parts(segs.drop_last())
    }
}

/// The components of a path, as `Path::components` yields them: `"/"` stands for
/// the root, `"."` for a leading current-directory component.
pub open spec fn components(p: Seq<char>) -> Seq<Seq<char>> {
    if p.len() > 0 && p[0] == '/' {
        seq![seq!['/']] + named_parts(split_slash(p.drop_first()))
    } else if split_slash(p)[0] == seq!['.'] {
        seq![seq!['.']] + named_parts(split_slash(p).drop_first())
    } else {
        named_parts(split_slash(p))
    }
}

/// Two paths are equal, as `PathBuf == PathBuf` decides: same components.
pub open spec fn path_eq(a: Seq<char>, b: Seq<char>) -> bool {
    components(a) == components(b)
}

/// `Path::starts_with`: the components of `base` begin those of `p`.
pub open spec fn path_starts_with(p: Seq<char>, base: Seq<char>) -> bool {
    let cp = components(p);
    let cb = components(base);
    cb.len() <= cp.len() && cp.subrange(0, cb.len() as int) == cb
}

/// `Path::join`: an absolute `b` replaces `a`; otherwise a separator is put
/// between them when `a` is not empty and does not end with one.
pub open spec fn path_join(a: Seq<char>, b: Seq<char>) -> Seq<char> {
    if b.len() > 0 && b[0] == '/' {
        b
    } else if a.len() > 0 && a.last() != '/' {
        a + seq!['/'] + b
    } else {
        a + b
    }
}

/// A component that names a file or directory (not the root, `.` or `..`).
pub open spec fn is_normal_component(c: Seq<char>) -> bool {
    c != seq!['/'] && c != seq!['.'] && c != seq!['.', '.']
}

/// `Path::file_name`.
pub open spec fn file_name(p: Seq<char>) -> Option<Seq<char>> {
    let c = components(p);
    if c.len() > 0 && is_normal_component(c.last()) {
        Some(c.last())
    } else {
        None
    }
}

/// Index of the last `.` of `name`, if any.
pub open spec fn last_dot(name: Seq<char>) -> Option<int>
    decreases name.len(),
{
    if name.len() == 0 {
        None
    } else if name.last() == '.' {
        Some(name.len() - 1)
    } else {
        last_dot(name.drop_last())
    }
}

/// `Path::extension` of a file name: what follows its last `.`, when that
/// `.` is not the first character.
pub open spec fn name_extension(name: Seq<char>) -> Option<Seq<char>> {
    match last_dot(name) {
        Some(i) => if i > 0 {
            Some(name.subrange(i + 1, name.len() as int))
        } else {
            None
        },
        None => None,
    }
}

/// `Path::extension`.
pub open spec fn extension(p: Seq<char>) -> Option<Seq<char>> {
    match file_name(p) {
        Some(n) => name_extension(n),
        None => None,
    }
}

pub proof fn lemma_last_dot(name: Seq<char>)
    ensures
        match last_dot(name) {
            Some(i) => 0 <= i < name.len() && name[i] == '.' && forall|j: int|
                i < j < name.len() ==> name[j] != '.',
            None => forall|j: int| 0 <= j < name.len() ==> name[j] != '.',
        },
    decreases name.len(),
{
    if name.len() > 0 && name.last() != '.' {
        lemma_last_dot(name.drop_last());
        match last_dot(name) {
            Some(i) => {
                assert forall|j: int| i < j < name.len() implies name[j] != '.' by {
                    if j < name.len() - 1 {
                        assert(name[j] == name.drop_last()[j]);
                    }
                }
            },
            None => {
                assert forall|j: int| 0 <= j < name.len() implies name[j] != '.' by {
                    if j < name.len() - 1 {
                        assert(name[j] == name.drop_last()[j]);
                    }
                }
            },
        }
    }
}

// ---------------------------------------------------------------------------
// Executable forms
// ---------------------------------------------------------------------------

pub open spec fn views(v: Seq<Vec<char>>) -> Seq<Seq<char>> {
    v.map_values(|x: Vec<char>| x@)
}

fn seg_is_named(seg: &Vec<char>) -> (res: bool)
    ensures
        res == is_named(seg@),
{
    if seg.len() == 0 {
        return false;
    }
    if seg.len() == 1 && seg[0] == '.' {
        assert(seg@ =~= seq!['.']);
        return false;
    }
    assert(seg@.len() != 1 || seg@[0] != '.');
    assert(seg@ != seq!['.']) by {
        if seg@ == seq!['.'] {
            assert(seg@.len() == 1 && seg@[0] == '.');
        }
    }
    true
}

/// `named_parts(split_slash(v[from..]))`, and whether its first piece is `.`.
fn named_parts_from(v: &Vec<char>, from: usize) -> (res: (Vec<Vec<char>>, bool))
    requires
        from <= v.len(),
    ensures
        views(res.0@) == named_parts(split_slash(v@.subrange(from as int, v@.len() as int))),
        res.1 == (split_slash(v@.subrange(from as int, v@.len() as int))[0] == seq!['.']),
{
    let mut out: Vec<Vec<char>> = Vec::new();
    let mut cur: Vec<char> = Vec::new();
    let mut first: Option<bool> = None;
    let mut i = from;
    proof {
        assert(v@.subrange(from as int, from as int) =~= Seq::<char>::empty());
    }
    while i < v.len()
        invariant
            from <= i <= v.len(),
            ({
                let segs = split_slash(v@.subrange(from as int, i as int));
                &&& segs.len() >= 1
                &&& cur@ == segs.last()
                &&& views(out@) == named_parts(segs.drop_last())
                &&& match first {
                    Some(b) => segs.len() >= 2 && b == (segs[0] == seq!['.']),
                    None => segs.len() == 1,
                }
            }),
        decreases v.len() - i,
    {
        let ghost pre = v@.subrange(from as int, i as int);
        let ghost segs = split_slash(pre);
        let c = v[i];
        assert(v@.subrange(from as int, i + 1) =~= pre.push(c));
        assert(pre.push(c).drop_last() =~= pre);
        if c == '/' {
            let named = seg_is_named(&cur);
            if first.is_none() {
                let is_dot = cur.len() == 1 && cur[0] == '.';
                proof {
                    if cur@ == seq!['.'] {
                        assert(cur@.len() == 1 && cur@[0] == '.');
                    }
                    if is_dot {
                        assert(cur@ =~= seq!['.']);
                    }
                }
                first = Some(is_dot);
            }
            let ghost old_out = out@;
            let ghost old_cur = cur@;
            if named {
                out.push(cur);
            }
            cur = Vec::new();
            proof {
                let nsegs = split_slash(pre.push(c));
                assert(nsegs == segs.push(Seq::<char>::empty()));
                assert(nsegs.drop_last() =~= segs);
                assert(segs =~= segs.drop_last().push(old_cur));
                assert(segs.drop_last().push(old_cur).drop_last() =~= segs.drop_last());
                if named {
                    assert(views(out@) =~= views(old_out).push(old_cur));
                } else {
                    assert(views(out@) =~= views(old_out));
                }
                assert(nsegs[0] == segs[0]);
            }
        } else {
            let ghost old_cur = cur@;
            cur.push(c);
            proof {
                let nsegs = split_slash(pre.push(c));
                assert(nsegs == segs.update(segs.len() - 1, segs.last().push(c)));
                assert(nsegs.drop_last() =~= segs.drop_last());
                assert(nsegs.len() == segs.len());
                if segs.len() >= 2 {
                    assert(nsegs[0] == segs[0]);
                }
            }
        }
        i += 1;
    }
    let ghost segs = split_slash(v@.subrange(from as int, v@.len() as int));
    let is_first_dot = match first {
        Some(b) => b,
        None => cur.len() == 1 && cur[0] == '.',
    };
    proof {
        if first is None {
            if cur@ == seq!['.'] {
                assert(cur@.len() == 1 && cur@[0] == '.');
            }
            if cur.len() == 1 && cur[0] == '.' {
                assert(cur@ =~= seq!['.']);
            }
        }
    }
    let ghost old_out = out@;
    let ghost old_cur = cur@;
    if seg_is_named(&cur) {
        out.push(cur);
    }
    proof {
        assert(segs =~= segs.drop_last().push(old_cur));
        assert(segs.drop_last().push(old_cur).drop_last() =~= segs.drop_last());
        if is_named(old_cur) {
            assert(views(out@) =~= views(old_out).push(old_cur));
        } else {
            assert(views(out@) =~= views(old_out));
        }
    }
    (out, is_first_dot)
}

proof fn lemma_named_parts_first(segs: Seq<Seq<char>>)
    requires
        segs.len() >= 1,
        segs[0] == seq!['.'],
    ensures
        named_parts(segs) == named_parts(segs.drop_first()),
    decreases segs.len(),
{
    if segs.len() == 1 {
        assert(segs.drop_first() =~= Seq::<Seq<char>>::empty());
        assert(segs.drop_last() =~= Seq::<Seq<char>>::empty());
        assert(!is_named(segs.last()));
    } else {
        lemma_named_parts_first(segs.drop_last());
        assert(segs.drop_last().drop_first() =~= segs.drop_first().drop_last());
        assert(segs.drop_first().last() == segs.last());
    }
}

/// The components of `p`, as `Path::components` yields them.
pub fn path_components(p: &str) -> (res: Vec<Vec<char>>)
    ensures
        views(res@) == components(p@),
{
    let v = chars_of(p);
    if v.len() > 0 && v[0] == '/' {
        let (parts, _) = named_parts_from(&v, 1);
        let mut out: Vec<Vec<char>> = Vec::new();
        let mut root: Vec<char> = Vec::new();
        root.push('/');
        assert(root@ =~= seq!['/']);
        out.push(root);
        let mut rest = parts;
        out.append(&mut rest);
        proof {
            assert(v@.subrange(1, v@.len() as int) =~= v@.drop_first());
            assert(views(out@) =~= seq![seq!['/']] + views(parts@));
        }
        out
    } else {
        let (parts, first_dot) = named_parts_from(&v, 0);
        assert(v@.subrange(0, v@.len() as int) =~= v@);
        if first_dot {
            proof {
                lemma_split_slash_nonempty(v@);
                lemma_named_parts_first(split_slash(v@));
            }
            let mut out: Vec<Vec<char>> = Vec::new();
            let mut dot: Vec<char> = Vec::new();
            dot.push('.');
            assert(dot@ =~= seq!['.']);
            out.push(dot);
            let mut rest = parts;
            out.append(&mut rest);
            proof {
                assert(views(out@) =~= seq![seq!['.']] + views(parts@));
            }
            out
        } else {
            parts
        }
    }
}

/// `PathBuf == PathBuf`.
#[verifier::loop_isolation(false)]
pub fn paths_equal(a: &str, b: &str) -> (res: bool)
    ensures
        res == path_eq(a@, b@),
{
    let ca = path_components(a);
    let cb = path_components(b);
    if ca.len() != cb.len() {
        assert(views(ca@).len() != views(cb@).len());
        return false;
    }
    let mut i: usize = 0;
    while i < ca.len()
        invariant
            0 <= i <= ca.len(),
            ca.len() == cb.len(),
            forall|j: int| 0 <= j < i ==> ca@[j]@ == cb@[j]@,
        decreases ca.len() - i,
    {
        if !seq_eq(&ca[i], &cb[i]) {
            assert(views(ca@)[i as int] == ca@[i as int]@);
            assert(views(cb@)[i as int] == cb@[i as int]@);
            assert(views(ca@) != views(cb@));
            return false;
        }
        i += 1;
    }
    assert(views(ca@) =~= views(cb@));
    true
}

/// `Path::starts_with`.
#[verifier::loop_isolation(false)]
pub fn starts_with_path(p: &str, base: &str) -> (res: bool)
    ensures
        res == path_starts_with(p@, base@),
{
    let cp = path_components(p);
    let cb = path_components(base);
    if cb.len() > cp.len() {
        return false;
    }
    let mut i: usize = 0;
    while i < cb.len()
        invariant
            0 <= i <= cb.len(),
            cb.len() <= cp.len(),
            forall|j: int| 0 <= j < i ==> cp@[j]@ == cb@[j]@,
        decreases cb.len() - i,
    {
        if !seq_eq(&cp[i], &cb[i]) {
            assert(views(cp@).subrange(0, cb.len() as int)[i as int] == cp@[i as int]@);
            assert(views(cb@)[i as int] == cb@[i as int]@);
            assert(views(cp@).subrange(0, cb.len() as int) != views(cb@));
            return false;
        }
        i += 1;
    }
    assert(views(cp@).subrange(0, cb.len() as int) =~= views(cb@));
    true
}

/// `Path::join`, on strings.
pub fn join(a: &str, b: &str) -> (res: String)
    ensures
        res@ == path_join(a@, b@),
{
    let bv = chars_of(b);
    if bv.len() > 0 && bv[0] == '/' {
        return string_of(&bv);
    }
    let av = chars_of(a);
    if av.len() > 0 && av[av.len() - 1] != '/' {
        let mut s = string_of(&av);
        push_char(&mut s, '/');
        let r = concat(&s, b);
        assert(r@ =~= a@ + seq!['/'] + b@);
        r
    } else {
        concat(a, b)
    }
}

/// `Path::file_name`, as the characters of the name.
pub fn file_name_of(p: &str) -> (res: Option<Vec<char>>)
    ensures
        match file_name(p@) {
            Some(n) => res is Some && res->0@ == n,
            None => res is None,
        },
{
    let c = path_components(p);
    if c.len() == 0 {
        return None;
    }
    let last = &c[c.len() - 1];
    assert(last@ == components(p@).last());
    let is_root = last.len() == 1 && last[0] == '/';
    let is_cur = last.len() == 1 && last[0] == '.';
    let is_parent = last.len() == 2 && last[0] == '.' && last[1] == '.';
    proof {
        if is_root {
            assert(last@ =~= seq!['/']);
        }
        if is_cur {
            assert(last@ =~= seq!['.']);
        }
        if is_parent {
            assert(last@ =~= seq!['.', '.']);
        }
        if last@ == seq!['/'] || last@ == seq!['.'] {
            assert(last@.len() == 1);
        }
        if last@ == seq!['.', '.'] {
            assert(last@.len() == 2);
        }
    }
    if is_root || is_cur || is_parent {
        None
    } else {
        Some(last.clone())
    }
}

/// Index of the last `.` in `name`.
pub fn rfind_dot(name: &Vec<char>) -> (res: Option<usize>)
    ensures
        match last_dot(name@) {
            Some(i) => res == Some(i as usize),
            None => res is None,
        },
{
    let mut i = name.len();
    assert(name@.subrange(0, name@.len() as int) =~= name@);
    while i > 0
        invariant
            0 <= i <= name.len(),
            last_dot(name@) == last_dot(name@.subrange(0, i as int)),
        decreases i,
    {
        let ghost pre = name@.subrange(0, i as int);
        assert(pre.drop_last() =~= name@.subrange(0, i - 1));
        if name[i - 1] == '.' {
            return Some(i - 1);
        }
        i -= 1;
    }
    assert(name@.subrange(0, 0) =~= Seq::<char>::empty());
    None
}

/// `Path::extension`, as characters.
pub fn extension_of(p: &str) -> (res: Option<Vec<char>>)
    ensures
        match extension(p@) {
            Some(e) => res is Some && res->0@ == e,
            None => res is None,
        },
{
    let name = match file_name_of(p) {
        None => return None,
        Some(n) => n,
    };
    assert(file_name(p@) == Some(name@));
    proof {
        lemma_last_dot(name@);
    }
    let i = match rfind_dot(&name) {
        None => {
            assert(last_dot(name@) is None);
            return None;
        },
        Some(i) => i,
    };
    assert(last_dot(name@) == Some(i as int));
    if i == 0 {
        assert(name_extension(name@) is None);
        return None;
    }
    let e = suffix_from(&name, i + 1);
    assert(name_extension(name@) == Some(e@));
    Some(e)
}

/// `v[from..]`.
pub fn suffix_from(v: &Vec<char>, from: usize) -> (res: Vec<char>)
    requires
        from <= v.len(),
    ensures
        res@ == v@.subrange(from as int, v@.len() as int),
{
    let mut e: Vec<char> = Vec::new();
    let mut k = from;
    while k < v.len()
        invariant
            from <= k <= v.len(),
            e@ == v@.subrange(from as int, k as int),
        decreases v.len() - k,
    {
        e.push(v[k]);
        assert(v@.subrange(from as int, k + 1) =~= v@.subrange(from as int, k as int).push(
            v@[k as int],
        ));
        k += 1;
    }
    e
}


pub open spec fn views_of_strings(v: Seq<String>) -> Seq<Seq<char>> {
    v.map_values(|x: String| x@)
}

/// A copy of a list of strings.
pub fn clone_strings(v: &[String]) -> (res: Vec<String>)
    ensures
        views_of_strings(res@) == views_of_strings(v@),
{
    let mut out: Vec<String> = Vec::new();
    let mut i: usize = 0;
    while i < v.len()
        invariant
            0 <= i <= v.len(),
            views_of_strings(out@) == views_of_strings(v@.subrange(0, i as int)),
        decreases v.len() - i,
    {
        out.push(v[i].clone());
        assert(views_of_strings(v@.subrange(0, i + 1)) =~= views_of_strings(
            v@.subrange(0, i as int),
        ).push(v@[i as int]@));
        assert(views_of_strings(out@) =~= views_of_strings(v@.subrange(0, i + 1)));
        i += 1;
    }
    assert(v@.subrange(0, v@.len() as int) =~= v@);
    out
}


/// Components written back out with `/` between them.
pub open spec fn join_slash(c: Seq<Seq<char>>) -> Seq<char>
    decreases c.len(),
{
    if c.len() == 0 {
        Seq::empty()
    } else if c.len() == 1 {
        c[0]
    } else {
        join_slash(c.drop_last()) + seq!['/'] + c.last()
    }
}

/// The path whose components are `c`.
pub open spec fn build_path(c: Seq<Seq<char>>) -> Seq<char> {
    if c.len() > 0 && c[0] == seq!['/'] {
        seq!['/'] + join_slash(c.drop_first())
    } else {
        join_slash(c)
    }
}

/// `Path::parent`: none for an empty path or the root, else the path of all
/// components but the last.
pub open spec fn parent(p: Seq<char>) -> Option<Seq<char>> {
    let c = components(p);
    if c.len() == 0 || c.last() == seq!['/'] {
        None
    } else {
        Some(build_path(c.drop_last()))
    }
}

fn join_slash_exec(c: &Vec<Vec<char>>, from: usize) -> (res: Vec<char>)
    requires
        from <= c.len(),
    ensures
        res@ == join_slash(views(c@).subrange(from as int, c@.len() as int)),
{
    let mut out: Vec<char> = Vec::new();
    let mut i = from;
    proof {
        assert(views(c@).subrange(from as int, from as int) =~= Seq::<Seq<char>>::empty());
    }
    while i < c.len()
        invariant
            from <= i <= c.len(),
            out@ == join_slash(views(c@).subrange(from as int, i as int)),
        decreases c.len() - i,
    {
        let ghost pre = views(c@).subrange(from as int, i as int);
        let ghost nxt = views(c@).subrange(from as int, i + 1);
        assert(nxt.drop_last() =~= pre);
        assert(nxt.last() == c@[i as int]@);
        if i > from {
            out.push('/');
        }
        let part = &c[i];
        let mut k: usize = 0;
        let ghost base = out@;
        while k < part.len()
            invariant
                0 <= k <= part.len(),
                out@ == base + part@.subrange(0, k as int),
            decreases part.len() - k,
        {
            out.push(part[k]);
            assert(part@.subrange(0, k + 1) =~= part@.subrange(0, k as int).push(part@[k as int]));
            k += 1;
        }
        assert(part@.subrange(0, part@.len() as int) =~= part@);
        proof {
            if i == from {
                assert(pre.len() == 0);
                assert(nxt.len() == 1);
                assert(out@ =~= nxt[0]);
            } else {
                assert(out@ =~= join_slash(pre) + seq!['/'] + nxt.last());
            }
        }
        i += 1;
    }
    out
}

/// `Path::parent`.
pub fn parent_of(p: &str) -> (res: Option<String>)
    ensures
        match parent(p@) {
            Some(q) => res is Some && res->0@ == q,
            None => res is None,
        },
{
    let c = path_components(p);
    if c.len() == 0 {
        return None;
    }
    let last = &c[c.len() - 1];
    assert(views(c@).last() == last@);
    if last.len() == 1 && last[0] == '/' {
        assert(last@ =~= seq!['/']);
        return None;
    }
    assert(last@ != seq!['/']) by {
        if last@ == seq!['/'] {
            assert(last@.len() == 1 && last@[0] == '/');
        }
    }
    let mut rest: Vec<Vec<char>> = Vec::new();
    let mut i: usize = 0;
    while i + 1 < c.len()
        invariant
            0 <= i < c.len(),
            views(rest@) == views(c@).subrange(0, i as int),
        decreases c.len() - i,
    {
        let copy = suffix_from(&c[i], 0);
        assert(c@[i as int]@.subrange(0, c@[i as int]@.len() as int) =~= c@[i as int]@);
        let ghost old_rest = rest@;
        rest.push(copy);
        assert(views(rest@) =~= views(old_rest).push(c@[i as int]@));
        assert(views(c@)[i as int] == c@[i as int]@);
        assert(views(rest@) =~= views(c@).subrange(0, i + 1));
        i += 1;
    }
    let ghost d = views(c@).drop_last();
    assert(views(rest@) =~= d);
    let rooted = rest.len() > 0 && rest[0].len() == 1 && rest[0][0] == '/';
    proof {
        if rest.len() > 0 {
            assert(d[0] == rest@[0]@);
            if rooted {
                assert(d[0] =~= seq!['/']);
            }
            if d[0] == seq!['/'] {
                assert(d[0].len() == 1 && d[0][0] == '/');
            }
        }
    }
    if rooted {
        let body = join_slash_exec(&rest, 1);
        let mut out: Vec<char> = Vec::new();
        out.push('/');
        let mut b = body;
        let ghost bv = b@;
        out.append(&mut b);
        assert(views(rest@).subrange(1, rest@.len() as int) =~= d.drop_first());
        assert(out@ =~= seq!['/'] + join_slash(d.drop_first()));
        Some(crate::text::string_of(&out))
    } else {
        let body = join_slash_exec(&rest, 0);
        assert(views(rest@).subrange(0, rest@.len() as int) =~= d);
        Some(crate::text::string_of(&body))
    }
}

} // verus!
