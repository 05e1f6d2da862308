//! Reading `git status --porcelain=v2 -z` output.
use vstd::prelude::*;
use vstd::utf8::{decode_utf8, valid_utf8};

use crate::file_panel::model::GitStatus;
use crate::paths::{join, path_join};
use crate::text::utf8_text;

verus! {

/// What failed when asking git for the status.
#[derive(Debug)]
pub enum GitError {
    Timeout,
    Spawn(String),
    NonZero(i32),
}

/// `bytes` cut at every `sep`.
pub open spec fn split_bytes(s: Seq<u8>, sep: u8) -> Seq<Seq<u8>>
    decreases s.len(),
{
    if s.len() == 0 {
        seq![Seq::<u8>::empty()]
    } else if s.last() == sep {
        split_bytes(s.drop_last(), sep).push(Seq::<u8>::empty())
    } else {
        let t = split_bytes(s.drop_last(), sep);
        t.update(t.len() - 1, t.last().push(s.last()))
    }
}

pub proof fn lemma_split_bytes_nonempty(s: Seq<u8>, sep: u8)
    ensures
        split_bytes(s, sep).len() >= 1,
    decreases s.len(),
{
    if s.len() > 0 {
        lemma_split_bytes_nonempty(s.drop_last(), sep);
    }
}

/// Index of the first `sep` in `s`.
pub open spec fn first_sep(s: Seq<u8>, sep: u8) -> Option<int>
    decreases s.len(),
{
    if s.len() == 0 {
        None
    } else if s[0] == sep {
        Some(0)
    } else {
        match first_sep(s.drop_first(), sep) {
            Some(i) => Some(i + 1),
            None => None,
        }
    }
}

/// `slice::splitn(n, |b| b == sep)`: at most `n` pieces, the last holding the rest.
pub open spec fn splitn_bytes(s: Seq<u8>, n: nat, sep: u8) -> Seq<Seq<u8>>
    decreases n,
{
    if n <= 1 {
        seq![s]
    } else {
        match first_sep(s, sep) {
            None => seq![s],
            Some(i) => seq![s.subrange(0, i)] + splitn_bytes(
                s.subrange(i + 1, s.len() as int),
                (n - 1) as nat,
                sep,
            ),
        }
    }
}

pub proof fn lemma_first_sep(s: Seq<u8>, sep: u8)
    ensures
        match first_sep(s, sep) {
            Some(i) => 0 <= i < s.len() && s[i] == sep && forall|j: int| 0 <= j < i ==> s[j] != sep,
            None => forall|j: int| 0 <= j < s.len() ==> s[j] != sep,
        },
    decreases s.len(),
{
    if s.len() > 0 && s[0] != sep {
        lemma_first_sep(s.drop_first(), sep);
        match first_sep(s.drop_first(), sep) {
            Some(i) => {
                assert forall|j: int| 0 <= j < i + 1 implies s[j] != sep by {
                    if j > 0 {
                        assert(s[j] == s.drop_first()[j - 1]);
                    }
                }
            },
            None => {
                assert forall|j: int| 0 <= j < s.len() implies s[j] != sep by {
                    if j > 0 {
                        assert(s[j] == s.drop_first()[j - 1]);
                    }
                }
            },
        }
    }
}

/// The text that `str::from_utf8(bytes).unwrap_or("")` gives.
pub open spec fn utf8_or_empty(b: Seq<u8>) -> Seq<char> {
    if valid_utf8(b) {
        decode_utf8(b)
    } else {
        Seq::empty()
    }
}

pub open spec fn status_from_xy_spec(xy: Seq<u8>) -> GitStatus {
    if xy.len() != 2 {
        GitStatus::Modified
    } else if xy[0] == 65 || xy[1] == 65 {
        GitStatus::Added
    } else if xy[0] == 68 || xy[1] == 68 {
        GitStatus::Deleted
    } else {
        GitStatus::Modified
    }
}

fn status_from_xy(xy: &Vec<u8>) -> (res: GitStatus)
    ensures
        res == status_from_xy_spec(xy@),
{
    if xy.len() != 2 {
        return GitStatus::Modified;
    }
    let x = xy[0];
    let y = xy[1];
    if x == 65 || y == 65 {
        GitStatus::Added
    } else if x == 68 || y == 68 {
        GitStatus::Deleted
    } else {
        GitStatus::Modified
    }
}

/// Law: an ordinary entry (`1` or `2`) whose `XY` field has `A` in either
/// column is Added; else one with `D` in either column is Deleted; else it is
/// Modified. Its path is the ninth field, joined onto the root.
pub proof fn ordinary_entry_status(root: Seq<char>, e: Seq<u8>, x: u8, y: u8)
    requires
        e.len() > 0,
        e[0] == 49 || e[0] == 50,
        splitn_bytes(e, 9, 32).len() >= 9,
        splitn_bytes(e, 9, 32)[1] == seq![x, y],
    ensures
        entry_status(root, e) == Some((
            path_join(root, utf8_or_empty(splitn_bytes(e, 9, 32)[8])),
            if x == 65 || y == 65 {
                GitStatus::Added
            } else if x == 68 || y == 68 {
                GitStatus::Deleted
            } else {
                GitStatus::Modified
            },
        )),
{
}

/// Law: an untracked entry (`? path`) is Untracked, an ignored one
/// (`! path`) Ignored, an unmerged one (`u ...`) a Conflict on its last
/// field; entries of any other kind report nothing.
pub proof fn other_entry_statuses(root: Seq<char>, e: Seq<u8>)
    requires
        e.len() >= 2,
    ensures
        e[0] == 63 ==> entry_status(root, e) == Some((path_join(root, utf8_or_empty(e.subrange(2, e.len() as int))), GitStatus::Untracked)),
        e[0] == 33 ==> entry_status(root, e) == Some((path_join(root, utf8_or_empty(e.subrange(2, e.len() as int))), GitStatus::Ignored)),
        e[0] == 117 ==> (entry_status(root, e) matches Some(p) && p.1 == GitStatus::Conflict),
        e[0] != 49 && e[0] != 50 && e[0] != 63 && e[0] != 33 && e[0] != 117 ==> entry_status(root, e) is None,
{
}

/// What one entry of the output says: the path it names (under `root`) and
/// its status; nothing for an empty, short or unknown entry.
pub open spec fn entry_status(root: Seq<char>, e: Seq<u8>) -> Option<(Seq<char>, GitStatus)> {
    if e.len() == 0 {
        None
    } else if e[0] == 49 || e[0] == 50 {
        let parts = splitn_bytes(e, 9, 32);
        if parts.len() < 9 {
            None
        } else {
            Some((path_join(root, utf8_or_empty(parts[8])), status_from_xy_spec(parts[1])))
        }
    } else if e[0] == 63 {
        Some((path_join(root, utf8_or_empty(e.subrange(2, e.len() as int))), GitStatus::Untracked))
    } else if e[0] == 33 {
        Some((path_join(root, utf8_or_empty(e.subrange(2, e.len() as int))), GitStatus::Ignored))
    } else if e[0] == 117 {
        let parts = splitn_bytes(e, 11, 32);
        Some((path_join(root, utf8_or_empty(parts.last())), GitStatus::Conflict))
    } else {
        None
    }
}

/// The statuses of the first `n` entries, in order.
pub open spec fn statuses(root: Seq<char>, entries: Seq<Seq<u8>>, n: int) -> Seq<
    (Seq<char>, GitStatus),
>
    decreases n,
{
    if n <= 0 {
        Seq::empty()
    } else {
        match entry_status(root, entries[n - 1]) {
            Some(p) => statuses(root, entries, n - 1).push(p),
            None => statuses(root, entries, n - 1),
        }
    }
}

/// The statuses that the whole output reports, in order of appearance.
pub open spec fn porcelain_statuses(root: Seq<char>, output: Seq<u8>) -> Seq<
    (Seq<char>, GitStatus),
> {
    let entries = split_bytes(output, 0);
    statuses(root, entries, entries.len() as int)
}

/// Output that git can write: every `?` and `!` entry has a path after its marker.
pub open spec fn well_formed_output(output: Seq<u8>) -> bool {
    forall|i: int|
        0 <= i < split_bytes(output, 0).len() ==> {
            let e = #[trigger] split_bytes(output, 0)[i];
            e.len() > 0 && (e[0] == 63 || e[0] == 33) ==> e.len() >= 2
        }
}

/// Pairs `(path, status)` with their views.
pub open spec fn pair_views(v: Seq<(String, GitStatus)>) -> Seq<(Seq<char>, GitStatus)> {
    v.map_values(|p: (String, GitStatus)| (p.0@, p.1))
}

/// Cuts `s` at every `sep`.
pub fn split_on_byte(s: &[u8], sep: u8) -> (res: Vec<Vec<u8>>)
    ensures
        res@.map_values(|x: Vec<u8>| x@) == split_bytes(s@, sep),
{
    let mut out: Vec<Vec<u8>> = Vec::new();
    let mut cur: Vec<u8> = Vec::new();
    let mut i: usize = 0;
    assert(s@.subrange(0, 0) =~= Seq::<u8>::empty());
    while i < s.len()
        invariant
            0 <= i <= s.len(),
            out@.map_values(|x: Vec<u8>| x@).push(cur@) == split_bytes(
                s@.subrange(0, i as int),
                sep,
            ),
        decreases s.len() - i,
    {
        let ghost pre = s@.subrange(0, i as int);
        let b = s[i];
        assert(s@.subrange(0, i + 1) =~= pre.push(b));
        assert(pre.push(b).drop_last() =~= pre);
        let ghost old_out = out@;
        let ghost old_cur = cur@;
        if b == sep {
            out.push(cur);
            cur = Vec::new();
            assert(out@.map_values(|x: Vec<u8>| x@) =~= old_out.map_values(|x: Vec<u8>| x@).push(
                old_cur,
            ));
            assert(out@.map_values(|x: Vec<u8>| x@).push(cur@) =~= split_bytes(pre, sep).push(
                Seq::<u8>::empty(),
            ));
        } else {
            cur.push(b);
            let ghost t = split_bytes(pre, sep);
            assert(out@.map_values(|x: Vec<u8>| x@).push(cur@) =~= t.update(
                t.len() - 1,
                t.last().push(b),
            ));
        }
        i += 1;
    }
    assert(s@.subrange(0, s@.len() as int) =~= s@);
    out.push(cur);
    out
}

/// Index of the first `sep` in `v[from..]`, counted from the start of `v`.
fn find_byte(v: &Vec<u8>, from: usize, sep: u8) -> (res: Option<usize>)
    requires
        from <= v.len(),
    ensures
        match first_sep(v@.subrange(from as int, v@.len() as int), sep) {
            Some(i) => res == Some((from + i) as usize),
            None => res is None,
        },
{
    let ghost sub = v@.subrange(from as int, v@.len() as int);
    proof {
        lemma_first_sep(sub, sep);
    }
    let mut i = from;
    while i < v.len()
        invariant
            from <= i <= v.len(),
            sub == v@.subrange(from as int, v@.len() as int),
            forall|j: int| from <= j < i ==> v@[j] != sep,
            match first_sep(sub, sep) {
                Some(k) => 0 <= k < sub.len() && sub[k] == sep && forall|j: int|
                    0 <= j < k ==> sub[j] != sep,
                None => forall|j: int| 0 <= j < sub.len() ==> sub[j] != sep,
            },
        decreases v.len() - i,
    {
        if v[i] == sep {
            proof {
                assert(sub[i - from] == sep);
                match first_sep(sub, sep) {
                    Some(k) => {
                        if k < i - from {
                            assert(sub[k] == v@[from + k]);
                        }
                    },
                    None => {},
                }
            }
            return Some(i);
        }
        i += 1;
    }
    proof {
        match first_sep(sub, sep) {
            Some(k) => {
                assert(sub[k] == v@[from + k]);
            },
            None => {},
        }
    }
    None
}

/// `v[lo..hi]` as a new vector.
fn sub_bytes(v: &Vec<u8>, lo: usize, hi: usize) -> (res: Vec<u8>)
    requires
        lo <= hi <= v.len(),
    ensures
        res@ == v@.subrange(lo as int, hi as int),
{
    let mut out: Vec<u8> = Vec::new();
    let mut i = lo;
    while i < hi
        invariant
            lo <= i <= hi <= v.len(),
            out@ == v@.subrange(lo as int, i as int),
        decreases hi - i,
    {
        out.push(v[i]);
        assert(v@.subrange(lo as int, i + 1) =~= v@.subrange(lo as int, i as int).push(v@[i as int]));
        i += 1;
    }
    out
}

/// `slice::splitn(n, |b| b == sep)` of `v[from..]`.
fn splitn_from(v: &Vec<u8>, from: usize, n: usize, sep: u8) -> (res: Vec<Vec<u8>>)
    requires
        from <= v.len(),
    ensures
        res@.map_values(|x: Vec<u8>| x@) == splitn_bytes(
            v@.subrange(from as int, v@.len() as int),
            n as nat,
            sep,
        ),
    decreases n,
{
    let ghost sub = v@.subrange(from as int, v@.len() as int);
    if n <= 1 {
        let mut out: Vec<Vec<u8>> = Vec::new();
        out.push(sub_bytes(v, from, v.len()));
        assert(out@.map_values(|x: Vec<u8>| x@) =~= seq![sub]);
        return out;
    }
    match find_byte(v, from, sep) {
        None => {
            let mut out: Vec<Vec<u8>> = Vec::new();
            out.push(sub_bytes(v, from, v.len()));
            assert(out@.map_values(|x: Vec<u8>| x@) =~= seq![sub]);
            out
        },
        Some(i) => {
            proof {
                lemma_first_sep(sub, sep);
            }
            let head = sub_bytes(v, from, i);
            let rest = splitn_from(v, i + 1, n - 1, sep);
            let mut out: Vec<Vec<u8>> = Vec::new();
            out.push(head);
            let mut r = rest;
            let ghost rv = r@;
            out.append(&mut r);
            proof {
                let k = i - from;
                assert(sub.subrange(0, k) =~= v@.subrange(from as int, i as int));
                assert(sub.subrange(k + 1, sub.len() as int) =~= v@.subrange(
                    i + 1,
                    v@.len() as int,
                ));
                assert(out@.map_values(|x: Vec<u8>| x@) =~= seq![
                    v@.subrange(from as int, i as int),
                ] + rv.map_values(|x: Vec<u8>| x@));
            }
            out
        },
    }
}

fn entry_status_exec(root: &str, e: &Vec<u8>) -> (res: Option<(String, GitStatus)>)
    requires
        e.len() > 0 && (e[0] == 63 || e[0] == 33) ==> e.len() >= 2,
    ensures
        match entry_status(root@, e@) {
            Some(p) => match res {
                Some(r) => r.0@ == p.0 && r.1 == p.1,
                None => false,
            },
            None => res is None,
        },
{
    assert(e@.subrange(0, e@.len() as int) =~= e@);
    if e.len() == 0 {
        return None;
    }
    let first = e[0];
    if first == 49 || first == 50 {
        let parts = splitn_from(e, 0, 9, 32);
        if parts.len() < 9 {
            return None;
        }
        let xy = status_from_xy(&parts[1]);
        let text = match utf8_text(parts[8].as_slice()) {
            Some(t) => t,
            None => String::new(),
        };
        Some((join(root, &text), xy))
    } else if first == 63 || first == 33 {
        let rest = sub_bytes(e, 2, e.len());
        let text = match utf8_text(rest.as_slice()) {
            Some(t) => t,
            None => String::new(),
        };
        let status = if first == 63 {
            GitStatus::Untracked
        } else {
            GitStatus::Ignored
        };
        Some((join(root, &text), status))
    } else if first == 117 {
        let parts = splitn_from(e, 0, 11, 32);
        proof {
            lemma_splitn_nonempty(e@, 11, 32);
        }
        let last = &parts[parts.len() - 1];
        let text = match utf8_text(last.as_slice()) {
            Some(t) => t,
            None => String::new(),
        };
        Some((join(root, &text), GitStatus::Conflict))
    } else {
        None
    }
}

proof fn lemma_splitn_nonempty(s: Seq<u8>, n: nat, sep: u8)
    ensures
        splitn_bytes(s, n, sep).len() >= 1,
    decreases n,
{
    if n > 1 {
        match first_sep(s, sep) {
            Some(i) => {
                lemma_splitn_nonempty(s.subrange(i + 1, s.len() as int), (n - 1) as nat, sep);
            },
            None => {},
        }
    }
}

/// The statuses that `git status --porcelain=v2 -z` reports, each path joined
/// onto `root`, in the order of the output (a later entry for a path
/// overrides an earlier one when they are gathered into a map).
pub fn parse_porcelain_v2(root: &str, output: &[u8]) -> (res: Vec<(String, GitStatus)>)
    requires
        well_formed_output(output@),
    ensures
        pair_views(res@) == porcelain_statuses(root@, output@),
{
    let entries = split_on_byte(output, 0);
    let ghost ev = entries@.map_values(|x: Vec<u8>| x@);
    let mut out: Vec<(String, GitStatus)> = Vec::new();
    let mut i: usize = 0;
    while i < entries.len()
        invariant
            0 <= i <= entries.len(),
            ev == entries@.map_values(|x: Vec<u8>| x@),
            ev == split_bytes(output@, 0),
            well_formed_output(output@),
            pair_views(out@) == statuses(root@, ev, i as int),
        decreases entries.len() - i,
    {
        assert(ev[i as int] == entries@[i as int]@);
        let r = entry_status_exec(root, &entries[i]);
        let ghost old_out = out@;
        match r {
            Some(p) => {
                out.push(p);
                assert(pair_views(out@) =~= pair_views(old_out).push((p.0@, p.1)));
            },
            None => {},
        }
        i += 1;
    }
    out
}

/// Whether `output` is such that `parse_porcelain_v2` can read it: no `?` or
/// `!` entry stops right after its marker.
pub fn is_well_formed_output(output: &[u8]) -> (res: bool)
    ensures
        res == well_formed_output(output@),
{
    let entries = split_on_byte(output, 0);
    let ghost ev = entries@.map_values(|x: Vec<u8>| x@);
    let mut i: usize = 0;
    while i < entries.len()
        invariant
            0 <= i <= entries.len(),
            ev == entries@.map_values(|x: Vec<u8>| x@),
            ev == split_bytes(output@, 0),
            forall|j: int|
                0 <= j < i ==> {
                    let e = #[trigger] ev[j];
                    e.len() > 0 && (e[0] == 63 || e[0] == 33) ==> e.len() >= 2
                },
        decreases entries.len() - i,
    {
        assert(ev[i as int] == entries@[i as int]@);
        let e = &entries[i];
        if e.len() == 1 && (e[0] == 63 || e[0] == 33) {
            assert(!({
                let e2 = ev[i as int];
                e2.len() > 0 && (e2[0] == 63 || e2[0] == 33) ==> e2.len() >= 2
            }));
            return false;
        }
        i += 1;
    }
    true
}

/// Whether a `git status` run is under way, and whether another was asked
/// for meanwhile.
#[derive(Clone, Copy, Debug, PartialEq, Eq, Structural)]
pub struct GitRefresh {
    pub in_flight: bool,
    pub rerun_pending: bool,
}

/// A request: whether a run starts, and the state after it.
pub open spec fn request_spec(s: GitRefresh) -> (GitRefresh, bool) {
    if s.in_flight {
        (GitRefresh { in_flight: true, rerun_pending: true }, false)
    } else {
        (GitRefresh { in_flight: true, rerun_pending: s.rerun_pending }, true)
    }
}

/// A run ending with a result: the state after it, and whether to run again.
pub open spec fn finished_spec(s: GitRefresh) -> (GitRefresh, bool) {
    (GitRefresh { in_flight: false, rerun_pending: false }, s.rerun_pending)
}

impl GitRefresh {
    pub fn new() -> (res: GitRefresh)
        ensures
            !res.in_flight && !res.rerun_pending,
    {
        GitRefresh { in_flight: false, rerun_pending: false }
    }

    /// A refresh is asked for: it starts (`true`) unless one is running, in
    /// which case it is remembered for when that one ends.
    pub fn request(&mut self) -> (start: bool)
        ensures
            (*final(self), start) == request_spec(*old(self)),
    {
        if self.in_flight {
            self.rerun_pending = true;
            false
        } else {
            self.in_flight = true;
            true
        }
    }

    /// The run ended with a result: says whether to run again.
    pub fn finished(&mut self) -> (rerun: bool)
        ensures
            (*final(self), rerun) == finished_spec(*old(self)),
    {
        let rerun = self.rerun_pending;
        self.in_flight = false;
        self.rerun_pending = false;
        rerun
    }

    /// The run ended without a result: nothing is pending any more.
    pub fn abandoned(&mut self)
        ensures
            !final(self).in_flight && !final(self).rerun_pending,
    {
        self.in_flight = false;
        self.rerun_pending = false;
    }
}

/// Law: at most one run at a time, and a request made during a run is not
/// lost: it starts nothing, and the run's end asks for one more.
pub proof fn request_during_run_reruns(s: GitRefresh)
    requires
        s.in_flight,
    ensures
        !request_spec(s).1,
        finished_spec(request_spec(s).0).1,
{
}

/// Law: a request when idle starts a run, and with nothing asked meanwhile
/// its end asks for no other.
pub proof fn idle_request_runs_once(s: GitRefresh)
    requires
        !s.in_flight,
        !s.rerun_pending,
    ensures
        request_spec(s).1,
        !finished_spec(request_spec(s).0).1,
{
}

} // verus!
