//! The file panel's cut/copy clipboard.
use vstd::prelude::*;

use crate::paths::views_of_strings;

verus! {

#[derive(Clone, Copy, Debug, PartialEq, Eq, Structural)]
pub enum ClipMode {
    Copy,
    Cut,
}

/// Paths waiting to be pasted, and whether they were copied or cut.
#[derive(Debug)]
pub struct Clipboard {
    paths: Vec<String>,
    mode: Option<ClipMode>,
}

impl Clipboard {
    pub closed spec fn held(&self) -> Seq<Seq<char>> {
        views_of_strings(self.paths@)
    }

    pub closed spec fn held_mode(&self) -> Option<ClipMode> {
        self.mode
    }

    /// An empty clipboard.
    pub fn new() -> (res: Self)
        ensures
            res.held() == Seq::<Seq<char>>::empty(),
            res.held_mode() is None,
    {
        let c = Clipboard { paths: Vec::new(), mode: None };
        assert(c.held() =~= Seq::<Seq<char>>::empty());
        c
    }

    pub fn set(&mut self, paths: Vec<String>, mode: ClipMode)
        ensures
            final(self).held() == views_of_strings(paths@),
            final(self).held_mode() == Some(mode),
    {
        self.paths = paths;
        self.mode = Some(mode);
    }

    pub fn paths(&self) -> (res: &[String])
        ensures
            views_of_strings(res@) == self.held(),
    {
        self.paths.as_slice()
    }

    pub fn mode(&self) -> (res: Option<ClipMode>)
        ensures
            res == self.held_mode(),
    {
        self.mode
    }

    pub fn is_empty(&self) -> (res: bool)
        ensures
            res == (self.held().len() == 0),
    {
        self.paths.len() == 0
    }

    /// Hands out what is held; a cut empties the clipboard, a copy keeps it.
    pub fn take_for_paste(&mut self) -> (res: (Vec<String>, Option<ClipMode>))
        ensures
            views_of_strings(res.0@) == old(self).held(),
            res.1 == old(self).held_mode(),
            old(self).held_mode() == Some(ClipMode::Cut) ==> final(self).held().len() == 0
                && final(self).held_mode() is None,
            old(self).held_mode() != Some(ClipMode::Cut) ==> final(self).held() == old(
                self,
            ).held() && final(self).held_mode() == old(self).held_mode(),
    {
        let paths = crate::paths::clone_strings(self.paths.as_slice());
        let mode = self.mode;
        if mode == Some(ClipMode::Cut) {
            self.paths = Vec::new();
            self.mode = None;
            assert(self.held() =~= Seq::<Seq<char>>::empty());
        }
        (paths, mode)
    }

    pub fn clear(&mut self)
        ensures
            final(self).held().len() == 0,
            final(self).held_mode() is None,
    {
        self.paths = Vec::new();
        self.mode = None;
        assert(self.held() =~= Seq::<Seq<char>>::empty());
    }
}

impl Default for Clipboard {
    fn default() -> (res: Self)
        ensures
            res.held().len() == 0,
            res.held_mode() is None,
    {
        Clipboard::new()
    }
}

} // verus!
