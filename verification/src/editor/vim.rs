//! Commands typed at the Vim command bar.
use vstd::prelude::*;

use crate::text::{chars_of, is_lit, sub_vec, trim, trim_range};

verus! {

/// What a command-bar command asks for.
#[derive(Clone, Copy, Debug, PartialEq, Eq)]
pub enum VimCommand {
    Write,
    Quit,
    WriteQuit,
    Unknown,
}

/// Length of the leading run of `:`.
pub open spec fn colon_run(s: Seq<char>) -> nat
    decreases s.len(),
{
    if s.len() > 0 && s[0] == ':' {
        1 + colon_run(s.drop_first())
    } else {
        0
    }
}

/// The command once trimmed and stripped of its leading colons.
pub open spec fn command_word(command: Seq<char>) -> Seq<char> {
    let t = trim(command);
    t.subrange(colon_run(t) as int, t.len() as int)
}

pub open spec fn vim_command_spec(command: Seq<char>) -> VimCommand {
    let c = command_word(command);
    if c == "w"@ || c == "write"@ {
        VimCommand::Write
    } else if c == "q"@ || c == "quit"@ {
        VimCommand::Quit
    } else if c == "wq"@ || c == "x"@ || c == "wq!"@ {
        VimCommand::WriteQuit
    } else {
        VimCommand::Unknown
    }
}

proof fn lemma_colon_run_unique(s: Seq<char>, k: int)
    requires
        0 <= k <= s.len(),
        forall|i: int| 0 <= i < k ==> #[trigger] s[i] == ':',
        k < s.len() ==> s[k] != ':',
    ensures
        colon_run(s) == k,
    decreases s.len(),
{
    if k > 0 {
        assert forall|i: int| 0 <= i < k - 1 implies #[trigger] s.drop_first()[i] == ':' by {
            assert(s.drop_first()[i] == s[i + 1]);
        }
        if k - 1 < s.drop_first().len() {
            assert(s.drop_first()[k - 1] == s[k]);
        }
        lemma_colon_run_unique(s.drop_first(), k - 1);
    }
}

/// Reads a command of the Vim command bar: `:w`, `:q`, `:wq` and their long forms.
pub fn parse_command(command: &str) -> (res: VimCommand)
    ensures
        res == vim_command_spec(command@),
{
    let v = chars_of(command);
    let (a, b) = trim_range(&v, 0, v.len());
    assert(v@.subrange(0, v@.len() as int) =~= v@);
    let t = sub_vec(&v, a, b);
    let mut k: usize = 0;
    while k < t.len() && t[k] == ':'
        invariant
            k <= t.len(),
            forall|i: int| 0 <= i < k ==> #[trigger] t@[i] == ':',
        decreases t.len() - k,
    {
        k += 1;
    }
    proof {
        lemma_colon_run_unique(t@, k as int);
    }
    let c = sub_vec(&t, k, t.len());
    if is_lit(&c, "w") || is_lit(&c, "write") {
        VimCommand::Write
    } else if is_lit(&c, "q") || is_lit(&c, "quit") {
        VimCommand::Quit
    } else if is_lit(&c, "wq") || is_lit(&c, "x") || is_lit(&c, "wq!") {
        VimCommand::WriteQuit
    } else {
        VimCommand::Unknown
    }
}

} // verus!
