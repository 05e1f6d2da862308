//! The style sheet that gives editor views their font.
use vstd::prelude::*;

use crate::editor::settings::ViewConfig;
use crate::text::{chars_of, dec_int, push_dec_i64, push_str, string_of};

verus! {

/// `s` without its double quotes.
pub open spec fn without_quotes(s: Seq<char>) -> Seq<char>
    decreases s.len(),
{
    if s.len() == 0 {
        s
    } else if s.last() == '"' {
        without_quotes(s.drop_last())
    } else {
        without_quotes(s.drop_last()).push(s.last())
    }
}

/// The style sheet for a font family (quotes taken out of it) and a size in
/// points: the editor text and the sticky header use them, each with its
/// fallback fonts.
pub open spec fn editor_css_spec(family: Seq<char>, size: i32) -> Seq<char> {
    let f = without_quotes(family);
    let n = dec_int(size as int);
    ".sourceview, .sourceview text { font-family: \""@ + f
        + "\", \"Lilex\", \"JetBrains Mono\", \"JetBrainsMono Nerd Font\", \"Cascadia Mono\", \"Fira Code\", \"Iosevka\", \"DejaVu Sans Mono\", monospace; font-size: "@
        + n
        + "pt; padding: 6px 12px; line-height: 1.3; letter-spacing: 0; } .lyrux-sticky-header { font-family: \""@
        + f + "\", \"Lilex\", \"JetBrains Mono\", monospace; font-size: "@ + n
        + "pt; padding: 2px 12px; background: alpha(@theme_bg_color, 0.92); color: @theme_fg_color; border-bottom: 1px solid alpha(@theme_fg_color, 0.18); font-weight: 600; }"@
}

fn push_without_quotes(out: &mut Vec<char>, s: &str)
    ensures
        final(out)@ == old(out)@ + without_quotes(s@),
{
    let v = chars_of(s);
    let mut i: usize = 0;
    while i < v.len()
        invariant
            i <= v.len(),
            v@ == s@,
            out@ == old(out)@ + without_quotes(v@.subrange(0, i as int)),
        decreases v.len() - i,
    {
        assert(v@.subrange(0, i + 1).drop_last() =~= v@.subrange(0, i as int));
        if v[i] != '"' {
            out.push(v[i]);
        }
        i += 1;
        assert(out@ =~= old(out)@ + without_quotes(v@.subrange(0, i as int)));
    }
    assert(v@.subrange(0, v@.len() as int) =~= v@);
}

/// The style sheet for the font of `cfg`.
pub fn editor_css(cfg: &ViewConfig) -> (res: String)
    ensures
        res@ == editor_css_spec(cfg.font_family@, cfg.font_size),
{
    let mut out: Vec<char> = Vec::new();
    push_str(&mut out, ".sourceview, .sourceview text { font-family: \"");
    push_without_quotes(&mut out, cfg.font_family.as_str());
    push_str(
        &mut out,
        "\", \"Lilex\", \"JetBrains Mono\", \"JetBrainsMono Nerd Font\", \"Cascadia Mono\", \"Fira Code\", \"Iosevka\", \"DejaVu Sans Mono\", monospace; font-size: ",
    );
    push_dec_i64(&mut out, cfg.font_size as i64);
    push_str(
        &mut out,
        "pt; padding: 6px 12px; line-height: 1.3; letter-spacing: 0; } .lyrux-sticky-header { font-family: \"",
    );
    push_without_quotes(&mut out, cfg.font_family.as_str());
    push_str(&mut out, "\", \"Lilex\", \"JetBrains Mono\", monospace; font-size: ");
    push_dec_i64(&mut out, cfg.font_size as i64);
    push_str(
        &mut out,
        "pt; padding: 2px 12px; background: alpha(@theme_bg_color, 0.92); color: @theme_fg_color; border-bottom: 1px solid alpha(@theme_fg_color, 0.18); font-weight: 600; }",
    );
    let res = string_of(&out);
    assert(res@ =~= editor_css_spec(cfg.font_family@, cfg.font_size));
    res
}

} // verus!
