//! Editor settings and the view configuration they produce.
use vstd::prelude::*;

use crate::editor::themes;

verus! {

#[derive(Clone, Copy, Debug, PartialEq, Eq, Structural)]
pub enum ThemeMode {
    System,
    Manual,
}

impl Default for ThemeMode {
    fn default() -> (res: Self)
        ensures
            res == ThemeMode::Manual,
    {
        ThemeMode::Manual
    }
}

/// How an editor view is set up.
#[derive(Clone, Debug)]
pub struct ViewConfig {
    pub theme_id: String,
    pub font_family: String,
    pub font_size: i32,
    pub tab_width: u32,
    pub insert_spaces: bool,
    pub show_line_numbers: bool,
    pub show_whitespace: bool,
    pub wrap_lines: bool,
    pub auto_indent: bool,
    pub highlight_current_line: bool,
    pub highlight_matching_brackets: bool,
    pub show_indent_guides: bool,
    pub highlight_word_at_cursor: bool,
    pub show_sticky_scroll: bool,
    pub show_minimap: bool,
    pub vim_mode: bool,
}

/// The editor settings the user can change.
#[derive(Clone, Debug, PartialEq)]
pub struct EditorSettings {
    pub theme_mode: ThemeMode,
    pub theme_id: String,
    pub theme_id_dark: String,
    pub theme_id_light: String,
    pub font_family: String,
    pub font_size: i32,
    pub tab_width: u32,
    pub insert_spaces: bool,
    pub show_line_numbers: bool,
    pub show_whitespace: bool,
    pub wrap_lines: bool,
    pub auto_indent: bool,
    pub highlight_current_line: bool,
    pub highlight_matching_brackets: bool,
    pub strip_trailing_whitespace: bool,
    pub ensure_final_newline: bool,
    pub show_indent_guides: bool,
    pub highlight_word_at_cursor: bool,
    pub show_sticky_scroll: bool,
    pub show_minimap: bool,
    pub vim_mode: bool,
    pub fp_show_size: bool,
    pub fp_show_mtime: bool,
}

pub fn default_theme() -> (res: String)
    ensures
        res@ == "lyrux-grey"@,
{
    themes::default_id().to_owned()
}

pub fn default_theme_dark() -> (res: String)
    ensures
        res@ == "lyrux-grey"@,
{
    themes::default_dark_id().to_owned()
}

pub fn default_theme_light() -> (res: String)
    ensures
        res@ == "lyrux-light"@,
{
    themes::default_light_id().to_owned()
}

pub fn default_font_family() -> (res: String)
    ensures
        res@ == "Lilex"@,
{
    "Lilex".to_owned()
}

pub fn default_font_size() -> (res: i32)
    ensures
        res == 12,
{
    12
}

pub fn default_tab_width() -> (res: u32)
    ensures
        res == 4,
{
    4
}

pub fn default_true() -> (res: bool)
    ensures
        res,
{
    true
}

pub fn default_wrap_lines() -> (res: bool)
    ensures
        !res,
{
    false
}

/// The theme shown: the chosen one in manual mode; in system mode the dark
/// or light one as the desktop prefers (dark when it does not say).
pub open spec fn effective_theme_spec(s: &EditorSettings, system_prefers_dark: Option<bool>) -> Seq<
    char,
> {
    match s.theme_mode {
        ThemeMode::Manual => s.theme_id@,
        ThemeMode::System => match system_prefers_dark {
            Some(false) => s.theme_id_light@,
            _ => s.theme_id_dark@,
        },
    }
}

/// A view configuration that mirrors `s`, with the effective theme.
pub open spec fn view_config_of(
    s: &EditorSettings,
    c: &ViewConfig,
    system_prefers_dark: Option<bool>,
) -> bool {
    &&& c.theme_id@ == effective_theme_spec(s, system_prefers_dark)
    &&& c.font_family@ == s.font_family@
    &&& c.font_size == s.font_size
    &&& c.tab_width == s.tab_width
    &&& c.insert_spaces == s.insert_spaces
    &&& c.show_line_numbers == s.show_line_numbers
    &&& c.show_whitespace == s.show_whitespace
    &&& c.wrap_lines == s.wrap_lines
    &&& c.auto_indent == s.auto_indent
    &&& c.highlight_current_line == s.highlight_current_line
    &&& c.highlight_matching_brackets == s.highlight_matching_brackets
    &&& c.show_indent_guides == s.show_indent_guides
    &&& c.highlight_word_at_cursor == s.highlight_word_at_cursor
    &&& c.show_sticky_scroll == s.show_sticky_scroll
    &&& c.show_minimap == s.show_minimap
    &&& c.vim_mode == s.vim_mode
}

impl EditorSettings {
    pub fn effective_theme_id(&self, system_prefers_dark: Option<bool>) -> (res: String)
        ensures
            res@ == effective_theme_spec(self, system_prefers_dark),
    {
        match self.theme_mode {
            ThemeMode::Manual => self.theme_id.clone(),
            ThemeMode::System => {
                let dark = match system_prefers_dark {
                    Some(d) => d,
                    None => true,
                };
                if dark {
                    self.theme_id_dark.clone()
                } else {
                    self.theme_id_light.clone()
                }
            },
        }
    }

    pub fn to_view_config(&self) -> (res: ViewConfig)
        ensures
            view_config_of(self, &res, None),
    {
        self.to_view_config_with_system_pref(None)
    }

    pub fn to_view_config_with_system_pref(&self, system_prefers_dark: Option<bool>) -> (res:
        ViewConfig)
        ensures
            view_config_of(self, &res, system_prefers_dark),
    {
        ViewConfig {
            theme_id: self.effective_theme_id(system_prefers_dark),
            font_family: self.font_family.clone(),
            font_size: self.font_size,
            tab_width: self.tab_width,
            insert_spaces: self.insert_spaces,
            show_line_numbers: self.show_line_numbers,
            show_whitespace: self.show_whitespace,
            wrap_lines: self.wrap_lines,
            auto_indent: self.auto_indent,
            highlight_current_line: self.highlight_current_line,
            highlight_matching_brackets: self.highlight_matching_brackets,
            show_indent_guides: self.show_indent_guides,
            highlight_word_at_cursor: self.highlight_word_at_cursor,
            show_sticky_scroll: self.show_sticky_scroll,
            show_minimap: self.show_minimap,
            vim_mode: self.vim_mode,
        }
    }
}

/// The settings of a fresh installation.
pub open spec fn is_default_settings(s: &EditorSettings) -> bool {
    &&& s.theme_mode == ThemeMode::Manual
    &&& s.theme_id@ == "lyrux-grey"@
    &&& s.theme_id_dark@ == "lyrux-grey"@
    &&& s.theme_id_light@ == "lyrux-light"@
    &&& s.font_family@ == "Lilex"@
    &&& s.font_size == 12
    &&& s.tab_width == 4
    &&& s.insert_spaces
    &&& s.show_line_numbers
    &&& !s.show_whitespace
    &&& !s.wrap_lines
    &&& s.auto_indent
    &&& s.highlight_current_line
    &&& s.highlight_matching_brackets
    &&& s.strip_trailing_whitespace
    &&& s.ensure_final_newline
    &&& s.show_indent_guides
    &&& s.highlight_word_at_cursor
    &&& s.show_sticky_scroll
    &&& s.show_minimap
    &&& !s.vim_mode
    &&& !s.fp_show_size
    &&& !s.fp_show_mtime
}

impl Default for EditorSettings {
    fn default() -> (res: Self)
        ensures
            is_default_settings(&res),
    {
        EditorSettings {
            theme_mode: ThemeMode::Manual,
            theme_id: default_theme(),
            theme_id_dark: default_theme_dark(),
            theme_id_light: default_theme_light(),
            font_family: default_font_family(),
            font_size: default_font_size(),
            tab_width: default_tab_width(),
            insert_spaces: true,
            show_line_numbers: true,
            show_whitespace: false,
            wrap_lines: false,
            auto_indent: true,
            highlight_current_line: true,
            highlight_matching_brackets: true,
            strip_trailing_whitespace: true,
            ensure_final_newline: true,
            show_indent_guides: true,
            highlight_word_at_cursor: true,
            show_sticky_scroll: true,
            show_minimap: true,
            vim_mode: false,
            fp_show_size: false,
            fp_show_mtime: false,
        }
    }
}

/// The configuration of a view opened before any settings are read.
pub open spec fn is_default_view_config(c: &ViewConfig) -> bool {
    &&& c.theme_id@ == "lyrux-grey"@
    &&& c.font_family@ == "Lilex"@
    &&& c.font_size == 12
    &&& c.tab_width == 4
    &&& c.insert_spaces
    &&& c.show_line_numbers
    &&& !c.show_whitespace
    &&& !c.wrap_lines
    &&& c.auto_indent
    &&& c.highlight_current_line
    &&& c.highlight_matching_brackets
    &&& c.show_indent_guides
    &&& c.highlight_word_at_cursor
    &&& c.show_sticky_scroll
    &&& c.show_minimap
    &&& !c.vim_mode
}

impl Default for ViewConfig {
    fn default() -> (res: Self)
        ensures
            is_default_view_config(&res),
    {
        ViewConfig {
            theme_id: themes::default_id().to_owned(),
            font_family: "Lilex".to_owned(),
            font_size: 12,
            tab_width: 4,
            insert_spaces: true,
            show_line_numbers: true,
            show_whitespace: false,
            wrap_lines: false,
            auto_indent: true,
            highlight_current_line: true,
            highlight_matching_brackets: true,
            show_indent_guides: true,
            highlight_word_at_cursor: true,
            show_sticky_scroll: true,
            show_minimap: true,
            vim_mode: false,
        }
    }
}

/// Default settings give the default view, whatever the desktop prefers
/// (the dark and the manual theme coincide).
pub proof fn default_settings_give_default_view(s: &EditorSettings, c: &ViewConfig)
    requires
        is_default_settings(s),
        view_config_of(s, c, None),
    ensures
        is_default_view_config(c),
{
}

} // verus!
