use vstd::prelude::*;

verus! {

/// The shell started when none is configured or found.
pub const FALLBACK_SHELL: &'static str = "/bin/zsh";

/// Session settings.
#[derive(Debug, Clone)]
pub struct GeneralConfig {
    pub shell: String,
    pub shell_args: Vec<String>,
    pub scrollback_lines: usize,
    pub mouse_reports: bool,
    pub clipboard_access: bool,
    pub bracketed_paste: bool,
}

impl GeneralConfig {
    /// The default settings, with `shell` (as the environment gives it) or
    /// the fallback shell as the shell.
    pub fn with_shell(shell: Option<String>) -> (r: GeneralConfig)
        ensures
            r.shell@ == (match shell {
                Some(s) => s@,
                None => FALLBACK_SHELL@,
            }),
            r.shell_args@.len() == 0,
            r.scrollback_lines == 10000,
            r.mouse_reports,
            r.clipboard_access,
            r.bracketed_paste,
    {
        let shell = match shell {
            Some(s) => s,
            None => FALLBACK_SHELL.to_owned(),
        };
        GeneralConfig {
            shell,
            shell_args: Vec::new(),
            scrollback_lines: 10000,
            mouse_reports: true,
            clipboard_access: true,
            bracketed_paste: true,
        }
    }
}

impl Default for GeneralConfig {
    /// The default settings with the fallback shell.
    fn default() -> (r: GeneralConfig)
        ensures
            r.shell@ == FALLBACK_SHELL@,
            r.shell_args@.len() == 0,
            r.scrollback_lines == 10000,
            r.mouse_reports,
            r.clipboard_access,
            r.bracketed_paste,
    {
        GeneralConfig::with_shell(None)
    }
}

/// How the cursor is drawn.
#[derive(Debug, Clone, Copy, PartialEq, Eq, Structural)]
pub enum CursorStyle {
    Block,
    Underline,
    Beam,
}

impl Default for CursorStyle {
    fn default() -> (r: CursorStyle)
        ensures
            r == CursorStyle::Block,
    {
        CursorStyle::Block
    }
}

/// Colours of the theme, as `#rrggbb` (or `#rrggbbaa`) strings.
#[derive(Debug, Clone)]
pub struct ThemeConfig {
    pub name: String,
    pub background: String,
    pub foreground: String,
    pub cursor: String,
    pub selection: String,
    pub black: String,
    pub red: String,
    pub green: String,
    pub yellow: String,
    pub blue: String,
    pub magenta: String,
    pub cyan: String,
    pub white: String,
    pub bright_black: String,
    pub bright_red: String,
    pub bright_green: String,
    pub bright_yellow: String,
    pub bright_blue: String,
    pub bright_magenta: String,
    pub bright_cyan: String,
    pub bright_white: String,
}

impl Default for ThemeConfig {
    /// The default dark theme.
    fn default() -> (r: ThemeConfig)
        ensures
            r.name@ == "Default Dark"@,
            r.background@ == "#0f0f10"@,
            r.foreground@ == "#e5e5e5"@,
            r.cursor@ == "#e5e5e5"@,
            r.selection@ == "#3366cc44"@,
            r.black@ == "#000000"@,
            r.red@ == "#cd3131"@,
            r.green@ == "#0dbc79"@,
            r.yellow@ == "#e5e510"@,
            r.blue@ == "#2472c8"@,
            r.magenta@ == "#bc3fbc"@,
            r.cyan@ == "#11a8cd"@,
            r.white@ == "#e5e5e5"@,
            r.bright_black@ == "#666666"@,
            r.bright_red@ == "#f14c4c"@,
            r.bright_green@ == "#23d18b"@,
            r.bright_yellow@ == "#f5f543"@,
            r.bright_blue@ == "#3b8eea"@,
            r.bright_magenta@ == "#d670d6"@,
            r.bright_cyan@ == "#29b8db"@,
            r.bright_white@ == "#ffffff"@,
    {
        ThemeConfig {
            name: "Default Dark".to_owned(),
            background: "#0f0f10".to_owned(),
            foreground: "#e5e5e5".to_owned(),
            cursor: "#e5e5e5".to_owned(),
            selection: "#3366cc44".to_owned(),
            black: "#000000".to_owned(),
            red: "#cd3131".to_owned(),
            green: "#0dbc79".to_owned(),
            yellow: "#e5e510".to_owned(),
            blue: "#2472c8".to_owned(),
            magenta: "#bc3fbc".to_owned(),
            cyan: "#11a8cd".to_owned(),
            white: "#e5e5e5".to_owned(),
            bright_black: "#666666".to_owned(),
            bright_red: "#f14c4c".to_owned(),
            bright_green: "#23d18b".to_owned(),
            bright_yellow: "#f5f543".to_owned(),
            bright_blue: "#3b8eea".to_owned(),
            bright_magenta: "#d670d6".to_owned(),
            bright_cyan: "#29b8db".to_owned(),
            bright_white: "#ffffff".to_owned(),
        }
    }
}

/// Key chords of the user interface.
#[derive(Debug, Clone)]
pub struct KeybindingsConfig {
    pub copy: String,
    pub paste: String,
    pub search: String,
    pub new_tab: String,
    pub close_tab: String,
    pub next_tab: String,
    pub prev_tab: String,
    pub zoom_in: String,
    pub zoom_out: String,
    pub zoom_reset: String,
    pub clear_scrollback: String,
}

impl Default for KeybindingsConfig {
    fn default() -> (r: KeybindingsConfig)
        ensures
            r.copy@ == "cmd+c"@,
            r.paste@ == "cmd+v"@,
            r.search@ == "cmd+f"@,
            r.new_tab@ == "cmd+t"@,
            r.close_tab@ == "cmd+w"@,
            r.next_tab@ == "cmd+shift+]"@,
            r.prev_tab@ == "cmd+shift+["@,
            r.zoom_in@ == "cmd+="@,
            r.zoom_out@ == "cmd+-"@,
            r.zoom_reset@ == "cmd+0"@,
            r.clear_scrollback@ == "cmd+k"@,
    {
        KeybindingsConfig {
            copy: "cmd+c".to_owned(),
            paste: "cmd+v".to_owned(),
            search: "cmd+f".to_owned(),
            new_tab: "cmd+t".to_owned(),
            close_tab: "cmd+w".to_owned(),
            next_tab: "cmd+shift+]".to_owned(),
            prev_tab: "cmd+shift+[".to_owned(),
            zoom_in: "cmd+=".to_owned(),
            zoom_out: "cmd+-".to_owned(),
            zoom_reset: "cmd+0".to_owned(),
            clear_scrollback: "cmd+k".to_owned(),
        }
    }
}

/// Rendering budget.
#[derive(Debug, Clone, Copy, PartialEq, Eq, Structural)]
pub struct PerformanceConfig {
    pub gpu_acceleration: bool,
    pub max_fps: u32,
    pub idle_fps: u32,
    pub cache_glyphs: bool,
    pub batch_rendering: bool,
}

impl Default for PerformanceConfig {
    fn default() -> (r: PerformanceConfig)
        ensures
            r == (PerformanceConfig {
                gpu_acceleration: true,
                max_fps: 120,
                idle_fps: 30,
                cache_glyphs: true,
                batch_rendering: true,
            }),
    {
        PerformanceConfig {
            gpu_acceleration: true,
            max_fps: 120,
            idle_fps: 30,
            cache_glyphs: true,
            batch_rendering: true,
        }
    }
}

} // verus!
