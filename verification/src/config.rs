//! The view settings of the editor and their defaults.

use crate::gutter::{GutterComponents, LineNumberMode};
use vstd::prelude::*;

verus! {

/// The editing mode.
#[derive(Debug, Clone, Copy, PartialEq, Eq, Structural)]
pub enum Mode {
    Normal,
    Select,
    Insert,
}

/// How the cursor is drawn.
#[derive(Debug, Clone, Copy, PartialEq, Eq, Structural)]
pub enum CursorKind {
    Block,
    Bar,
    Underline,
    Hidden,
}

impl Default for CursorKind {
    fn default() -> (k: CursorKind)
        ensures
            k == CursorKind::Block,
    {
        CursorKind::Block
    }
}

/// Whether brackets and quotes are closed automatically, and which.
#[derive(Debug, Clone)]
pub enum AutoPairConfig {
    Enable(bool),
    Pairs(Vec<(char, char)>),
}

impl Default for AutoPairConfig {
    fn default() -> (c: AutoPairConfig)
        ensures
            c matches AutoPairConfig::Enable(true),
    {
        AutoPairConfig::Enable(true)
    }
}

/// The terminal the editor opens programs in: a command and its arguments.
#[derive(Debug, Clone)]
pub struct TerminalConfig {
    pub command: String,
    pub args: Vec<String>,
}

#[derive(Debug, Clone)]
pub struct ViewConfig {
    pub mouse: MouseConfig,
    pub document: DocumentConfig,
    pub lsp: LspConfig,
    pub bufferline: BufferLineConfig,
    pub gutter: GutterConfig,
    pub statusline: StatusLineConfig,
    pub search: SearchConfig,
    pub keymap_suggestions: bool,
    pub shell: Vec<String>,
    pub true_color: bool,
    pub terminal: Option<TerminalConfig>,
}

#[derive(Debug, Clone, Copy, PartialEq, Eq, Structural)]
pub struct MouseConfig {
    pub active: bool,
    pub middle_click_paste: bool,
}

#[derive(Debug, Clone)]
pub struct DocumentConfig {
    pub scroll_config: ScrollConfig,
    pub save: SaveConfig,
    pub insert_mode_config: InsertModeConfig,
    pub whitespace: WhitespaceConfig,
    pub indent_guides: IndentGuidesConfig,
    pub cursor_config: CursorConfig,
    pub column_rulers: Vec<u16>,
}

#[derive(Debug, Clone, Copy, PartialEq, Eq, Structural)]
pub struct ScrollConfig {
    pub scroll_cursor_to_edge_padding: usize,
    pub lines_per_scroll: isize,
}

#[derive(Debug, Clone, Copy, PartialEq, Eq, Structural)]
pub struct SaveConfig {
    pub auto_format_on_save: bool,
    pub auto_save_on_focus_lost: bool,
}

#[derive(Debug, Clone)]
pub struct InsertModeConfig {
    pub auto_pair: AutoPairConfig,
    pub auto_complete: AutoCompleteConfig,
}

#[derive(Debug, Clone, Copy, PartialEq, Eq, Structural)]
pub struct AutoCompleteConfig {
    pub auto_completion_suggestion: bool,
    pub min_len_before_auto_completion_suggestion: u8,
    pub min_idle_ms_before_auto_completion_suggestion: u64,
}

#[derive(Debug, Clone, Copy)]
pub struct CursorConfig {
    pub cursor_shape: CursorShapeConfig,
    pub cursorline: bool,
    pub cursorcolumn: bool,
}

#[derive(Debug, Clone)]
pub struct GutterConfig {
    pub gutter_components: Vec<GutterComponents>,
    pub line_number_mode: LineNumberMode,
}

#[derive(Debug, Clone, Copy, PartialEq, Eq, Structural)]
pub struct SearchPickerConfig {
    pub ignore_hidden: bool,
    pub follow_symlinks: bool,
    pub ingore_file_from_ancestor: bool,
    pub use_dot_ignore: bool,
    pub use_git_ignore: bool,
    pub use_git_global: bool,
    pub use_git_exclude: bool,
    pub max_depth: Option<usize>,
}

#[derive(Debug, Clone, Copy, PartialEq, Eq, Structural)]
pub struct LspConfig {
    pub cmd_row_messages: bool,
    pub signature_help_auto_popup: bool,
    pub display_docs_in_signature_help: bool,
}

#[derive(Debug, Clone, Copy, PartialEq, Eq, Structural)]
pub struct SearchConfig {
    pub smart_case: bool,
    pub wrap_around: bool,
    pub global: SearchPickerConfig,
    pub file: SearchPickerConfig,
}

#[derive(Debug, Clone)]
pub struct StatusLineConfig {
    pub left: Vec<StatusLineElement>,
    pub center: Vec<StatusLineElement>,
    pub right: Vec<StatusLineElement>,
    pub separator: String,
    pub mode_string: ModeString,
    pub color_modes: bool,
}

#[derive(Debug, Clone)]
pub struct ModeString {
    pub normal: String,
    pub insert: String,
    pub select: String,
}

#[derive(Debug, Clone, Copy, PartialEq, Eq, Structural)]
pub enum StatusLineElement {
    Mode,
    LspSpinner,
    FileName,
    FileEncoding,
    FileLineEnding,
    FileType,
    DiagnosticsCount,
    WorkspaceDiagnosticsCount,
    SelectionsCount,
    PrimarySelectionLength,
    CursorPosition,
    CursorPositionPercentage,
    SeparatorString,
    TotalLineNumbers,
    Spacer,
}

#[derive(Debug, Clone, Copy, PartialEq, Eq, Structural)]
pub enum BufferLineConfig {
    Never,
    Always,
    IfMultiple,
}

#[derive(Debug, Clone, Copy, PartialEq, Eq, Structural)]
pub struct WhitespaceConfig {
    pub render: WhitespaceRender,
    pub characters: WhitespaceCharacters,
}

/// Which whitespace is drawn: one setting for all kinds, or one per kind
/// with a default for the kinds not given.
#[derive(Debug, Clone, Copy, PartialEq, Eq, Structural)]
pub enum WhitespaceRender {
    Basic(WhitespaceRenderValue),
    Specific {
        default: Option<WhitespaceRenderValue>,
        space: Option<WhitespaceRenderValue>,
        nbsp: Option<WhitespaceRenderValue>,
        tab: Option<WhitespaceRenderValue>,
        newline: Option<WhitespaceRenderValue>,
    },
}

#[derive(Debug, Clone, Copy, PartialEq, Eq, Structural)]
pub enum WhitespaceRenderValue {
    /// Nothing is drawn.
    Off,
    All,
}

/// The setting for one kind of whitespace: its own, else the default, else `None`.
pub open spec fn render_value(own: Option<WhitespaceRenderValue>, default: Option<WhitespaceRenderValue>) -> WhitespaceRenderValue {
    match own {
        Some(v) => v,
        None => match default {
            Some(v) => v,
            None => WhitespaceRenderValue::Off,
        },
    }
}

fn pick(own: Option<WhitespaceRenderValue>, default: Option<WhitespaceRenderValue>) -> (v: WhitespaceRenderValue)
    ensures
        v == render_value(own, default),
{
    match own {
        Some(v) => v,
        None => match default {
            Some(v) => v,
            None => WhitespaceRenderValue::Off,
        },
    }
}

impl WhitespaceRender {
    /// Whether spaces are drawn.
    pub fn space(&self) -> (v: WhitespaceRenderValue)
        ensures
            v == match *self {
                WhitespaceRender::Basic(val) => val,
                WhitespaceRender::Specific { default, space, .. } => render_value(space, default),
            },
    {
        match *self {
            WhitespaceRender::Basic(val) => val,
            WhitespaceRender::Specific { default, space, .. } => pick(space, default),
        }
    }

    /// Whether non-breaking spaces are drawn.
    pub fn nbsp(&self) -> (v: WhitespaceRenderValue)
        ensures
            v == match *self {
                WhitespaceRender::Basic(val) => val,
                WhitespaceRender::Specific { default, nbsp, .. } => render_value(nbsp, default),
            },
    {
        match *self {
            WhitespaceRender::Basic(val) => val,
            WhitespaceRender::Specific { default, nbsp, .. } => pick(nbsp, default),
        }
    }

    /// Whether tabs are drawn.
    pub fn tab(&self) -> (v: WhitespaceRenderValue)
        ensures
            v == match *self {
                WhitespaceRender::Basic(val) => val,
                WhitespaceRender::Specific { default, tab, .. } => render_value(tab, default),
            },
    {
        match *self {
            WhitespaceRender::Basic(val) => val,
            WhitespaceRender::Specific { default, tab, .. } => pick(tab, default),
        }
    }

    /// Whether line endings are drawn.
    pub fn newline(&self) -> (v: WhitespaceRenderValue)
        ensures
            v == match *self {
                WhitespaceRender::Basic(val) => val,
                WhitespaceRender::Specific { default, newline, .. } => render_value(newline, default),
            },
    {
        match *self {
            WhitespaceRender::Basic(val) => val,
            WhitespaceRender::Specific { default, newline, .. } => pick(newline, default),
        }
    }
}

#[derive(Debug, Clone, Copy, PartialEq, Eq, Structural)]
pub struct WhitespaceCharacters {
    pub space: char,
    pub nbsp: char,
    pub tab: char,
    pub tabpad: char,
    pub newline: char,
}

#[derive(Debug, Clone, Copy, PartialEq, Eq, Structural)]
pub struct IndentGuidesConfig {
    pub render: bool,
    pub character: char,
    pub skip_levels: u8,
}

/// The cursor's shape in each mode, indexed by mode: normal, select, insert.
#[derive(Debug, Clone, Copy)]
pub struct CursorShapeConfig(pub [CursorKind; 3]);

/// The index of `mode` in a `CursorShapeConfig`.
pub open spec fn mode_index(mode: Mode) -> int {
    match mode {
        Mode::Normal => 0,
        Mode::Select => 1,
        Mode::Insert => 2,
    }
}

impl CursorShapeConfig {
    /// The cursor's shape in `mode`.
    pub fn from_mode(&self, mode: Mode) -> (k: CursorKind)
        ensures
            k == self.0@[mode_index(mode)],
    {
        let i: usize = match mode {
            Mode::Normal => 0,
            Mode::Select => 1,
            Mode::Insert => 2,
        };
        self.0[i]
    }
}

fn default_picker() -> (p: SearchPickerConfig)
    ensures
        p == (SearchPickerConfig {
            ignore_hidden: true,
            follow_symlinks: true,
            ingore_file_from_ancestor: true,
            use_dot_ignore: true,
            use_git_ignore: true,
            use_git_global: true,
            use_git_exclude: true,
            max_depth: None,
        }),
{
    SearchPickerConfig {
        ignore_hidden: true,
        follow_symlinks: true,
        ingore_file_from_ancestor: true,
        use_dot_ignore: true,
        use_git_ignore: true,
        use_git_global: true,
        use_git_exclude: true,
        max_depth: None,
    }
}

impl ViewConfig {
    /// The default settings, with `terminal` the terminal found on the
    /// machine (if one was).
    pub fn default_with_terminal(terminal: Option<TerminalConfig>) -> (c: ViewConfig)
        ensures
            c.keymap_suggestions,
            c.mouse == (MouseConfig { active: true, middle_click_paste: true }),
            c.document.scroll_config == (ScrollConfig { scroll_cursor_to_edge_padding: 5, lines_per_scroll: 3 }),
            c.document.save == (SaveConfig { auto_format_on_save: true, auto_save_on_focus_lost: false }),
            c.document.insert_mode_config.auto_pair matches AutoPairConfig::Enable(true),
            c.document.insert_mode_config.auto_complete == (AutoCompleteConfig {
                auto_completion_suggestion: true,
                min_len_before_auto_completion_suggestion: 2,
                min_idle_ms_before_auto_completion_suggestion: 400,
            }),
            c.document.whitespace == (WhitespaceConfig {
                render: WhitespaceRender::Basic(WhitespaceRenderValue::Off),
                characters: WhitespaceCharacters {
                    space: '\u{00B7}',
                    nbsp: '\u{237D}',
                    tab: '\u{2192}',
                    newline: '\u{23CE}',
                    tabpad: ' ',
                },
            }),
            c.document.indent_guides == (IndentGuidesConfig { skip_levels: 0, render: false, character: '\u{2502}' }),
            c.document.cursor_config == (CursorConfig {
                cursor_shape: CursorShapeConfig([CursorKind::Block, CursorKind::Block, CursorKind::Block]),
                cursorline: false,
                cursorcolumn: false,
            }),
            c.document.column_rulers@.len() == 0,
            c.bufferline == BufferLineConfig::Never,
            c.gutter.gutter_components@ == seq![
                GutterComponents::DiagnosticsAndBreakpoints,
                GutterComponents::Spacer,
                GutterComponents::LineNumbers,
                GutterComponents::Spacer,
                GutterComponents::VcsDiff,
            ],
            c.gutter.line_number_mode == LineNumberMode::Absolute,
            c.search.smart_case,
            c.search.wrap_around,
            c.search.global == c.search.file,
            c.search.file == (SearchPickerConfig {
                ignore_hidden: true,
                follow_symlinks: true,
                ingore_file_from_ancestor: true,
                use_dot_ignore: true,
                use_git_ignore: true,
                use_git_global: true,
                use_git_exclude: true,
                max_depth: None,
            }),
            c.statusline.left@ == seq![StatusLineElement::Mode, StatusLineElement::LspSpinner, StatusLineElement::FileName],
            c.statusline.center@.len() == 0,
            c.statusline.right@ == seq![
                StatusLineElement::DiagnosticsCount,
                StatusLineElement::SelectionsCount,
                StatusLineElement::CursorPosition,
                StatusLineElement::FileEncoding,
            ],
            c.statusline.separator@ == "\u{2502}"@,
            c.statusline.mode_string.normal@ == "NOR"@,
            c.statusline.mode_string.insert@ == "INS"@,
            c.statusline.mode_string.select@ == "SEL"@,
            !c.statusline.color_modes,
            c.lsp == (LspConfig { cmd_row_messages: false, signature_help_auto_popup: true, display_docs_in_signature_help: true }),
            c.shell@.len() == 2,
            c.shell@[0]@ == "sh"@,
            c.shell@[1]@ == "-c"@,
            c.terminal == terminal,
            !c.true_color,
    {
        let mut gutter_components = Vec::new();
        gutter_components.push(GutterComponents::DiagnosticsAndBreakpoints);
        gutter_components.push(GutterComponents::Spacer);
        gutter_components.push(GutterComponents::LineNumbers);
        gutter_components.push(GutterComponents::Spacer);
        gutter_components.push(GutterComponents::VcsDiff);
        let mut left = Vec::new();
        left.push(StatusLineElement::Mode);
        left.push(StatusLineElement::LspSpinner);
        left.push(StatusLineElement::FileName);
        let mut right = Vec::new();
        right.push(StatusLineElement::DiagnosticsCount);
        right.push(StatusLineElement::SelectionsCount);
        right.push(StatusLineElement::CursorPosition);
        right.push(StatusLineElement::FileEncoding);
        let mut shell = Vec::new();
        shell.push("sh".to_owned());
        shell.push("-c".to_owned());
        proof {
            assert(gutter_components@ =~= seq![
                GutterComponents::DiagnosticsAndBreakpoints,
                GutterComponents::Spacer,
                GutterComponents::LineNumbers,
                GutterComponents::Spacer,
                GutterComponents::VcsDiff,
            ]);
            assert(left@ =~= seq![StatusLineElement::Mode, StatusLineElement::LspSpinner, StatusLineElement::FileName]);
            assert(right@ =~= seq![
                StatusLineElement::DiagnosticsCount,
                StatusLineElement::SelectionsCount,
                StatusLineElement::CursorPosition,
                StatusLineElement::FileEncoding,
            ]);
        }
        ViewConfig {
            keymap_suggestions: true,
            mouse: MouseConfig { active: true, middle_click_paste: true },
            document: DocumentConfig {
                scroll_config: ScrollConfig { scroll_cursor_to_edge_padding: 5, lines_per_scroll: 3 },
                save: SaveConfig { auto_format_on_save: true, auto_save_on_focus_lost: false },
                insert_mode_config: InsertModeConfig {
                    auto_pair: AutoPairConfig::default(),
                    auto_complete: AutoCompleteConfig {
                        auto_completion_suggestion: true,
                        min_len_before_auto_completion_suggestion: 2,
                        min_idle_ms_before_auto_completion_suggestion: 400,
                    },
                },
                whitespace: WhitespaceConfig {
                    render: WhitespaceRender::Basic(WhitespaceRenderValue::Off),
                    characters: WhitespaceCharacters {
                        space: '\u{00B7}',
                        nbsp: '\u{237D}',
                        tab: '\u{2192}',
                        newline: '\u{23CE}',
                        tabpad: ' ',
                    },
                },
                indent_guides: IndentGuidesConfig { skip_levels: 0, render: false, character: '\u{2502}' },
                cursor_config: CursorConfig {
                    cursor_shape: CursorShapeConfig([CursorKind::Block, CursorKind::Block, CursorKind::Block]),
                    cursorline: false,
                    cursorcolumn: false,
                },
                column_rulers: Vec::new(),
            },
            bufferline: BufferLineConfig::Never,
            gutter: GutterConfig { gutter_components, line_number_mode: LineNumberMode::Absolute },
            search: SearchConfig {
                smart_case: true,
                wrap_around: true,
                global: default_picker(),
                file: default_picker(),
            },
            statusline: StatusLineConfig {
                left,
                center: Vec::new(),
                right,
                separator: String::from_str("\u{2502}"),
                mode_string: ModeString {
                    normal: String::from_str("NOR"),
                    insert: String::from_str("INS"),
                    select: String::from_str("SEL"),
                },
                color_modes: false,
            },
            lsp: LspConfig { cmd_row_messages: false, signature_help_auto_popup: true, display_docs_in_signature_help: true },
            shell,
            terminal,
            true_color: false,
        }
    }
}

/// A tab width read from a configuration: one from 1 to 16 is kept; any
/// other is refused with the message saying so.
pub fn deserialize_tab_width(n: usize) -> (r: Result<usize, String>)
    ensures
        1 <= n <= 16 ==> r == Ok::<usize, String>(n),
        !(1 <= n <= 16) ==> (r matches Err(e) && e@ == "tab width must be a value from 1 to 16 inclusive"@),
{
    if n > 0 && n <= 16 {
        Ok(n)
    } else {
        Err(String::from_str("tab width must be a value from 1 to 16 inclusive"))
    }
}

} // verus!
