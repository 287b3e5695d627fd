//! Application-level values: the resolved configuration and the messages an
//! interactive surface exchanges with the library. The surface itself
//! (windows, rendering, input events) is an external collaborator.

use vstd::prelude::*;

use crate::token::ScoredKeybind;
use crate::token::Tokens;
use crate::token::flattened;
use crate::token::unscored;
use crate::user_config::FONT_SIZE;
use crate::user_config::FontConfig;
use crate::user_config::TITLE_FONT_SIZE;
use crate::user_config::Theme;
use crate::user_config::UserConfig;
use vstd::string::StringExecFns;

verus! {

/// Font sizes resolved for the interface.
#[derive(Debug, Clone, PartialEq, Eq, Structural)]
pub struct Ui {
    pub title_size: u16,
    pub section_size: u16,
    pub keybind_size: u16,
    pub text_size: u16,
    pub error_size: u16,
}

impl Default for Ui {
    fn default() -> (r: Self)
        ensures
            r == (Ui {
                title_size: TITLE_FONT_SIZE,
                section_size: FONT_SIZE,
                keybind_size: FONT_SIZE,
                text_size: FONT_SIZE,
                error_size: FONT_SIZE,
            }),
    {
        Ui {
            title_size: TITLE_FONT_SIZE,
            section_size: FONT_SIZE,
            keybind_size: FONT_SIZE,
            text_size: FONT_SIZE,
            error_size: FONT_SIZE,
        }
    }
}

/// The whole resolved configuration: source path, font sizes, theme.
#[derive(Debug, Clone)]
pub struct AppConfig {
    pub config_path: String,
    pub ui: Ui,
    pub theme: Theme,
}

/// A missing size falls back to zero, as an absent entry in a present font
/// table does.
pub open spec fn size_or_zero(o: Option<u16>) -> u16 {
    match o {
        Some(v) => v,
        None => 0,
    }
}

/// The font table used: the one from the file, or the standard sizes.
pub open spec fn font_of(o: Option<FontConfig>) -> FontConfig {
    match o {
        Some(f) => f,
        None => FontConfig::standard_sizes(),
    }
}

impl AppConfig {
    /// Resolve the user's configuration: the dark theme is the default, and
    /// a font table from the file overrides every standard size, absent
    /// entries falling back to zero.
    pub fn from(config: UserConfig) -> (r: AppConfig)
        ensures
            r.config_path@ == config.xmonad_config@,
            r.theme == (match config.theme {
                Some(t) => t,
                None => Theme::Dark,
            }),
            r.ui.title_size == size_or_zero(font_of(config.font).title_size),
            r.ui.section_size == size_or_zero(font_of(config.font).section_size),
            r.ui.keybind_size == size_or_zero(font_of(config.font).keybind_size),
            r.ui.text_size == size_or_zero(font_of(config.font).text_size),
            r.ui.error_size == size_or_zero(font_of(config.font).error_size),
    {
        let font_config = match &config.font {
            Some(f) => *f,
            None => FontConfig::default(),
        };
        let theme = match config.theme {
            Some(t) => t,
            None => Theme::Dark,
        };
        AppConfig {
            config_path: config.xmonad_config,
            theme,
            ui: Ui {
                title_size: match font_config.title_size {
                    Some(v) => v,
                    None => 0,
                },
                section_size: match font_config.section_size {
                    Some(v) => v,
                    None => 0,
                },
                keybind_size: match font_config.keybind_size {
                    Some(v) => v,
                    None => 0,
                },
                text_size: match font_config.text_size {
                    Some(v) => v,
                    None => 0,
                },
                error_size: match font_config.error_size {
                    Some(v) => v,
                    None => 0,
                },
            },
        }
    }
}

/// The phases an interactive session passes through.
#[derive(Debug, Clone, PartialEq, Eq)]
pub enum State {
    ReadingConfig,
    ParsingConfig,
    RenderKeybinds,
    Error(String),
}

/// What the session asks its surface to perform after a step: read the
/// configuration file, parse its text, run a search over the given entries,
/// move focus, or nothing.
#[derive(Debug, Clone, PartialEq, Eq)]
pub enum Action {
    ReadConfig(String),
    Parse(String),
    Filter(Vec<ScoredKeybind>, String),
    FocusPrevious,
    FocusNext,
    Idle,
}

/// What an interactive surface tells the library: configuration text read,
/// parsing finished, the search input changed, filtering finished, or a
/// focus change request.
#[derive(Debug, Clone)]
pub enum Message {
    ConfigRead(String),
    ConfigError(String),
    ParsingDone(Tokens),
    ParsingError(String),
    InputChanged(String),
    TokensFiltered(Vec<ScoredKeybind>),
    TabPressed { shift: bool },
}

impl Message {
    /// A short description of the message, as logged.
    pub fn describe(&self) -> (r: String)
        ensures
            match self {
                Message::ConfigRead(_) => r@ == "ConfigRead"@,
                Message::ConfigError(_) => r@ == "ConfigError"@,
                Message::ParsingDone(_) => r@ == "ParsingDone"@,
                Message::ParsingError(_) => r@ == "ParsingError"@,
                Message::InputChanged(input) => r@ == "InputChanged: "@ + input@,
                Message::TokensFiltered(_) => r@ == "TokensFiltered"@,
                Message::TabPressed { shift } => r@ == if *shift {
                    "TabPressed, shift true"@
                } else {
                    "TabPressed, shift false"@
                },
            },
    {
        match self {
            Message::ConfigRead(_) => "ConfigRead".to_owned(),
            Message::ConfigError(_) => "ConfigError".to_owned(),
            Message::ParsingDone(_) => "ParsingDone".to_owned(),
            Message::ParsingError(_) => "ParsingError".to_owned(),
            Message::InputChanged(input) => "InputChanged: ".to_owned().concat(input.as_str()),
            Message::TokensFiltered(_) => "TokensFiltered".to_owned(),
            Message::TabPressed { shift } => {
                if *shift {
                    "TabPressed, shift true".to_owned()
                } else {
                    "TabPressed, shift false".to_owned()
                }
            },
        }
    }
}

/// An interactive session over one configuration file: the current phase,
/// the search input, the entries matching it, the parsed document, and the
/// resolved configuration. The document is owned session state, replaced
/// wholesale on re-parse, never a process-wide value.
#[derive(Debug, Clone)]
pub struct Apekey {
    pub state: State,
    pub input_value: String,
    pub tokens: Vec<ScoredKeybind>,
    pub document: Option<Tokens>,
    pub config: AppConfig,
}

impl Apekey {
    /// A fresh session: reading the configuration file comes first.
    pub fn new(config: AppConfig) -> (r: (Apekey, Action))
        ensures
            r.0.state == State::ReadingConfig,
            r.0.input_value@ == Seq::<char>::empty(),
            r.0.tokens@ == Seq::<ScoredKeybind>::empty(),
            r.0.document is None,
            r.0.config == config,
            r.1 == Action::ReadConfig(config.config_path),
    {
        let path = config.config_path.clone();
        (
            Apekey {
                state: State::ReadingConfig,
                input_value: String::new(),
                tokens: Vec::new(),
                document: None,
                config,
            },
            Action::ReadConfig(path),
        )
    }

    /// One step of the session: what each message changes, and what the
    /// surface should do next. Read configuration text is handed back for
    /// parsing; a parsed document is stored and shown; errors end in the
    /// error phase; a changed non-empty search input asks for a search over
    /// the document's entries, and an empty one asks for nothing (the full
    /// document is the default display); search results are stored; a tab
    /// moves focus.
    pub fn update(&mut self, message: Message) -> (r: Action)
        requires
            match message {
                Message::InputChanged(value) => value@.len() == 0 || old(self).document is Some,
                _ => true,
            },
        ensures
            final(self).config == old(self).config,
            match message {
                Message::ConfigRead(content) => final(self).state == State::ParsingConfig && r
                    == Action::Parse(content) && final(self).input_value == old(self).input_value
                    && final(self).tokens == old(self).tokens && final(self).document == old(self).document,
                Message::ConfigError(e) => final(self).state == State::Error(e) && r == Action::Idle
                    && final(self).input_value == old(self).input_value && final(self).tokens
                    == old(self).tokens && final(self).document == old(self).document,
                Message::ParsingDone(tokens) => final(self).state == State::RenderKeybinds
                    && final(self).document == Some(tokens) && r == Action::Idle && final(self).input_value == old(self).input_value && final(self).tokens == old(self).tokens,
                Message::ParsingError(e) => final(self).state == State::Error(e) && r
                    == Action::Idle && final(self).input_value == old(self).input_value && final(self).tokens == old(self).tokens && final(self).document == old(self).document,
                Message::InputChanged(value) => final(self).input_value == value && final(self).state == old(self).state && final(self).tokens == old(self).tokens && final(self).document == old(self).document && (if value@.len() == 0 {
                    r == Action::Idle
                } else {
                    match (r, old(self).document) {
                        (Action::Filter(entries, pat), Some(d)) => pat == value
                            && entries@.map_values(|sk: ScoredKeybind| sk@) == unscored(
                            flattened(d@),
                        ),
                        _ => false,
                    }
                }),
                Message::TokensFiltered(results) => final(self).tokens == results && r
                    == Action::Idle && final(self).state == old(self).state && final(self).input_value == old(self).input_value && final(self).document == old(self).document,
                Message::TabPressed { shift } => r == (if shift {
                    Action::FocusPrevious
                } else {
                    Action::FocusNext
                }) && final(self).state == old(self).state && final(self).input_value == old(self).input_value && final(self).tokens == old(self).tokens && final(self).document
                    == old(self).document,
            },
    {
        match message {
            Message::ConfigRead(content) => {
                self.state = State::ParsingConfig;
                Action::Parse(content)
            },
            Message::ConfigError(e) => {
                self.state = State::Error(e);
                Action::Idle
            },
            Message::ParsingDone(tokens) => {
                self.state = State::RenderKeybinds;
                self.document = Some(tokens);
                Action::Idle
            },
            Message::ParsingError(e) => {
                self.state = State::Error(e);
                Action::Idle
            },
            Message::InputChanged(value) => {
                self.input_value = value.clone();
                if value.as_str().is_empty() {
                    Action::Idle
                } else {
                    let entries = match &self.document {
                        Some(d) => d.keybinds(),
                        None => Vec::new(),
                    };
                    Action::Filter(entries, value)
                }
            },
            Message::TokensFiltered(results) => {
                self.tokens = results;
                Action::Idle
            },
            Message::TabPressed { shift } => {
                if shift {
                    Action::FocusPrevious
                } else {
                    Action::FocusNext
                }
            },
        }
    }
}

} // verus!
