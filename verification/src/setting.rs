//! The settings that the user can change: segment lengths and colour themes.

use vstd::prelude::*;

verus! {

/// The colour themes that a segment can be shown in.
#[derive(Debug, Clone, Copy, PartialEq, Eq, Structural)]
pub enum AppTheme {
    CatppuccinFrappe,
    CatppuccinLatte,
    Dark,
    Light,
    GruvboxDark,
    GruvboxLight,
    SolarizedDark,
    SolarizedLight,
    TokyoNightStorm,
    TokyoNightLight,
}

/// The kind of a segment: `Pomodoro` is a segment of work, the other two
/// are the short and the long rest.
#[derive(Debug, Clone, Copy, PartialEq, Eq, Structural)]
pub enum SessionType {
    Pomodoro,
    Break,
    LongBreak,
}

/// The settings: the length of each kind of segment in minutes, the number
/// of work segments after which the rest is a long one, and the themes of
/// work and rest.
#[derive(Debug, Clone, Copy, PartialEq, Eq, Structural)]
pub struct Settings {
    pub work_min: u8,
    pub break_min: u8,
    pub long_break_min: u8,
    pub long_break_after: u8,
    pub work_theme: AppTheme,
    pub break_theme: AppTheme,
}

/// What the user can do to the settings.
#[derive(Debug, Clone, Copy)]
pub enum Message {
    PomodoroChanged(u8),
    BreakChanged(u8),
    LongBreakChanged(u8),
    LongBreakAfterChanged(u8),
    ThemeChanged(SessionType, AppTheme),
    Submit,
}

impl Default for Settings {
    fn default() -> (r: Settings)
        ensures
            r == Settings::initial(),
    {
        Settings {
            work_min: 25,
            break_min: 5,
            long_break_min: 60,
            long_break_after: 4,
            work_theme: AppTheme::SolarizedDark,
            break_theme: AppTheme::SolarizedLight,
        }
    }
}

impl AppTheme {
    /// The name under which the theme is offered to the user.
    pub open spec fn spec_label(self) -> Seq<char> {
        match self {
            AppTheme::CatppuccinFrappe => "Catppuccin Frappe"@,
            AppTheme::CatppuccinLatte => "Catppuccin Latte"@,
            AppTheme::Dark => "Dark"@,
            AppTheme::Light => "Light"@,
            AppTheme::GruvboxDark => "Gruvbox Dark"@,
            AppTheme::GruvboxLight => "Gruvbox Light"@,
            AppTheme::SolarizedDark => "Solarized Dark"@,
            AppTheme::SolarizedLight => "Solarized Light"@,
            AppTheme::TokyoNightStorm => "TokyoNight Storm"@,
            AppTheme::TokyoNightLight => "TokyoNight Light"@,
        }
    }

    /// The name under which the theme is offered to the user.
    pub fn label(self) -> (r: &'static str)
        ensures
            r@ == self.spec_label(),
    {
        match self {
            AppTheme::CatppuccinFrappe => "Catppuccin Frappe",
            AppTheme::CatppuccinLatte => "Catppuccin Latte",
            AppTheme::Dark => "Dark",
            AppTheme::Light => "Light",
            AppTheme::GruvboxDark => "Gruvbox Dark",
            AppTheme::GruvboxLight => "Gruvbox Light",
            AppTheme::SolarizedDark => "Solarized Dark",
            AppTheme::SolarizedLight => "Solarized Light",
            AppTheme::TokyoNightStorm => "TokyoNight Storm",
            AppTheme::TokyoNightLight => "TokyoNight Light",
        }
    }
}

impl Settings {
    /// The settings of a first start.
    pub open spec fn initial() -> Settings {
        Settings {
            work_min: 25,
            break_min: 5,
            long_break_min: 60,
            long_break_after: 4,
            work_theme: AppTheme::SolarizedDark,
            break_theme: AppTheme::SolarizedLight,
        }
    }

    /// The settings after `message`.
    pub open spec fn after(self, message: Message) -> Settings {
        match message {
            Message::PomodoroChanged(value) => Settings { work_min: value, ..self },
            Message::BreakChanged(value) => Settings { break_min: value, ..self },
            Message::LongBreakChanged(value) => Settings { long_break_min: value, ..self },
            Message::LongBreakAfterChanged(value) => Settings { long_break_after: value, ..self },
            Message::ThemeChanged(SessionType::Pomodoro, theme) => Settings {
                work_theme: theme,
                ..self
            },
            Message::ThemeChanged(_, theme) => Settings { break_theme: theme, ..self },
            Message::Submit => self,
        }
    }

    /// The settings to start with: those that were stored, or, where there
    /// are none, those of a first start.
    pub fn new(stored: Option<Settings>) -> (r: Settings)
        ensures
            r == (match stored {
                Some(settings) => settings,
                None => Settings::initial(),
            }),
    {
        match stored {
            Some(settings) => settings,
            None => Settings::default(),
        }
    }

    /// Applies `message`. The result says whether the settings are to be
    /// stored, which is so on `Submit` alone.
    pub fn update(&mut self, message: Message) -> (store: bool)
        ensures
            *final(self) == old(self).after(message),
            store == (message is Submit),
    {
        match message {
            Message::PomodoroChanged(value) => {
                self.work_min = value;
                false
            },
            Message::BreakChanged(value) => {
                self.break_min = value;
                false
            },
            Message::LongBreakChanged(value) => {
                self.long_break_min = value;
                false
            },
            Message::LongBreakAfterChanged(value) => {
                self.long_break_after = value;
                false
            },
            Message::ThemeChanged(session, theme) => {
                match session {
                    SessionType::Pomodoro => {
                        self.work_theme = theme;
                    },
                    SessionType::Break => {
                        self.break_theme = theme;
                    },
                    SessionType::LongBreak => {
                        self.break_theme = theme;
                    },
                }
                false
            },
            Message::Submit => true,
        }
    }
}

} // verus!
