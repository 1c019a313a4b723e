use icemodoro::setting::{AppTheme, Message, SessionType, Settings};

#[test]
fn settings_default_values() {
    let settings = Settings::default();
    assert_eq!(settings.work_min, 25);
    assert_eq!(settings.break_min, 5);
    assert_eq!(settings.long_break_min, 60);
    assert_eq!(settings.long_break_after, 4);
    assert_eq!(settings.work_theme, AppTheme::SolarizedDark);
    assert_eq!(settings.break_theme, AppTheme::SolarizedLight);
}

#[test]
fn settings_new_takes_what_was_stored_or_the_default() {
    assert_eq!(Settings::new(None), Settings::default());
    let stored = Settings {
        work_min: 50,
        break_min: 10,
        long_break_min: 30,
        long_break_after: 2,
        work_theme: AppTheme::Dark,
        break_theme: AppTheme::Light,
    };
    assert_eq!(Settings::new(Some(stored)), stored);
}

#[test]
fn settings_update_changes_one_field() {
    let mut settings = Settings::default();
    assert!(!settings.update(Message::PomodoroChanged(40)));
    assert!(!settings.update(Message::BreakChanged(7)));
    assert!(!settings.update(Message::LongBreakChanged(20)));
    assert!(!settings.update(Message::LongBreakAfterChanged(3)));
    assert_eq!(
        settings,
        Settings { work_min: 40, break_min: 7, long_break_min: 20, long_break_after: 3, ..Settings::default() }
    );
}

#[test]
fn settings_update_changes_themes() {
    let mut settings = Settings::default();
    assert!(!settings.update(Message::ThemeChanged(SessionType::Pomodoro, AppTheme::GruvboxDark)));
    assert_eq!(settings.work_theme, AppTheme::GruvboxDark);
    assert_eq!(settings.break_theme, AppTheme::SolarizedLight);
    assert!(!settings.update(Message::ThemeChanged(SessionType::Break, AppTheme::GruvboxLight)));
    assert_eq!(settings.break_theme, AppTheme::GruvboxLight);
    assert!(!settings.update(Message::ThemeChanged(SessionType::LongBreak, AppTheme::TokyoNightLight)));
    assert_eq!(settings.break_theme, AppTheme::TokyoNightLight);
    assert_eq!(settings.work_theme, AppTheme::GruvboxDark);
}

#[test]
fn settings_submit_asks_to_store_and_changes_nothing() {
    let mut settings = Settings::default();
    assert!(settings.update(Message::Submit));
    assert_eq!(settings, Settings::default());
}

#[test]
fn theme_labels() {
    assert_eq!(AppTheme::CatppuccinFrappe.label(), "Catppuccin Frappe");
    assert_eq!(AppTheme::CatppuccinLatte.label(), "Catppuccin Latte");
    assert_eq!(AppTheme::Dark.label(), "Dark");
    assert_eq!(AppTheme::Light.label(), "Light");
    assert_eq!(AppTheme::GruvboxDark.label(), "Gruvbox Dark");
    assert_eq!(AppTheme::GruvboxLight.label(), "Gruvbox Light");
    assert_eq!(AppTheme::SolarizedDark.label(), "Solarized Dark");
    assert_eq!(AppTheme::SolarizedLight.label(), "Solarized Light");
    assert_eq!(AppTheme::TokyoNightStorm.label(), "TokyoNight Storm");
    assert_eq!(AppTheme::TokyoNightLight.label(), "TokyoNight Light");
}
