use gonk::browser::{BrowserMode, Mode};
use gonk::player::Command;
use gonk::settings::Settings;
use gonk::settings_path;
use gonk::toml::{Config, Modifier};

#[test]
fn settings_path_joins_the_file_name() {
    assert_eq!(settings_path("/home/u/.config/gonk"), "/home/u/.config/gonk/settings.db");
    assert_eq!(settings_path(""), "/settings.db");
}

fn names(list: &[&str]) -> Vec<String> {
    list.iter().map(|s| s.to_string()).collect()
}

#[test]
fn settings_keeps_the_wanted_device_when_present() {
    let s = Settings::new("dac", names(&["speakers", "dac"]), "speakers");
    assert_eq!(s.current_device, "dac");
    assert_eq!(s.index, Some(0));
    assert_eq!(s.selected(), Some("speakers"));
}

#[test]
fn settings_falls_back_to_the_default_device() {
    let s = Settings::new("gone", names(&["speakers", "dac"]), "speakers");
    assert_eq!(s.current_device, "speakers");

    let empty = Settings::new("anything", Vec::new(), "default");
    assert_eq!(empty.current_device, "default");
    assert_eq!(empty.index, None);
    assert_eq!(empty.selected(), None);
}

#[test]
fn settings_selection_wraps_both_ways() {
    let mut s = Settings::new("dac", names(&["a", "b", "c"]), "a");
    assert_eq!(s.index, Some(0));
    s.up();
    assert_eq!(s.index, Some(2));
    s.up();
    assert_eq!(s.index, Some(1));
    s.down();
    assert_eq!(s.index, Some(2));
    s.down();
    assert_eq!(s.index, Some(0));

    let mut empty = Settings::new("x", Vec::new(), "x");
    empty.up();
    empty.down();
    assert_eq!(empty.index, None);
}

#[test]
fn browser_mode_stops_at_the_ends() {
    let mut mode = BrowserMode::Artist;
    mode.next();
    assert_eq!(mode, BrowserMode::Album);
    mode.next();
    assert_eq!(mode, BrowserMode::Song);
    mode.next();
    assert_eq!(mode, BrowserMode::Song);
    mode.prev();
    assert_eq!(mode, BrowserMode::Album);
    mode.prev();
    assert_eq!(mode, BrowserMode::Artist);
    mode.prev();
    assert_eq!(mode, BrowserMode::Artist);
}

#[test]
fn ui_mode_toggles_back_and_forth() {
    let mut mode = Mode::Browser;
    mode.toggle();
    assert_eq!(mode, Mode::Queue);
    mode.toggle();
    assert_eq!(mode, Mode::Browser);
}

#[test]
fn modifier_bitsets_map_to_modifier_lists() {
    assert_eq!(Modifier::from_bitflags(0b0000_0001), Some(vec![Modifier::Shift]));
    assert_eq!(Modifier::from_bitflags(0b0000_0100), Some(vec![Modifier::Alt]));
    assert_eq!(Modifier::from_bitflags(0b0000_0010), Some(vec![Modifier::Control]));
    assert_eq!(Modifier::from_bitflags(3), Some(vec![Modifier::Control, Modifier::Shift]));
    assert_eq!(Modifier::from_bitflags(5), Some(vec![Modifier::Alt, Modifier::Shift]));
    assert_eq!(Modifier::from_bitflags(6), Some(vec![Modifier::Control, Modifier::Alt]));
    assert_eq!(Modifier::from_bitflags(0), None);
    assert_eq!(Modifier::from_bitflags(7), None);
    assert_eq!(Modifier::from_bitflags(255), None);
}

#[test]
fn config_add_path_skips_duplicates() {
    let mut config = Config {
        paths: Vec::new(),
        output_device: String::new(),
        volume: 15,
    };
    assert!(config.add_path("/music".to_string()));
    assert!(config.add_path("/more".to_string()));
    assert!(!config.add_path("/music".to_string()));
    assert_eq!(config.paths, vec!["/music", "/more"]);
    assert_eq!(config.volume, 15);
}

#[test]
fn playback_starts_paused() {
    let command = Command::new();
    assert!(!command.playing);
}
