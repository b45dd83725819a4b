use syswatch::config::{accept_config, conflict_report, is_blank};
use syswatch::config::defaults::{Colors, ConfigColor, Keybinds};
use syswatch::config::Config;

#[test]
fn sets_the_selected_keybind() {
    let mut keybinds = Keybinds::default();

    assert_eq!(keybinds.set(1, 'x'), Ok(()));
    assert_eq!(keybinds.system, 'x');
}

#[test]
fn rejects_a_keybind_that_is_already_in_use() {
    let mut keybinds = Keybinds::default();

    assert_eq!(
        keybinds.set(1, keybinds.quit),
        Err("'q' is already in use".to_string())
    );
    assert_eq!(keybinds.system, 's');
}

#[test]
fn rejects_a_keybind_index_out_of_range() {
    let mut keybinds = Keybinds::default();
    assert_eq!(
        keybinds.set(9, 'x'),
        Err("invalid keybind index: 9".to_string())
    );
    assert_eq!(
        keybinds.set(123, 'x'),
        Err("invalid keybind index: 123".to_string())
    );
    assert_eq!(keybinds, Keybinds::default());
}

#[test]
fn rebinding_a_key_to_itself_is_accepted() {
    let mut keybinds = Keybinds::default();
    assert_eq!(keybinds.set(0, 'q'), Ok(()));
    assert_eq!(keybinds, Keybinds::default());
}

#[test]
fn default_keybinds_are_valid() {
    let keybinds = Keybinds::default();
    assert_eq!(keybinds.validate(), Ok(()));
    assert_eq!(keybinds.len(), 9);
    let names: Vec<&str> = keybinds.iter().iter().map(|(name, _)| *name).collect();
    assert_eq!(
        names,
        vec!["quit", "system", "processor", "graphics", "disk", "processes", "memory", "network", "config"]
    );
    let keys: Vec<char> = keybinds.iter().iter().map(|(_, key)| *key).collect();
    assert_eq!(keys, vec!['q', 's', 'c', 'g', 'd', 'p', 'm', 'n', 'z']);
}

#[test]
fn validate_reports_each_duplicated_key_once_with_sorted_names() {
    let mut keybinds = Keybinds::default();
    keybinds.system = 'q';
    keybinds.network = 'q';
    keybinds.memory = 'd';
    let errors = keybinds.validate().unwrap_err();
    assert_eq!(
        errors,
        vec![
            (
                'q',
                vec!["network".to_string(), "quit".to_string(), "system".to_string()]
            ),
            ('d', vec!["disk".to_string(), "memory".to_string()]),
        ]
    );
}

#[test]
fn validate_sorts_processes_before_processor() {
    let mut keybinds = Keybinds::default();
    keybinds.processes = 'c';
    let errors = keybinds.validate().unwrap_err();
    assert_eq!(
        errors,
        vec![('c', vec!["processes".to_string(), "processor".to_string()])]
    );
}

#[test]
fn conflict_report_lists_each_conflict() {
    let mut keybinds = Keybinds::default();
    keybinds.system = 'q';
    keybinds.memory = 'd';
    let errors = keybinds.validate().unwrap_err();
    assert_eq!(
        conflict_report(&errors),
        "invalid keybind configuration:\n- Key 'q' duplicated 2 times: quit, system\n- Key 'd' duplicated 2 times: disk, memory"
    );
}

#[test]
fn default_colors_and_palette() {
    let colors = Colors::default();
    assert_eq!(colors.len(), 4);
    assert_eq!(
        colors.iter(),
        vec![
            ("disk", ConfigColor::Green),
            ("processes", ConfigColor::Blue),
            ("memory", ConfigColor::Red),
            ("network", ConfigColor::Cyan),
        ]
    );
    assert_eq!(ConfigColor::len(), 19);
    assert_eq!(ConfigColor::iter().len(), 19);
    assert_eq!(ConfigColor::default(), ConfigColor::Reset);
    let config = Config::default();
    assert_eq!(config.keybinds, Keybinds::default());
    assert_eq!(config.colors, Colors::default());
}

#[test]
fn select_gives_the_picker_entry_or_white() {
    assert_eq!(ConfigColor::select(0), ConfigColor::Reset);
    assert_eq!(ConfigColor::select(9), ConfigColor::DarkGray);
    assert_eq!(ConfigColor::select(17), ConfigColor::Rgb(0, 0, 0));
    assert_eq!(ConfigColor::select(18), ConfigColor::Indexed(0));
    assert_eq!(ConfigColor::select(19), ConfigColor::White);
    assert_eq!(ConfigColor::select(1000), ConfigColor::White);
    for (index, color) in ConfigColor::iter().into_iter().enumerate() {
        assert_eq!(ConfigColor::select(index), color);
    }
}

#[test]
fn picker_labels() {
    assert_eq!(ConfigColor::DarkGray.picker_label(), "Dark Gray");
    assert_eq!(ConfigColor::LightMagenta.picker_label(), "Light Magenta");
    assert_eq!(ConfigColor::Rgb(1, 2, 3).picker_label(), "RGB...");
    assert_eq!(ConfigColor::Indexed(7).picker_label(), "Indexed...");
    assert_eq!(ConfigColor::Reset.picker_label(), "Reset");
}

#[test]
fn loading_accepts_only_conflict_free_keybinds() {
    let accepted = accept_config(Config::default()).unwrap();
    assert_eq!(accepted.keybinds, Keybinds::default());

    let mut config = Config::default();
    config.keybinds.network = 'q';
    assert_eq!(
        accept_config(config).unwrap_err(),
        "invalid keybind configuration:\n- Key 'q' duplicated 2 times: network, quit"
    );
}

#[test]
fn blank_files_are_recognised() {
    assert!(is_blank(""));
    assert!(is_blank(" \n\t\u{3000}"));
    assert!(!is_blank("  [keybinds]\n"));
}
