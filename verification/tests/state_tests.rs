use syswatch::color_input::ColorInputKind;
use syswatch::config::ConfigColor;
use syswatch::models::{DeviceSelector, NetworkInterface};
use syswatch::state::{
    App, AppState, ColorTarget, ConfigState, KeyCode, KeyPress, DEFAULT_CPU_GROUP_SIZE,
};

fn key(code: KeyCode) -> KeyPress {
    KeyPress { code, pressed: true }
}

fn interface(name: &str) -> NetworkInterface {
    NetworkInterface { name: name.to_string(), ..NetworkInterface::default() }
}

#[test]
fn config_tooltip_tracks_the_current_editing_state() {
    let mut app = App { state: AppState::Config, ..App::default() };

    let title = format!("Selection: {}", app.cfg_state.name());
    let help = app.cfg_state.keybind_description(app.config.keybinds.quit);
    assert!(title.contains("Selection: Config"));
    assert!(help.contains("Keybinds (k) | Colors (c)"));

    app.cfg_state = ConfigState::KeybindInput;
    let title = format!("Selection: {}", app.cfg_state.name());
    let help = app.cfg_state.keybind_description(app.config.keybinds.quit);
    assert!(title.contains("Selection: Edit Keybind"));
    assert!(help.contains("Press a character | Cancel (Esc)"));
}

#[test]
fn color_picker_collects_rgb_and_indexed_values() {
    let rgb_index = ConfigColor::iter()
        .iter()
        .position(|color| matches!(color, ConfigColor::Rgb(_, _, _)))
        .unwrap();
    let indexed_index = ConfigColor::iter()
        .iter()
        .position(|color| matches!(color, ConfigColor::Indexed(_)))
        .unwrap();
    let mut app = App {
        state: AppState::Config,
        cfg_state: ConfigState::ColorPicker,
        color_target: Some(ColorTarget::Disk),
        ..App::default()
    };

    app.palette_selected = Some(rgb_index);
    app.handle_key_events(key(KeyCode::Enter));
    assert_eq!(app.cfg_state, ConfigState::ColorInput(ColorInputKind::Rgb));
    for input in "12,34,56".chars() {
        app.handle_key_events(key(KeyCode::Char(input)));
    }
    app.handle_key_events(key(KeyCode::Enter));
    assert!(matches!(app.config.colors.disk, ConfigColor::Rgb(12, 34, 56)));

    app.cfg_state = ConfigState::ColorPicker;
    app.color_target = Some(ColorTarget::Network);
    app.palette_selected = Some(indexed_index);
    app.handle_key_events(key(KeyCode::Enter));
    for input in "201".chars() {
        app.handle_key_events(key(KeyCode::Char(input)));
    }
    app.handle_key_events(key(KeyCode::Enter));
    assert!(matches!(app.config.colors.network, ConfigColor::Indexed(201)));
    assert!(app.config_dirty);
}

#[test]
fn network_key_selects_the_panel_and_arrows_cycle_interfaces() {
    let mut app = App {
        networks: vec![interface("Ethernet"), interface("Wi-Fi")],
        ..App::default()
    };

    app.handle_key_events(key(KeyCode::Char(app.config.keybinds.network)));
    assert_eq!(app.device, DeviceSelector::Network);

    app.handle_key_events(key(KeyCode::Right));
    assert_eq!(app.network_selection, 1);

    app.handle_key_events(key(KeyCode::Left));
    assert_eq!(app.network_selection, 0);
}

#[test]
fn cpu_arrows_page_by_available_height_and_wrap() {
    let mut app = App {
        device: DeviceSelector::Processor,
        disk_count: 1,
        cpu_count: 21,
        ..App::default()
    };

    app.fit_cpu_groups(15);
    assert!(app.cpu_group_size > DEFAULT_CPU_GROUP_SIZE);
    assert!(app.cpu_group_size < app.cpu_thread_count());
    assert_eq!(app.core_load_title(), "CORE LOAD 1-13 / 20 (1/2)");
    assert_eq!(app.visible_cpu_rows(), (1, 14));

    let group_size = app.cpu_group_size;
    let last_group = ((app.cpu_thread_count() - 1) / group_size) * group_size;

    app.handle_key_events(key(KeyCode::Right));
    assert_eq!(app.cpu_group_start, group_size);

    app.handle_key_events(key(KeyCode::Left));
    assert_eq!(app.cpu_group_start, 0);

    app.handle_key_events(key(KeyCode::Left));
    assert_eq!(app.cpu_group_start, last_group);
    assert_eq!(app.core_load_title(), "CORE LOAD 14-20 / 20 (2/2)");
    assert_eq!(app.visible_cpu_rows(), (14, 21));

    app.handle_key_events(key(KeyCode::Right));
    assert_eq!(app.cpu_group_start, 0);
}

#[test]
fn fitting_moves_a_page_start_back_onto_a_page() {
    let mut app = App { cpu_count: 21, cpu_group_start: 17, ..App::default() };
    app.fit_cpu_groups(7);
    assert_eq!(app.cpu_group_size, 5);
    assert_eq!(app.cpu_group_start, 15);
    app.fit_cpu_groups(100);
    assert_eq!(app.cpu_group_size, 20);
    assert_eq!(app.cpu_group_start, 0);
    app.fit_cpu_groups(0);
    assert_eq!(app.cpu_group_size, 1);

    let mut empty = App::default();
    empty.fit_cpu_groups(30);
    assert_eq!(empty.cpu_group_size, 1);
    assert_eq!(empty.cpu_group_start, 0);
    assert_eq!(empty.core_load_title(), "CORE LOAD");
}

#[test]
fn panel_keys_focus_and_leave_panels() {
    let mut app = App::default();
    assert_eq!(app.device, DeviceSelector::NoDevice);
    app.handle_key_events(key(KeyCode::Char('c')));
    assert_eq!(app.device, DeviceSelector::Processor);
    app.handle_key_events(key(KeyCode::Char('c')));
    assert_eq!(app.device, DeviceSelector::NoDevice);
    app.handle_key_events(key(KeyCode::Char('g')));
    assert_eq!(app.device, DeviceSelector::Graphics);
    app.handle_key_events(key(KeyCode::Char('m')));
    assert_eq!(app.device, DeviceSelector::Memory);
    app.handle_key_events(key(KeyCode::Esc));
    assert_eq!(app.device, DeviceSelector::NoDevice);
    app.handle_key_events(key(KeyCode::Char('s')));
    assert_eq!(app.device, DeviceSelector::System);
    app.handle_key_events(key(KeyCode::Char('d')));
    assert_eq!(app.device, DeviceSelector::Disk);
    app.handle_key_events(KeyPress { code: KeyCode::Char('q'), pressed: false });
    assert_eq!(app.state, AppState::Running);
    app.handle_key_events(key(KeyCode::Char('z')));
    assert_eq!(app.state, AppState::Config);
    app.handle_key_events(key(KeyCode::Esc));
    assert_eq!(app.state, AppState::Running);
    app.handle_key_events(key(KeyCode::Char('q')));
    assert_eq!(app.state, AppState::Quitting);
    app.handle_key_events(key(KeyCode::Char('z')));
    assert_eq!(app.state, AppState::Quitting);
}

#[test]
fn memory_precision_cycles() {
    let mut app = App { device: DeviceSelector::Memory, ..App::default() };
    app.memory.prec_count = 2;
    app.handle_key_events(key(KeyCode::Char('+')));
    assert_eq!(app.memory.prec_count, 3);
    app.handle_key_events(key(KeyCode::Char('-')));
    assert_eq!(app.memory.prec_count, 2);
    app.memory.prec_count = 4;
    app.handle_key_events(key(KeyCode::Char('+')));
    assert_eq!(app.memory.prec_count, 0);
    app.handle_key_events(key(KeyCode::Char('-')));
    assert_eq!(app.memory.prec_count, 3);
}

#[test]
fn gpu_and_disk_selection_wraps() {
    let mut app = App { device: DeviceSelector::Graphics, gpu_count: 3, ..App::default() };
    app.handle_key_events(key(KeyCode::Left));
    assert_eq!(app.gpu_selection, 2);
    app.handle_key_events(key(KeyCode::Right));
    assert_eq!(app.gpu_selection, 0);
    assert_eq!(app.shown_gpu(), Some(0));
    app.gpu_selection = 7;
    assert_eq!(app.shown_gpu(), Some(2));

    let mut app = App { device: DeviceSelector::Disk, disk_count: 2, ..App::default() };
    app.handle_key_events(key(KeyCode::Right));
    assert_eq!(app.disk_selection, 1);
    app.handle_key_events(key(KeyCode::Right));
    assert_eq!(app.disk_selection, 0);
    assert_eq!(App::default().shown_gpu(), None);
}

#[test]
fn process_list_navigation_and_inspection() {
    let mut app = App { process_ids: vec![10, 20, 30], ..App::default() };
    app.handle_key_events(key(KeyCode::Char('p')));
    assert_eq!(app.device, DeviceSelector::Processes);
    assert_eq!(app.process_list_selected, Some(0));
    app.handle_key_events(key(KeyCode::Up));
    assert_eq!(app.process_list_selected, Some(2));
    assert_eq!(app.mem_offset, 3);
    app.handle_key_events(key(KeyCode::Down));
    assert_eq!(app.process_list_selected, Some(0));
    assert_eq!(app.mem_offset, 1);
    app.handle_key_events(key(KeyCode::Down));
    app.handle_key_events(key(KeyCode::Enter));
    assert_eq!(app.process_selection, Some(20));
    app.handle_key_events(key(KeyCode::Right));
    assert_eq!(app.process_selection, Some(30));
    app.handle_key_events(key(KeyCode::Left));
    app.handle_key_events(key(KeyCode::Left));
    assert_eq!(app.process_selection, Some(10));
    app.handle_key_events(key(KeyCode::Left));
    assert_eq!(app.process_selection, Some(10));
    app.handle_key_events(key(KeyCode::Esc));
    assert_eq!(app.process_selection, None);
    assert_eq!(app.device, DeviceSelector::Processes);
    app.handle_key_events(key(KeyCode::Esc));
    assert_eq!(app.device, DeviceSelector::NoDevice);
}

#[test]
fn editing_a_keybind_reports_conflicts_and_saves_changes() {
    let mut app = App { state: AppState::Config, ..App::default() };
    app.handle_key_events(key(KeyCode::Char('k')));
    assert_eq!(app.cfg_state, ConfigState::Keybinds);
    assert_eq!(app.keybind_list_selected, Some(0));
    app.handle_key_events(key(KeyCode::Down));
    app.handle_key_events(key(KeyCode::Enter));
    assert_eq!(app.cfg_state, ConfigState::KeybindInput);
    app.handle_key_events(key(KeyCode::Char('q')));
    assert_eq!(app.keybind_error, Some("'q' is already in use".to_string()));
    assert_eq!(app.cfg_state, ConfigState::KeybindInput);
    assert!(!app.config_dirty);
    app.handle_key_events(key(KeyCode::Char('y')));
    assert_eq!(app.config.keybinds.system, 'y');
    assert_eq!(app.keybind_error, None);
    assert_eq!(app.cfg_state, ConfigState::Keybinds);
    assert!(app.config_dirty);
    assert_eq!(app.config.keybinds.validate(), Ok(()));
    app.handle_key_events(key(KeyCode::Up));
    app.handle_key_events(key(KeyCode::Up));
    assert_eq!(app.keybind_list_selected, Some(8));
    app.handle_key_events(key(KeyCode::Char('k')));
    assert_eq!(app.cfg_state, ConfigState::Menu);
}

#[test]
fn color_input_edits_and_cancels() {
    let mut app = App {
        state: AppState::Config,
        cfg_state: ConfigState::Colors,
        color_list_selected: Some(2),
        ..App::default()
    };
    app.handle_key_events(key(KeyCode::Enter));
    assert_eq!(app.color_target, Some(ColorTarget::Memory));
    assert_eq!(app.cfg_state, ConfigState::ColorPicker);
    app.handle_key_events(key(KeyCode::Up));
    assert_eq!(app.palette_selected, Some(18));
    app.handle_key_events(key(KeyCode::Enter));
    assert_eq!(app.cfg_state, ConfigState::ColorInput(ColorInputKind::Indexed));
    app.handle_key_events(key(KeyCode::Char('x')));
    assert_eq!(app.color_input_error, Some("use numbers separated by commas".to_string()));
    app.handle_key_events(key(KeyCode::Char('4')));
    app.handle_key_events(key(KeyCode::Char('2')));
    app.handle_key_events(key(KeyCode::Backspace));
    assert_eq!(app.color_input, "4");
    app.handle_key_events(key(KeyCode::Char(',')));
    app.handle_key_events(key(KeyCode::Char('5')));
    app.handle_key_events(key(KeyCode::Enter));
    assert_eq!(app.color_input_error, Some("enter one palette index".to_string()));
    app.handle_key_events(key(KeyCode::Esc));
    assert_eq!(app.cfg_state, ConfigState::ColorPicker);
    assert_eq!(app.color_input, "");
    app.handle_key_events(key(KeyCode::Down));
    app.handle_key_events(key(KeyCode::Down));
    assert_eq!(app.palette_selected, Some(1));
    app.handle_key_events(key(KeyCode::Enter));
    assert_eq!(app.config.colors.memory, ConfigColor::Black);
    assert_eq!(app.cfg_state, ConfigState::Colors);
    assert_eq!(app.color_target, None);
    assert_eq!(app.color_list_selected, Some(0));
    assert!(app.config_dirty);
}

#[test]
fn updating_networks_sorts_them_and_keeps_the_selection() {
    let mut app = App { network_selection: 5, ..App::default() };
    app.update_networks(vec![interface("wlan0"), interface("eth0"), interface("lo"), interface("Wi-Fi")]);
    let names: Vec<&str> = app.networks.iter().map(|n| n.name.as_str()).collect();
    assert_eq!(names, vec!["Wi-Fi", "eth0", "lo", "wlan0"]);
    assert_eq!(app.network_selection, 3);
    app.update_networks(Vec::new());
    assert_eq!(app.network_selection, 0);
}

#[test]
fn descriptions_name_the_configured_keys() {
    let app = App::default();
    assert_eq!(
        DeviceSelector::NoDevice.keybind_description(&app.config),
        "Quit (q) | System (s) | CPU (c) | GPU (g) | Disk (d) | Processes (p) | Memory (m) | Network (n) | Config (z)"
    );
    assert_eq!(
        DeviceSelector::Memory.keybind_description(&app.config),
        "Quit (q) | Back (Esc / m) | Precision (+/-)"
    );
    assert_eq!(DeviceSelector::Graphics.name(), "Graphics Cards");
    assert_eq!(DeviceSelector::NoDevice.name(), "No device selected");
    assert_eq!(ConfigState::ColorInput(ColorInputKind::Rgb).name(), "RGB Values");
    assert_eq!(
        ConfigState::Colors.keybind_description('x'),
        "Navigate (Up/Down) | Edit (Enter) | Menu (c) | Main (Esc) | Quit (x)"
    );
}

#[test]
fn interfaces_of_the_same_name_keep_their_order() {
    let mut first = interface("eth0");
    first.mac_address = "first".to_string();
    let mut second = interface("eth0");
    second.mac_address = "second".to_string();
    let mut app = App::default();
    app.update_networks(vec![interface("wlan0"), first, interface("docker0"), second]);
    let seen: Vec<(&str, &str)> =
        app.networks.iter().map(|n| (n.name.as_str(), n.mac_address.as_str())).collect();
    assert_eq!(seen, vec![("docker0", ""), ("eth0", "first"), ("eth0", "second"), ("wlan0", "")]);
}

#[test]
fn keybind_list_title_shows_the_refusal_while_entering_a_key() {
    let mut app = App { state: AppState::Config, ..App::default() };
    assert_eq!(app.keybind_list_title(), "Keybinds");
    app.cfg_state = ConfigState::KeybindInput;
    assert_eq!(app.keybind_list_title(), "Keybinds");
    app.keybind_error = Some("'q' is already in use".to_string());
    assert_eq!(app.keybind_list_title(), "Keybinds - 'q' is already in use");
    app.cfg_state = ConfigState::Keybinds;
    assert_eq!(app.keybind_list_title(), "Keybinds");
    assert_eq!(ColorInputKind::Rgb.prompt(), "RGB values (example: 255,128,0)");
    assert_eq!(ColorInputKind::Indexed.prompt(), "Palette index (0-255)");
}
