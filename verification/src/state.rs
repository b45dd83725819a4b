//! What the monitor shows and which panel has the focus, and how each key
//! press changes it.
use vstd::prelude::*;
use vstd::string::*;

use crate::color_input::{color_input_outcome, parse_color_input, ColorInputKind};
use crate::config::defaults::{
    key_taken, law_set_keeps_keys_distinct, palette, Keybinds, KEYBIND_COUNT, PALETTE_LEN,
    PANEL_COLOR_COUNT,
};
use crate::config::{Colors, Config, ConfigColor};
use crate::models::{CpuInfo, DeviceSelector, Machine, Memory, NetworkInterface};
use crate::samples::{lemma_filter_insert, lemma_filter_remove_first};
use crate::text::{
    append_char, decimal, lemma_lex_asymmetric, lemma_lex_irreflexive, lemma_lex_total, lemma_lex_transitive, lex_lt, pop_char,
    push_char, push_decimal, push_str, str_less,
};

verus! {

/// The number of processor rows in a page when the panel has not been laid out yet.
pub const DEFAULT_CPU_GROUP_SIZE: usize = 3;

/// Whether the monitor runs, is leaving, or shows the configuration.
#[derive(Debug, Clone, Copy, PartialEq, Eq, Structural)]
pub enum AppState {
    Running,
    Quitting,
    Config,
}

/// Where the user is in the configuration screen.
#[derive(Debug, Clone, Copy, PartialEq, Eq, Structural)]
pub enum ConfigState {
    Menu,
    Keybinds,
    KeybindInput,
    Colors,
    ColorPicker,
    ColorInput(ColorInputKind),
}

/// The panel whose color is being changed.
#[derive(Debug, Clone, Copy, PartialEq, Eq, Structural)]
pub enum ColorTarget {
    Disk,
    Processes,
    Memory,
    Network,
}

/// A key of the keyboard, as far as the monitor tells keys apart.
#[derive(Debug, Clone, Copy, PartialEq, Eq, Structural)]
pub enum KeyCode {
    Char(char),
    Left,
    Right,
    Up,
    Down,
    Enter,
    Esc,
    Backspace,
    Other,
}

/// A key event: the key, and whether it was pressed (not repeated or released).
#[derive(Debug, Clone, Copy, PartialEq, Eq, Structural)]
pub struct KeyPress {
    pub code: KeyCode,
    pub pressed: bool,
}

/// The title of a configuration screen.
pub open spec fn config_state_name(state: ConfigState) -> Seq<char> {
    match state {
        ConfigState::Menu => "Config"@,
        ConfigState::Keybinds => "Config Keybinds"@,
        ConfigState::KeybindInput => "Edit Keybind"@,
        ConfigState::Colors => "Config Colors"@,
        ConfigState::ColorPicker => "Pick Color"@,
        ConfigState::ColorInput(ColorInputKind::Rgb) => "RGB Values"@,
        ConfigState::ColorInput(ColorInputKind::Indexed) => "Indexed Value"@,
    }
}

/// The help line of a configuration screen.
pub open spec fn config_keybind_text(state: ConfigState, quit_key: char) -> Seq<char> {
    match state {
        ConfigState::Menu => "Keybinds (k) | Colors (c) | Main (Esc) | Quit ("@ + seq![quit_key] + ")"@,
        ConfigState::Keybinds => "Navigate (Up/Down) | Edit (Enter) | Menu (k) | Main (Esc) | Quit ("@
            + seq![quit_key] + ")"@,
        ConfigState::KeybindInput => "Press a character | Cancel (Esc)"@,
        ConfigState::Colors => "Navigate (Up/Down) | Edit (Enter) | Menu (c) | Main (Esc) | Quit ("@
            + seq![quit_key] + ")"@,
        ConfigState::ColorPicker => "Navigate (Up/Down) | Apply (Enter) | Colors (c) | Main (Esc) | Quit ("@
            + seq![quit_key] + ")"@,
        ConfigState::ColorInput(ColorInputKind::Rgb) => "Enter R,G,B (0-255) | Apply (Enter) | Cancel (Esc)"@,
        ConfigState::ColorInput(ColorInputKind::Indexed) => "Enter index (0-255) | Apply (Enter) | Cancel (Esc)"@,
    }
}

impl ConfigState {
    /// The title of this configuration screen.
    pub fn name(&self) -> (r: &'static str)
        ensures
            r@ == config_state_name(*self),
    {
        match self {
            ConfigState::Menu => "Config",
            ConfigState::Keybinds => "Config Keybinds",
            ConfigState::KeybindInput => "Edit Keybind",
            ConfigState::Colors => "Config Colors",
            ConfigState::ColorPicker => "Pick Color",
            ConfigState::ColorInput(ColorInputKind::Rgb) => "RGB Values",
            ConfigState::ColorInput(ColorInputKind::Indexed) => "Indexed Value",
        }
    }

    /// The help line of this configuration screen.
    pub fn keybind_description(&self, quit_key: char) -> (r: String)
        ensures
            r@ == config_keybind_text(*self, quit_key),
    {
        match self {
            ConfigState::Menu => {
                let mut s = String::from_str("Keybinds (k) | Colors (c) | Main (Esc) | Quit (");
                append_char(&mut s, quit_key);
                push_str(&mut s, ")");
                s
            },
            ConfigState::Keybinds => {
                let mut s = String::from_str(
                    "Navigate (Up/Down) | Edit (Enter) | Menu (k) | Main (Esc) | Quit (",
                );
                append_char(&mut s, quit_key);
                push_str(&mut s, ")");
                s
            },
            ConfigState::KeybindInput => String::from_str("Press a character | Cancel (Esc)"),
            ConfigState::Colors => {
                let mut s = String::from_str(
                    "Navigate (Up/Down) | Edit (Enter) | Menu (c) | Main (Esc) | Quit (",
                );
                append_char(&mut s, quit_key);
                push_str(&mut s, ")");
                s
            },
            ConfigState::ColorPicker => {
                let mut s = String::from_str(
                    "Navigate (Up/Down) | Apply (Enter) | Colors (c) | Main (Esc) | Quit (",
                );
                append_char(&mut s, quit_key);
                push_str(&mut s, ")");
                s
            },
            ConfigState::ColorInput(ColorInputKind::Rgb) => String::from_str(
                "Enter R,G,B (0-255) | Apply (Enter) | Cancel (Esc)",
            ),
            ConfigState::ColorInput(ColorInputKind::Indexed) => String::from_str(
                "Enter index (0-255) | Apply (Enter) | Cancel (Esc)",
            ),
        }
    }
}


/// The state of the monitor: what it shows and where the keyboard focus is.
/// The processor, graphics, disk and process lists themselves are held by the
/// program that samples them; this state holds their lengths and the process
/// ids, which is what the key handling reads.
#[derive(Debug)]
pub struct App {
    pub state: AppState,
    pub config: Config,
    /// Whether the configuration changed since it was last saved.
    pub config_dirty: bool,
    pub cfg_state: ConfigState,
    pub keybind_list_selected: Option<usize>,
    pub keybind_error: Option<String>,
    pub color_list_selected: Option<usize>,
    pub color_target: Option<ColorTarget>,
    pub palette_selected: Option<usize>,
    pub color_input: String,
    pub color_input_error: Option<String>,
    pub device: DeviceSelector,
    pub system: Machine,
    pub cpu: CpuInfo,
    /// The number of rows of the processor list: the global row, then one per thread.
    pub cpu_count: usize,
    pub gpu_count: usize,
    pub cpu_group_start: usize,
    pub cpu_group_size: usize,
    pub gpu_selection: usize,
    pub process_list_selected: Option<usize>,
    pub memory: Memory,
    /// The ids of the listed processes, in list order.
    pub process_ids: Vec<u32>,
    pub mem_offset: usize,
    pub process_selection: Option<u32>,
    pub disk_count: usize,
    pub disk_selection: usize,
    pub networks: Vec<NetworkInterface>,
    pub network_selection: usize,
}

/// The part of the monitor's state that key presses read and change, as
/// mathematical values.
pub struct AppView {
    pub state: AppState,
    pub config: Config,
    pub config_dirty: bool,
    pub cfg_state: ConfigState,
    pub keybind_list_selected: Option<usize>,
    pub keybind_error: Option<Seq<char>>,
    pub color_list_selected: Option<usize>,
    pub color_target: Option<ColorTarget>,
    pub palette_selected: Option<usize>,
    pub color_input: Seq<char>,
    pub color_input_error: Option<Seq<char>>,
    pub device: DeviceSelector,
    pub cpu_count: usize,
    pub gpu_count: usize,
    pub cpu_group_start: usize,
    pub cpu_group_size: usize,
    pub gpu_selection: usize,
    pub process_list_selected: Option<usize>,
    pub memory: Memory,
    pub process_ids: Seq<u32>,
    pub mem_offset: usize,
    pub process_selection: Option<u32>,
    pub disk_count: usize,
    pub disk_selection: usize,
    pub network_count: nat,
    pub network_selection: usize,
}

/// The view of an optional string.
pub open spec fn opt_view(s: Option<String>) -> Option<Seq<char>> {
    match s {
        Some(t) => Some(t@),
        None => None,
    }
}

impl View for App {
    type V = AppView;

    open spec fn view(&self) -> AppView {
        AppView {
            state: self.state,
            config: self.config,
            config_dirty: self.config_dirty,
            cfg_state: self.cfg_state,
            keybind_list_selected: self.keybind_list_selected,
            keybind_error: opt_view(self.keybind_error),
            color_list_selected: self.color_list_selected,
            color_target: self.color_target,
            palette_selected: self.palette_selected,
            color_input: self.color_input@,
            color_input_error: opt_view(self.color_input_error),
            device: self.device,
            cpu_count: self.cpu_count,
            gpu_count: self.gpu_count,
            cpu_group_start: self.cpu_group_start,
            cpu_group_size: self.cpu_group_size,
            gpu_selection: self.gpu_selection,
            process_list_selected: self.process_list_selected,
            memory: self.memory,
            process_ids: self.process_ids@,
            mem_offset: self.mem_offset,
            process_selection: self.process_selection,
            disk_count: self.disk_count,
            disk_selection: self.disk_selection,
            network_count: self.networks@.len(),
            network_selection: self.network_selection,
        }
    }
}

/// The number of processor threads: the rows of the processor list after
/// the global row.
pub open spec fn thread_count(v: AppView) -> int {
    if v.cpu_count == 0 {
        0
    } else {
        v.cpu_count - 1
    }
}

/// The number of processor rows in a page.
pub open spec fn group_size(v: AppView) -> int {
    if v.cpu_group_size == 0 {
        DEFAULT_CPU_GROUP_SIZE as int
    } else {
        v.cpu_group_size as int
    }
}

/// The first row of the next page of processors, back to the first page
/// after the last.
pub open spec fn next_group_start(v: AppView) -> int {
    if thread_count(v) == 0 {
        0
    } else if v.cpu_group_start + group_size(v) >= thread_count(v) {
        0
    } else {
        v.cpu_group_start + group_size(v)
    }
}

/// The first row of the previous page of processors, on to the last page
/// before the first.
pub open spec fn previous_group_start(v: AppView) -> int {
    if thread_count(v) == 0 {
        0
    } else if v.cpu_group_start < group_size(v) {
        ((thread_count(v) - 1) / group_size(v)) * group_size(v)
    } else {
        v.cpu_group_start - group_size(v)
    }
}

/// The entry above the selected one in a list whose last entry is `last`,
/// wrapping to the last entry.
pub open spec fn entry_above(selected: Option<usize>, last: usize) -> usize {
    match selected {
        Some(i) => if i == 0 { last } else { (i - 1) as usize },
        None => last,
    }
}

/// The entry below the selected one in a list whose last entry is `last`,
/// wrapping to the first entry.
pub open spec fn entry_below(selected: Option<usize>, last: usize) -> usize {
    match selected {
        Some(i) => if i >= last { 0 } else { (i + 1) as usize },
        None => 0,
    }
}

/// The selection after moving right in a list of `count` entries.
pub open spec fn cycled_right(selection: usize, count: int) -> usize {
    if count > 0 { ((selection + 1) % count) as usize } else { selection }
}

/// Whether a key pressed in the panels leaves the focused panel.
pub open spec fn is_back_key(v: AppView, k: char) -> bool {
    let kb = v.config.keybinds;
    ||| v.device == DeviceSelector::Processor && k == kb.processor
    ||| v.device == DeviceSelector::Graphics && k == kb.graphics
    ||| v.device == DeviceSelector::Processes && k == kb.processes
    ||| v.device == DeviceSelector::Memory && k == kb.memory
    ||| v.device == DeviceSelector::Disk && k == kb.disk
    ||| v.device == DeviceSelector::System && k == kb.system
    ||| v.device == DeviceSelector::Network && k == kb.network
}

/// A character key pressed in the panels.
pub open spec fn running_char_step(v: AppView, k: char) -> AppView {
    let kb = v.config.keybinds;
    if is_back_key(v, k) {
        AppView { device: DeviceSelector::NoDevice, ..v }
    } else if v.device == DeviceSelector::Memory && k == '+' {
        let prec = if v.memory.prec_count < 4 { (v.memory.prec_count + 1) as usize } else { 0 };
        AppView { memory: Memory { prec_count: prec, ..v.memory }, ..v }
    } else if v.device == DeviceSelector::Memory && k == '-' {
        let prec = if v.memory.prec_count == 0 { 3 } else { (v.memory.prec_count - 1) as usize };
        AppView { memory: Memory { prec_count: prec, ..v.memory }, ..v }
    } else if k == kb.processor {
        AppView { device: DeviceSelector::Processor, ..v }
    } else if k == kb.graphics {
        AppView { device: DeviceSelector::Graphics, ..v }
    } else if k == kb.processes {
        AppView {
            device: DeviceSelector::Processes,
            process_list_selected: if v.process_ids.len() > 0 {
                Some(0usize)
            } else {
                v.process_list_selected
            },
            ..v
        }
    } else if k == kb.memory {
        AppView { device: DeviceSelector::Memory, ..v }
    } else if k == kb.disk {
        AppView { device: DeviceSelector::Disk, ..v }
    } else if k == kb.system {
        AppView { device: DeviceSelector::System, ..v }
    } else if k == kb.network {
        let last: int = if v.network_count == 0 { 0 } else { v.network_count - 1 };
        AppView {
            network_selection: if v.network_selection <= last { v.network_selection } else { last as usize },
            device: DeviceSelector::Network,
            ..v
        }
    } else if k == kb.quit {
        AppView { state: AppState::Quitting, ..v }
    } else if k == kb.config {
        AppView { state: AppState::Config, ..v }
    } else {
        v
    }
}

/// The process list entry that the arrows move to when a process is inspected.
pub open spec fn inspected_neighbour(v: AppView, right: bool) -> int {
    let current: int = match v.process_list_selected {
        Some(i) => i as int,
        None => 0,
    };
    if right {
        if current + 1 > usize::MAX { usize::MAX as int } else { current + 1 }
    } else {
        if current == 0 { 0 } else { current - 1 }
    }
}

/// The right or left arrow pressed in the panels.
pub open spec fn running_arrow_step(v: AppView, right: bool) -> AppView {
    match v.device {
        DeviceSelector::Processor => AppView {
            cpu_group_start: (if right { next_group_start(v) } else { previous_group_start(v) }) as usize,
            ..v
        },
        DeviceSelector::Graphics => AppView {
            gpu_selection: if right {
                cycled_right(v.gpu_selection, v.gpu_count as int)
            } else if v.gpu_count == 0 {
                v.gpu_selection
            } else if v.gpu_selection == 0 {
                (v.gpu_count - 1) as usize
            } else {
                ((v.gpu_selection - 1) % (v.gpu_count as int)) as usize
            },
            ..v
        },
        DeviceSelector::Network => AppView {
            network_selection: if right {
                cycled_right(v.network_selection, v.network_count as int)
            } else if v.network_count == 0 {
                v.network_selection
            } else if v.network_selection == 0 {
                (v.network_count - 1) as usize
            } else {
                (v.network_selection - 1) as usize
            },
            ..v
        },
        DeviceSelector::Disk => AppView {
            disk_selection: if right {
                cycled_right(v.disk_selection, v.disk_count as int)
            } else if v.disk_count == 0 {
                v.disk_selection
            } else if v.disk_selection == 0 {
                (v.disk_count - 1) as usize
            } else {
                ((v.disk_selection - 1) % (v.disk_count as int)) as usize
            },
            ..v
        },
        DeviceSelector::Processes => if v.process_selection is Some && v.process_ids.len() > 0 {
            let next = inspected_neighbour(v, right);
            AppView {
                process_list_selected: Some(next as usize),
                process_selection: Some(v.process_ids[next]),
                ..v
            }
        } else {
            v
        },
        _ => v,
    }
}

/// The up or down arrow pressed in the panels.
pub open spec fn running_vertical_step(v: AppView, down: bool) -> AppView {
    if v.device == DeviceSelector::Processes && v.process_ids.len() > 0 {
        let last = (v.process_ids.len() - 1) as usize;
        let target = if down {
            entry_below(v.process_list_selected, last)
        } else {
            entry_above(v.process_list_selected, last)
        };
        AppView { process_list_selected: Some(target), mem_offset: (target + 1) as usize, ..v }
    } else {
        v
    }
}

/// A key pressed in the panels.
pub open spec fn running_step(v: AppView, code: KeyCode) -> AppView {
    match code {
        KeyCode::Char(k) => running_char_step(v, k),
        KeyCode::Right => running_arrow_step(v, true),
        KeyCode::Left => running_arrow_step(v, false),
        KeyCode::Up => running_vertical_step(v, false),
        KeyCode::Down => running_vertical_step(v, true),
        KeyCode::Enter => if v.device == DeviceSelector::Processes {
            match v.process_list_selected {
                Some(i) => AppView {
                    process_selection: if i < v.process_ids.len() {
                        Some(v.process_ids[i as int])
                    } else {
                        None
                    },
                    ..v
                },
                None => v,
            }
        } else {
            v
        },
        KeyCode::Esc => if v.device == DeviceSelector::Processes && v.process_selection is Some {
            AppView { process_selection: None, ..v }
        } else if v.device == DeviceSelector::Processes {
            AppView { device: DeviceSelector::NoDevice, ..v }
        } else {
            AppView { device: DeviceSelector::NoDevice, process_selection: None, ..v }
        },
        _ => v,
    }
}

/// The panel color set to `color` for `target`.
pub open spec fn with_panel_color(colors: Colors, target: ColorTarget, color: ConfigColor) -> Colors {
    match target {
        ColorTarget::Disk => Colors { disk: color, ..colors },
        ColorTarget::Processes => Colors { processes: color, ..colors },
        ColorTarget::Memory => Colors { memory: color, ..colors },
        ColorTarget::Network => Colors { network: color, ..colors },
    }
}

/// The chosen color given to the panel being recolored, if there is one.
pub open spec fn color_applied(v: AppView, color: ConfigColor) -> AppView {
    match v.color_target {
        Some(target) => AppView {
            config: Config { colors: with_panel_color(v.config.colors, target, color), ..v.config },
            config_dirty: true,
            ..v
        },
        None => v,
    }
}

/// Back from the color picker to the list of panel colors.
pub open spec fn color_picker_finished(v: AppView) -> AppView {
    AppView {
        color_target: None,
        color_input: Seq::empty(),
        color_input_error: None,
        cfg_state: ConfigState::Colors,
        color_list_selected: Some(0usize),
        ..v
    }
}

/// The panel color that the entry at `index` of the color list changes.
pub open spec fn target_at(index: usize) -> Option<ColorTarget> {
    if index == 0 {
        Some(ColorTarget::Disk)
    } else if index == 1 {
        Some(ColorTarget::Processes)
    } else if index == 2 {
        Some(ColorTarget::Memory)
    } else if index == 3 {
        Some(ColorTarget::Network)
    } else {
        None
    }
}

/// The color picker entry at `index`, `White` past the end.
pub open spec fn palette_entry(index: usize) -> ConfigColor {
    if index < PALETTE_LEN {
        palette()[index as int]
    } else {
        ConfigColor::White
    }
}

/// The message for a character that cannot be part of a custom color.
pub open spec fn bad_character_message() -> Seq<char> {
    "use numbers separated by commas"@
}

/// A character key pressed in the configuration screen.
pub open spec fn config_char_step(v: AppView, c: char) -> AppView {
    let kb = v.config.keybinds;
    if v.cfg_state == ConfigState::Keybinds && c == 'k' {
        AppView { cfg_state: ConfigState::Menu, ..v }
    } else if v.cfg_state == ConfigState::KeybindInput {
        match v.keybind_list_selected {
            Some(index) => if index >= KEYBIND_COUNT {
                AppView { keybind_error: Some(Keybinds::invalid_index_message(index as nat)), ..v }
            } else if key_taken(kb.keys(), index as int, c) {
                AppView { keybind_error: Some(Keybinds::in_use_message(c)), ..v }
            } else {
                AppView {
                    config: Config { keybinds: kb.with_key(index as int, c), ..v.config },
                    config_dirty: true,
                    keybind_error: None,
                    cfg_state: ConfigState::Keybinds,
                    ..v
                }
            },
            None => v,
        }
    } else if v.cfg_state == ConfigState::Colors && c == 'c' {
        AppView { cfg_state: ConfigState::Menu, ..v }
    } else if v.cfg_state is ColorInput {
        if ('0' <= c && c <= '9') || c == ',' || c == ' ' {
            AppView { color_input: v.color_input.push(c), color_input_error: None, ..v }
        } else {
            AppView { color_input_error: Some(bad_character_message()), ..v }
        }
    } else if c == kb.quit {
        AppView { state: AppState::Quitting, ..v }
    } else if c == 'k' {
        AppView { cfg_state: ConfigState::Keybinds, keybind_list_selected: Some(0usize), ..v }
    } else if c == 'c' {
        AppView { cfg_state: ConfigState::Colors, color_list_selected: Some(0usize), ..v }
    } else {
        v
    }
}

/// The up or down arrow pressed in the configuration screen.
pub open spec fn config_vertical_step(v: AppView, down: bool) -> AppView {
    match v.cfg_state {
        ConfigState::Keybinds => {
            let last = (KEYBIND_COUNT - 1) as usize;
            AppView {
                keybind_list_selected: Some(
                    if down {
                        entry_below(v.keybind_list_selected, last)
                    } else {
                        entry_above(v.keybind_list_selected, last)
                    },
                ),
                ..v
            }
        },
        ConfigState::Colors => {
            let last = (PANEL_COLOR_COUNT - 1) as usize;
            AppView {
                color_list_selected: Some(
                    if down {
                        entry_below(v.color_list_selected, last)
                    } else {
                        entry_above(v.color_list_selected, last)
                    },
                ),
                ..v
            }
        },
        ConfigState::ColorPicker => {
            let last = (PALETTE_LEN - 1) as usize;
            AppView {
                palette_selected: Some(
                    if down {
                        entry_below(v.palette_selected, last)
                    } else {
                        entry_above(v.palette_selected, last)
                    },
                ),
                ..v
            }
        },
        _ => v,
    }
}

/// Enter pressed in the configuration screen.
pub open spec fn config_enter_step(v: AppView) -> AppView {
    match v.cfg_state {
        ConfigState::Keybinds => if v.keybind_list_selected is Some {
            AppView { keybind_error: None, cfg_state: ConfigState::KeybindInput, ..v }
        } else {
            v
        },
        ConfigState::Colors => match v.color_list_selected {
            Some(index) => AppView {
                color_target: target_at(index),
                cfg_state: ConfigState::ColorPicker,
                palette_selected: Some(0usize),
                ..v
            },
            None => v,
        },
        ConfigState::ColorPicker => match v.palette_selected {
            Some(index) => match palette_entry(index) {
                ConfigColor::Rgb(_, _, _) => AppView {
                    color_input: Seq::empty(),
                    color_input_error: None,
                    cfg_state: ConfigState::ColorInput(ColorInputKind::Rgb),
                    ..v
                },
                ConfigColor::Indexed(_) => AppView {
                    color_input: Seq::empty(),
                    color_input_error: None,
                    cfg_state: ConfigState::ColorInput(ColorInputKind::Indexed),
                    ..v
                },
                color => color_picker_finished(color_applied(v, color)),
            },
            None => v,
        },
        ConfigState::ColorInput(kind) => match color_input_outcome(kind, v.color_input) {
            Ok(color) => color_picker_finished(color_applied(v, color)),
            Err(message) => AppView { color_input_error: Some(message), ..v },
        },
        _ => v,
    }
}

/// A key pressed in the configuration screen.
pub open spec fn config_step(v: AppView, code: KeyCode) -> AppView {
    match code {
        KeyCode::Char(c) => config_char_step(v, c),
        KeyCode::Up => config_vertical_step(v, false),
        KeyCode::Down => config_vertical_step(v, true),
        KeyCode::Enter => config_enter_step(v),
        KeyCode::Esc => if v.cfg_state == ConfigState::KeybindInput {
            AppView { keybind_error: None, cfg_state: ConfigState::Keybinds, ..v }
        } else if v.cfg_state is ColorInput {
            AppView {
                color_input: Seq::empty(),
                color_input_error: None,
                cfg_state: ConfigState::ColorPicker,
                ..v
            }
        } else {
            AppView { state: AppState::Running, ..v }
        },
        KeyCode::Backspace => if v.cfg_state is ColorInput {
            AppView {
                color_input: if v.color_input.len() > 0 { v.color_input.drop_last() } else { v.color_input },
                color_input_error: None,
                ..v
            }
        } else {
            v
        },
        _ => v,
    }
}

/// The state after a key event.
pub open spec fn key_step(v: AppView, key: KeyPress) -> AppView {
    if !key.pressed {
        v
    } else if v.state == AppState::Running {
        running_step(v, key.code)
    } else if v.state == AppState::Config {
        config_step(v, key.code)
    } else {
        v
    }
}

/// Whether handling the key event would index past the process list or
/// overflow a selection: the monitor stops on such a key.
pub open spec fn key_press_fails(v: AppView, key: KeyPress) -> bool {
    &&& key.pressed
    &&& v.state == AppState::Running
    &&& match key.code {
        KeyCode::Right => match v.device {
            DeviceSelector::Processor => thread_count(v) > 0 && v.cpu_group_start + group_size(v)
                > usize::MAX,
            DeviceSelector::Graphics => v.gpu_count > 0 && v.gpu_selection == usize::MAX,
            DeviceSelector::Network => v.network_count > 0 && v.network_selection == usize::MAX,
            DeviceSelector::Disk => v.disk_count > 0 && v.disk_selection == usize::MAX,
            DeviceSelector::Processes => v.process_selection is Some && v.process_ids.len() > 0
                && inspected_neighbour(v, true) >= v.process_ids.len(),
            _ => false,
        },
        KeyCode::Left => v.device == DeviceSelector::Processes && v.process_selection is Some
            && v.process_ids.len() > 0 && inspected_neighbour(v, false) >= v.process_ids.len(),
        _ => false,
    }
}


/// The entry above the selected one in a list whose last entry is `last`.
pub fn select_above(selected: Option<usize>, last: usize) -> (r: usize)
    ensures
        r == entry_above(selected, last),
{
    match selected {
        Some(0) | None => last,
        Some(index) => index - 1,
    }
}

/// The entry below the selected one in a list whose last entry is `last`.
pub fn select_below(selected: Option<usize>, last: usize) -> (r: usize)
    requires
        last < usize::MAX,
    ensures
        r == entry_below(selected, last),
{
    match selected {
        Some(index) => if index >= last {
            0
        } else {
            index + 1
        },
        None => 0,
    }
}

impl App {
    /// The title of the keybind list: while a key is being entered, the
    /// message that refused the last one, if any.
    pub fn keybind_list_title(&self) -> (r: String)
        ensures
            r@ == (match (self.cfg_state, self.keybind_error) {
                (ConfigState::KeybindInput, Some(error)) => "Keybinds - "@ + error@,
                _ => "Keybinds"@,
            }),
    {
        match (&self.cfg_state, &self.keybind_error) {
            (ConfigState::KeybindInput, Some(error)) => {
                let mut title = String::from_str("Keybinds - ");
                push_str(&mut title, error.as_str());
                title
            },
            _ => String::from_str("Keybinds"),
        }
    }
}

impl App {
    /// Whether `self` and `other` show the same system, processor and
    /// network data.
    pub open spec fn same_data(&self, other: &App) -> bool {
        &&& self.system == other.system
        &&& self.cpu == other.cpu
        &&& self.networks == other.networks
    }

    /// The number of processor threads.
    pub fn cpu_thread_count(&self) -> (r: usize)
        ensures
            r == thread_count(self@),
    {
        self.cpu_count.saturating_sub(1)
    }

    /// The number of processor rows in a page.
    pub fn current_cpu_group_size(&self) -> (r: usize)
        ensures
            r == group_size(self@),
            r > 0,
    {
        if self.cpu_group_size == 0 {
            DEFAULT_CPU_GROUP_SIZE
        } else {
            self.cpu_group_size
        }
    }

    /// Shows the next page of processors, the first after the last.
    pub fn next_cpu_group(&mut self)
        requires
            thread_count(old(self)@) > 0 ==> old(self).cpu_group_start + group_size(old(self)@)
                <= usize::MAX,
        ensures
            final(self)@ == (AppView { cpu_group_start: next_group_start(old(self)@) as usize, ..old(self)@ }),
            final(self).same_data(old(self)),
    {
        let thread_count = self.cpu_thread_count();
        if thread_count == 0 {
            self.cpu_group_start = 0;
            return;
        }
        let group_size = self.current_cpu_group_size();
        let next_group = self.cpu_group_start + group_size;
        self.cpu_group_start = if next_group >= thread_count {
            0
        } else {
            next_group
        };
    }

    /// Shows the previous page of processors, the last before the first.
    pub fn previous_cpu_group(&mut self)
        ensures
            final(self)@ == (AppView {
                cpu_group_start: previous_group_start(old(self)@) as usize,
                ..old(self)@
            }),
            final(self).same_data(old(self)),
    {
        let thread_count = self.cpu_thread_count();
        if thread_count == 0 {
            self.cpu_group_start = 0;
            return;
        }
        let group_size = self.current_cpu_group_size();
        self.cpu_group_start = if self.cpu_group_start < group_size {
            proof {
                assert((thread_count - 1) / (group_size as int) * (group_size as int) <= thread_count - 1)
                    by (nonlinear_arith)
                    requires
                        group_size > 0,
                        thread_count >= 1,
                ;
            }
            ((thread_count - 1) / group_size) * group_size
        } else {
            self.cpu_group_start - group_size
        };
    }

    /// Gives the panel being recolored the chosen color, if a panel is
    /// being recolored.
    pub fn apply_color(&mut self, color: ConfigColor)
        ensures
            final(self)@ == color_applied(old(self)@, color),
            final(self).same_data(old(self)),
    {
        if let Some(target) = self.color_target {
            match target {
                ColorTarget::Disk => self.config.colors.disk = color,
                ColorTarget::Processes => self.config.colors.processes = color,
                ColorTarget::Memory => self.config.colors.memory = color,
                ColorTarget::Network => self.config.colors.network = color,
            }
            self.config_dirty = true;
        }
    }

    /// Leaves the color picker for the list of panel colors.
    pub fn finish_color_picker(&mut self)
        ensures
            final(self)@ == color_picker_finished(old(self)@),
            final(self).same_data(old(self)),
    {
        self.color_target = None;
        self.color_input = String::new();
        self.color_input_error = None;
        self.cfg_state = ConfigState::Colors;
        self.color_list_selected = Some(0);
    }

    fn handle_running_char(&mut self, k: char)
        ensures
            final(self)@ == running_char_step(old(self)@, k),
            final(self).same_data(old(self)),
    {
        let kb = self.config.keybinds;
        let back = match self.device {
            DeviceSelector::Processor => k == kb.processor,
            DeviceSelector::Graphics => k == kb.graphics,
            DeviceSelector::Processes => k == kb.processes,
            DeviceSelector::Memory => k == kb.memory,
            DeviceSelector::Disk => k == kb.disk,
            DeviceSelector::System => k == kb.system,
            DeviceSelector::Network => k == kb.network,
            DeviceSelector::NoDevice => false,
        };
        if back {
            self.device = DeviceSelector::NoDevice;
        } else if self.device == DeviceSelector::Memory && k == '+' {
            if self.memory.prec_count < 4 {
                self.memory.prec_count += 1;
            } else {
                self.memory.prec_count = 0;
            }
        } else if self.device == DeviceSelector::Memory && k == '-' {
            if self.memory.prec_count == 0 {
                self.memory.prec_count = 3;
            } else {
                self.memory.prec_count -= 1;
            }
        } else if k == kb.processor {
            self.device = DeviceSelector::Processor;
        } else if k == kb.graphics {
            self.device = DeviceSelector::Graphics;
        } else if k == kb.processes {
            self.device = DeviceSelector::Processes;
            if self.process_ids.len() > 0 {
                self.process_list_selected = Some(0);
            }
        } else if k == kb.memory {
            self.device = DeviceSelector::Memory;
        } else if k == kb.disk {
            self.device = DeviceSelector::Disk;
        } else if k == kb.system {
            self.device = DeviceSelector::System;
        } else if k == kb.network {
            let last = self.networks.len().saturating_sub(1);
            if self.network_selection > last {
                self.network_selection = last;
            }
            self.device = DeviceSelector::Network;
        } else if k == kb.quit {
            self.state = AppState::Quitting;
        } else if k == kb.config {
            self.state = AppState::Config;
        }
    }

    fn handle_running_arrow(&mut self, right: bool)
        requires
            !key_press_fails(
                old(self)@,
                (KeyPress { code: if right { KeyCode::Right } else { KeyCode::Left }, pressed: true }),
            ),
            old(self).state == AppState::Running,
        ensures
            final(self)@ == running_arrow_step(old(self)@, right),
            final(self).same_data(old(self)),
    {
        match self.device {
            DeviceSelector::Processor => {
                if right {
                    self.next_cpu_group();
                } else {
                    self.previous_cpu_group();
                }
            },
            DeviceSelector::Graphics => {
                if self.gpu_count > 0 {
                    if right {
                        self.gpu_selection = (self.gpu_selection + 1) % self.gpu_count;
                    } else if self.gpu_selection == 0 {
                        self.gpu_selection = self.gpu_count - 1;
                    } else {
                        self.gpu_selection = (self.gpu_selection - 1) % self.gpu_count;
                    }
                }
            },
            DeviceSelector::Network => {
                if self.networks.len() > 0 {
                    if right {
                        self.network_selection = (self.network_selection + 1) % self.networks.len();
                    } else if self.network_selection == 0 {
                        self.network_selection = self.networks.len() - 1;
                    } else {
                        self.network_selection -= 1;
                    }
                }
            },
            DeviceSelector::Disk => {
                if self.disk_count > 0 {
                    if right {
                        self.disk_selection = (self.disk_selection + 1) % self.disk_count;
                    } else if self.disk_selection == 0 {
                        self.disk_selection = self.disk_count - 1;
                    } else {
                        self.disk_selection = (self.disk_selection - 1) % self.disk_count;
                    }
                }
            },
            DeviceSelector::Processes => {
                if self.process_selection.is_some() && self.process_ids.len() > 0 {
                    let current = match self.process_list_selected {
                        Some(index) => index,
                        None => 0,
                    };
                    let next = if right {
                        current.saturating_add(1)
                    } else {
                        current.saturating_sub(1)
                    };
                    self.process_list_selected = Some(next);
                    self.process_selection = Some(self.process_ids[next]);
                }
            },
            _ => {},
        }
    }

    fn handle_running_vertical(&mut self, down: bool)
        ensures
            final(self)@ == running_vertical_step(old(self)@, down),
            final(self).same_data(old(self)),
    {
        if self.device == DeviceSelector::Processes && self.process_ids.len() > 0 {
            let last = self.process_ids.len() - 1;
            let target = if down {
                select_below(self.process_list_selected, last)
            } else {
                select_above(self.process_list_selected, last)
            };
            self.process_list_selected = Some(target);
            self.mem_offset = target + 1;
        }
    }

    fn handle_running_key(&mut self, code: KeyCode)
        requires
            !key_press_fails(old(self)@, (KeyPress { code, pressed: true })),
            old(self).state == AppState::Running,
        ensures
            final(self)@ == running_step(old(self)@, code),
            final(self).same_data(old(self)),
    {
        match code {
            KeyCode::Char(k) => self.handle_running_char(k),
            KeyCode::Right => self.handle_running_arrow(true),
            KeyCode::Left => self.handle_running_arrow(false),
            KeyCode::Up => self.handle_running_vertical(false),
            KeyCode::Down => self.handle_running_vertical(true),
            KeyCode::Enter => {
                if self.device == DeviceSelector::Processes {
                    if let Some(index) = self.process_list_selected {
                        self.process_selection = if index < self.process_ids.len() {
                            Some(self.process_ids[index])
                        } else {
                            None
                        };
                    }
                }
            },
            KeyCode::Esc => {
                if self.device == DeviceSelector::Processes {
                    if self.process_selection.is_some() {
                        self.process_selection = None;
                    } else {
                        self.device = DeviceSelector::NoDevice;
                    }
                } else {
                    self.device = DeviceSelector::NoDevice;
                    self.process_selection = None;
                }
            },
            _ => {},
        }
    }

    fn handle_config_char(&mut self, c: char)
        ensures
            final(self)@ == config_char_step(old(self)@, c),
            final(self).same_data(old(self)),
    {
        if self.cfg_state == ConfigState::Keybinds && c == 'k' {
            self.cfg_state = ConfigState::Menu;
        } else if self.cfg_state == ConfigState::KeybindInput {
            if let Some(index) = self.keybind_list_selected {
                match self.config.keybinds.set(index, c) {
                    Ok(()) => {
                        self.config_dirty = true;
                        self.keybind_error = None;
                        self.cfg_state = ConfigState::Keybinds;
                    },
                    Err(error) => self.keybind_error = Some(error),
                }
            }
        } else if self.cfg_state == ConfigState::Colors && c == 'c' {
            self.cfg_state = ConfigState::Menu;
        } else if let ConfigState::ColorInput(_) = self.cfg_state {
            if ('0' <= c && c <= '9') || c == ',' || c == ' ' {
                push_char(&mut self.color_input, c);
                self.color_input_error = None;
            } else {
                self.color_input_error = Some(String::from_str("use numbers separated by commas"));
            }
        } else if c == self.config.keybinds.quit {
            self.state = AppState::Quitting;
        } else if c == 'k' {
            self.cfg_state = ConfigState::Keybinds;
            self.keybind_list_selected = Some(0);
        } else if c == 'c' {
            self.cfg_state = ConfigState::Colors;
            self.color_list_selected = Some(0);
        }
    }

    fn handle_config_vertical(&mut self, down: bool)
        ensures
            final(self)@ == config_vertical_step(old(self)@, down),
            final(self).same_data(old(self)),
    {
        match self.cfg_state {
            ConfigState::Keybinds => {
                let last = self.config.keybinds.len() - 1;
                let target = if down {
                    select_below(self.keybind_list_selected, last)
                } else {
                    select_above(self.keybind_list_selected, last)
                };
                self.keybind_list_selected = Some(target);
            },
            ConfigState::Colors => {
                let last = self.config.colors.len() - 1;
                let target = if down {
                    select_below(self.color_list_selected, last)
                } else {
                    select_above(self.color_list_selected, last)
                };
                self.color_list_selected = Some(target);
            },
            ConfigState::ColorPicker => {
                let last = ConfigColor::len() - 1;
                let target = if down {
                    select_below(self.palette_selected, last)
                } else {
                    select_above(self.palette_selected, last)
                };
                self.palette_selected = Some(target);
            },
            _ => {},
        }
    }

    fn handle_config_enter(&mut self)
        ensures
            final(self)@ == config_enter_step(old(self)@),
            final(self).same_data(old(self)),
    {
        match self.cfg_state {
            ConfigState::Keybinds => {
                if self.keybind_list_selected.is_some() {
                    self.keybind_error = None;
                    self.cfg_state = ConfigState::KeybindInput;
                }
            },
            ConfigState::Colors => {
                if let Some(index) = self.color_list_selected {
                    self.color_target = match index {
                        0 => Some(ColorTarget::Disk),
                        1 => Some(ColorTarget::Processes),
                        2 => Some(ColorTarget::Memory),
                        3 => Some(ColorTarget::Network),
                        _ => None,
                    };
                    self.cfg_state = ConfigState::ColorPicker;
                    self.palette_selected = Some(0);
                }
            },
            ConfigState::ColorPicker => {
                if let Some(index) = self.palette_selected {
                    let color = ConfigColor::select(index);
                    match color {
                        ConfigColor::Rgb(_, _, _) => {
                            self.color_input = String::new();
                            self.color_input_error = None;
                            self.cfg_state = ConfigState::ColorInput(ColorInputKind::Rgb);
                        },
                        ConfigColor::Indexed(_) => {
                            self.color_input = String::new();
                            self.color_input_error = None;
                            self.cfg_state = ConfigState::ColorInput(ColorInputKind::Indexed);
                        },
                        _ => {
                            self.apply_color(color);
                            self.finish_color_picker();
                        },
                    }
                }
            },
            ConfigState::ColorInput(kind) => {
                match parse_color_input(kind, self.color_input.as_str()) {
                    Ok(color) => {
                        self.apply_color(color);
                        self.finish_color_picker();
                    },
                    Err(error) => self.color_input_error = Some(error),
                }
            },
            _ => {},
        }
    }

    fn handle_config_key(&mut self, code: KeyCode)
        ensures
            final(self)@ == config_step(old(self)@, code),
            final(self).same_data(old(self)),
    {
        match code {
            KeyCode::Char(c) => self.handle_config_char(c),
            KeyCode::Up => self.handle_config_vertical(false),
            KeyCode::Down => self.handle_config_vertical(true),
            KeyCode::Enter => self.handle_config_enter(),
            KeyCode::Esc => {
                if self.cfg_state == ConfigState::KeybindInput {
                    self.keybind_error = None;
                    self.cfg_state = ConfigState::Keybinds;
                } else if let ConfigState::ColorInput(_) = self.cfg_state {
                    self.color_input = String::new();
                    self.color_input_error = None;
                    self.cfg_state = ConfigState::ColorPicker;
                } else {
                    self.state = AppState::Running;
                }
            },
            KeyCode::Backspace => {
                if let ConfigState::ColorInput(_) = self.cfg_state {
                    pop_char(&mut self.color_input);
                    self.color_input_error = None;
                }
            },
            _ => {},
        }
    }

    /// Whether handling `key` would index past the process list or overflow a
    /// selection, which stops the monitor.
    pub fn key_press_would_fail(&self, key: KeyPress) -> (r: bool)
        ensures
            r == key_press_fails(self@, key),
    {
        if !key.pressed || self.state != AppState::Running {
            return false;
        }
        match key.code {
            KeyCode::Right => match self.device {
                DeviceSelector::Processor => {
                    let threads = self.cpu_thread_count();
                    threads > 0 && self.cpu_group_start > usize::MAX - self.current_cpu_group_size()
                },
                DeviceSelector::Graphics => self.gpu_count > 0 && self.gpu_selection == usize::MAX,
                DeviceSelector::Network => self.networks.len() > 0 && self.network_selection == usize::MAX,
                DeviceSelector::Disk => self.disk_count > 0 && self.disk_selection == usize::MAX,
                DeviceSelector::Processes => {
                    if self.process_selection.is_some() && self.process_ids.len() > 0 {
                        let current = match self.process_list_selected {
                            Some(index) => index,
                            None => 0,
                        };
                        current.saturating_add(1) >= self.process_ids.len()
                    } else {
                        false
                    }
                },
                _ => false,
            },
            KeyCode::Left => {
                if self.device == DeviceSelector::Processes && self.process_selection.is_some()
                    && self.process_ids.len() > 0 {
                    let current = match self.process_list_selected {
                        Some(index) => index,
                        None => 0,
                    };
                    current.saturating_sub(1) >= self.process_ids.len()
                } else {
                    false
                }
            },
            _ => false,
        }
    }

    /// Handles one key event: moves the focus between panels, pages and
    /// selects within a panel, edits the configuration, or quits.
    pub fn handle_key_events(&mut self, key: KeyPress)
        requires
            !key_press_fails(old(self)@, key),
        ensures
            final(self)@ == key_step(old(self)@, key),
            final(self).same_data(old(self)),
    {
        if !key.pressed {
            return;
        }
        if self.state == AppState::Running {
            self.handle_running_key(key.code);
        } else if self.state == AppState::Config {
            self.handle_config_key(key.code);
        }
    }
}


/// The state in which the monitor starts: running, no panel focused, the
/// default configuration, nothing sampled yet.
pub open spec fn initial_view() -> AppView {
    AppView {
        state: AppState::Running,
        config: Config { keybinds: Keybinds::spec_default(), colors: Colors::spec_default() },
        config_dirty: false,
        cfg_state: ConfigState::Menu,
        keybind_list_selected: None,
        keybind_error: None,
        color_list_selected: None,
        color_target: None,
        palette_selected: None,
        color_input: Seq::empty(),
        color_input_error: None,
        device: DeviceSelector::NoDevice,
        cpu_count: 0,
        gpu_count: 0,
        cpu_group_start: 0,
        cpu_group_size: 0,
        gpu_selection: 0,
        process_list_selected: None,
        memory: Memory {
            capacity: 0,
            free: 0,
            used: 0,
            swap: crate::models::Swap { capacity: 0, free: 0, used: 0 },
            prec_count: 0,
        },
        process_ids: Seq::empty(),
        mem_offset: 0,
        process_selection: None,
        disk_count: 0,
        disk_selection: 0,
        network_count: 0,
        network_selection: 0,
    }
}

impl Default for App {
    fn default() -> (r: Self)
        ensures
            r@ == initial_view(),
            r.networks@.len() == 0,
    {
        App {
            state: AppState::Running,
            config: Config::default(),
            config_dirty: false,
            cfg_state: ConfigState::Menu,
            keybind_list_selected: None,
            keybind_error: None,
            color_list_selected: None,
            color_target: None,
            palette_selected: None,
            color_input: String::new(),
            color_input_error: None,
            device: DeviceSelector::NoDevice,
            system: Machine::default(),
            cpu: CpuInfo::default(),
            cpu_count: 0,
            gpu_count: 0,
            cpu_group_start: 0,
            cpu_group_size: 0,
            gpu_selection: 0,
            process_list_selected: None,
            memory: Memory::default(),
            process_ids: Vec::new(),
            mem_offset: 0,
            process_selection: None,
            disk_count: 0,
            disk_selection: 0,
            networks: Vec::new(),
            network_selection: 0,
        }
    }
}


/// Whether the interfaces are in order of their names (as Rust compares strings).
pub open spec fn sorted_by_name(s: Seq<NetworkInterface>) -> bool {
    forall|i: int, j: int| 0 <= i < j < s.len() ==> !lex_lt(#[trigger] s[j].name@, #[trigger] s[i].name@)
}

proof fn lemma_insert_keeps_sorted(s: Seq<NetworkInterface>, p: int, x: NetworkInterface)
    requires
        sorted_by_name(s),
        0 <= p <= s.len(),
        forall|q: int| 0 <= q < p ==> !lex_lt(x.name@, #[trigger] s[q].name@),
        p < s.len() ==> lex_lt(x.name@, s[p].name@),
    ensures
        sorted_by_name(s.insert(p, x)),
{
    let t = s.insert(p, x);
    assert forall|i: int, j: int| 0 <= i < j < t.len() implies !lex_lt(
        #[trigger] t[j].name@,
        #[trigger] t[i].name@,
    ) by {
        if j < p {
            assert(t[i] == s[i] && t[j] == s[j]);
        } else if j == p {
            assert(t[i] == s[i]);
        } else if i < p {
            assert(t[i] == s[i] && t[j] == s[j - 1]);
            assert(!lex_lt(s[j - 1].name@, s[i].name@));
        } else if i == p {
            assert(t[j] == s[j - 1]);
            if lex_lt(s[j - 1].name@, x.name@) {
                if j - 1 == p {
                    lemma_lex_asymmetric(x.name@, s[p].name@);
                } else {
                    assert(!lex_lt(s[j - 1].name@, s[p].name@));
                    lemma_lex_transitive(s[j - 1].name@, x.name@, s[p].name@);
                }
            }
        } else {
            assert(t[i] == s[i - 1] && t[j] == s[j - 1]);
            assert(!lex_lt(s[j - 1].name@, s[i - 1].name@));
        }
    }
}

/// The interfaces of `s` named `name`, in their order in `s`.
pub open spec fn with_name(s: Seq<NetworkInterface>, name: Seq<char>) -> Seq<NetworkInterface> {
    s.filter(|i: NetworkInterface| i.name@ == name)
}

/// The interfaces in order of their names; interfaces of the same name keep
/// their order.
pub fn sort_by_name(interfaces: Vec<NetworkInterface>) -> (r: Vec<NetworkInterface>)
    ensures
        r@.to_multiset() == interfaces@.to_multiset(),
        sorted_by_name(r@),
        forall|name: Seq<char>| #[trigger] with_name(r@, name) == with_name(interfaces@, name),
{
    broadcast use vstd::seq_lib::group_to_multiset_ensures;
    broadcast use vstd::multiset::group_multiset_axioms;

    let ghost input = interfaces@;
    let mut rest = interfaces;
    let mut out: Vec<NetworkInterface> = Vec::new();
    while rest.len() > 0
        invariant
            out@.to_multiset().add(rest@.to_multiset()) == input.to_multiset(),
            sorted_by_name(out@),
            forall|name: Seq<char>| #[trigger] with_name(out@, name) + with_name(rest@, name) == with_name(input, name),
        decreases rest@.len(),
    {
        let ghost rest_before = rest@;
        let ghost out_before = out@;
        let item = rest.remove(0);
        let mut p: usize = 0;
        while p < out.len() && !str_less(item.name.as_str(), out[p].name.as_str())
            invariant
                p <= out@.len(),
                out@ == out_before,
                forall|q: int| 0 <= q < p ==> !lex_lt(item.name@, #[trigger] out@[q].name@),
            decreases out@.len() - p,
        {
            p = p + 1;
        }
        let ghost name = item.name@;
        out.insert(p, item);
        proof {
            assert(out@ == out_before.insert(p as int, rest_before[0]));
            assert(rest@ == rest_before.remove(0));
            vstd::seq_lib::to_multiset_insert(out_before, p as int, rest_before[0]);
            vstd::seq_lib::to_multiset_remove(rest_before, 0);
            assert(rest_before.to_multiset().count(rest_before[0]) > 0) by {
                vstd::seq_lib::to_multiset_contains(rest_before, rest_before[0]);
                assert(rest_before.contains(rest_before[0])) by {
                    assert(rest_before[0] == rest_before[0]);
                }
            }
            assert(out@.to_multiset().add(rest@.to_multiset()) =~= out_before.to_multiset().add(
                rest_before.to_multiset(),
            ));
            lemma_insert_keeps_sorted(out_before, p as int, rest_before[0]);
            assert forall|n: Seq<char>| #[trigger] with_name(out@, n) + with_name(rest@, n) == with_name(input, n) by {
                let pred = |i: NetworkInterface| i.name@ == n;
                let x = rest_before[0];
                if pred(x) {
                    assert forall|j: int| p <= j < out_before.len() implies !pred(#[trigger] out_before[j]) by {
                        if out_before[j].name@ == x.name@ {
                            if j == p {
                                lemma_lex_irreflexive(x.name@);
                            } else {
                                assert(!lex_lt(out_before[j].name@, out_before[p as int].name@));
                            }
                        }
                    }
                }
                lemma_filter_insert(out_before, p as int, x, pred);
                lemma_filter_remove_first(rest_before, pred);
                assert(with_name(out_before, n) + with_name(rest_before, n) == with_name(input, n));
                if pred(x) {
                    assert(with_name(out@, n) + with_name(rest@, n) =~= with_name(out_before, n) + with_name(rest_before, n));
                }
            }
        }
    }
    assert(rest@.to_multiset() =~= vstd::multiset::Multiset::empty());
    assert(out@.to_multiset() =~= out@.to_multiset().add(rest@.to_multiset()));
    assert forall|n: Seq<char>| #[trigger] with_name(out@, n) == with_name(input, n) by {
        assert(rest@ =~= Seq::<NetworkInterface>::empty());
        assert(with_name(rest@, n) =~= Seq::<NetworkInterface>::empty()) by {
            reveal(Seq::filter);
        }
        assert(with_name(out@, n) + with_name(rest@, n) =~= with_name(out@, n));
    }
    out
}

/// The number of processor rows that fit in a panel of the given height:
/// the height without the two border rows, at least one.
pub open spec fn rows_for_height(area_height: u16) -> int {
    if area_height <= 3 {
        1
    } else {
        area_height - 2
    }
}

/// The page size that fits the processors in a panel of the given height.
pub open spec fn fitted_group_size(v: AppView, area_height: u16) -> int {
    let threads = if thread_count(v) == 0 { 1 } else { thread_count(v) };
    if rows_for_height(area_height) < threads { rows_for_height(area_height) } else { threads }
}

/// The first row of the page that holds row `start`, moved back to the last
/// page when past it.
pub open spec fn fitted_group_start(v: AppView, size: int) -> int {
    if thread_count(v) == 0 {
        0
    } else {
        let aligned = ((v.cpu_group_start as int) / size) * size;
        let last_start = ((thread_count(v) - 1) / size) * size;
        if aligned < last_start { aligned } else { last_start }
    }
}

/// The title of the processor page.
pub open spec fn core_load_text(v: AppView) -> Seq<char> {
    let threads = thread_count(v);
    let size = group_size(v);
    if threads == 0 {
        "CORE LOAD"@
    } else {
        let start = v.cpu_group_start as int;
        let end = if start + size < threads { start + size } else { threads };
        let pages = (threads + size - 1) / size;
        "CORE LOAD "@ + decimal((start + 1) as nat) + "-"@ + decimal(end as nat) + " / "@ + decimal(
            threads as nat,
        ) + " ("@ + decimal((start / size + 1) as nat) + "/"@ + decimal(pages as nat) + ")"@
    }
}

impl App {
    /// Replaces the network interfaces by `interfaces` in order of their
    /// names, keeping the selection within the list.
    pub fn update_networks(&mut self, interfaces: Vec<NetworkInterface>)
        ensures
            final(self).networks@.to_multiset() == interfaces@.to_multiset(),
            sorted_by_name(final(self).networks@),
            forall|name: Seq<char>| #[trigger] with_name(final(self).networks@, name) == with_name(interfaces@, name),
            final(self)@ == (AppView {
                network_count: interfaces@.len(),
                network_selection: if old(self).network_selection + 1 <= interfaces@.len() {
                    old(self).network_selection
                } else if interfaces@.len() == 0 {
                    0
                } else {
                    (interfaces@.len() - 1) as usize
                },
                ..old(self)@
            }),
            final(self).system == old(self).system,
            final(self).cpu == old(self).cpu,
            selections_in_range(old(self)@) ==> selections_in_range(final(self)@),
    {
        broadcast use vstd::seq_lib::group_to_multiset_ensures;

        let ghost given = interfaces@;
        self.networks = sort_by_name(interfaces);
        proof {
            vstd::seq_lib::to_multiset_len(given);
            vstd::seq_lib::to_multiset_len(self.networks@);
        }
        let last = self.networks.len().saturating_sub(1);
        if self.network_selection > last {
            self.network_selection = last;
        }
    }

    /// Fits the processor pages to a panel of the given height: one page is
    /// as many rows as fit, and the shown page stays the one that holds the
    /// first shown row, or the last page.
    pub fn fit_cpu_groups(&mut self, area_height: u16)
        ensures
            final(self).cpu_group_size == fitted_group_size(old(self)@, area_height),
            final(self).cpu_group_start == fitted_group_start(
                old(self)@,
                fitted_group_size(old(self)@, area_height),
            ),
            final(self)@ == (AppView {
                cpu_group_size: final(self).cpu_group_size,
                cpu_group_start: final(self).cpu_group_start,
                ..old(self)@
            }),
            final(self).same_data(old(self)),
            selections_in_range(old(self)@) ==> selections_in_range(final(self)@),
    {
        let thread_count = self.cpu_thread_count();
        let available_rows: usize = if area_height <= 3 {
            1
        } else {
            (area_height - 2) as usize
        };
        let threads = if thread_count == 0 {
            1
        } else {
            thread_count
        };
        let group_size = if available_rows < threads {
            available_rows
        } else {
            threads
        };
        self.cpu_group_size = group_size;
        if thread_count > 0 {
            proof {
                assert((thread_count - 1) / (group_size as int) * (group_size as int) <= thread_count - 1)
                    by (nonlinear_arith)
                    requires
                        group_size > 0,
                        thread_count >= 1,
                ;
                let start = old(self).cpu_group_start;
                assert((start as int) / (group_size as int) * (group_size as int) <= start)
                    by (nonlinear_arith)
                    requires
                        group_size > 0,
                ;
            }
            let last_group_start = ((thread_count - 1) / group_size) * group_size;
            let aligned = (self.cpu_group_start / group_size) * group_size;
            self.cpu_group_start = if aligned < last_group_start {
                aligned
            } else {
                last_group_start
            };
        } else {
            self.cpu_group_start = 0;
        }
    }

    /// The title of the processor page: the rows shown, the number of
    /// threads, and the page among all pages.
    pub fn core_load_title(&self) -> (r: String)
        requires
            thread_count(self@) == 0 || self.cpu_group_start + group_size(self@) <= usize::MAX,
        ensures
            r@ == core_load_text(self@),
    {
        let thread_count = self.cpu_thread_count();
        if thread_count == 0 {
            return String::from_str("CORE LOAD");
        }
        let group_size = self.current_cpu_group_size();
        let group_start = self.cpu_group_start;
        let group_end = if group_start + group_size < thread_count {
            group_start + group_size
        } else {
            thread_count
        };
        let group_count = thread_count / group_size + if thread_count % group_size == 0 {
            0
        } else {
            1
        };
        proof {
            let t = thread_count as int;
            let g = group_size as int;
            assert(t / g + (if t % g == 0 { 0int } else { 1int }) == (t + g - 1) / g) by (nonlinear_arith)
                requires
                    g > 0,
                    t >= 0,
            ;
        }
        let mut r = String::from_str("CORE LOAD ");
        push_decimal(&mut r, (group_start + 1) as u64);
        push_str(&mut r, "-");
        push_decimal(&mut r, group_end as u64);
        push_str(&mut r, " / ");
        push_decimal(&mut r, thread_count as u64);
        push_str(&mut r, " (");
        push_decimal(&mut r, (group_start / group_size + 1) as u64);
        push_str(&mut r, "/");
        push_decimal(&mut r, group_count as u64);
        push_str(&mut r, ")");
        r
    }

    /// The rows of the processor list shown on the current page, as a range
    /// `first..end` of positions in the list (the global row is position 0).
    pub fn visible_cpu_rows(&self) -> (r: (usize, usize))
        ensures
            r.0 == (if self.cpu_group_start + 1 < self.cpu_count { self.cpu_group_start + 1 } else { self.cpu_count as int }),
            r.1 == (if r.0 + group_size(self@) < self.cpu_count { r.0 + group_size(self@) } else { self.cpu_count as int }),
    {
        let group_size = self.current_cpu_group_size();
        if self.cpu_group_start >= self.cpu_count {
            return (self.cpu_count, self.cpu_count);
        }
        let first = self.cpu_group_start + 1;
        let remaining = self.cpu_count - first;
        let shown = if group_size < remaining {
            group_size
        } else {
            remaining
        };
        (first, first + shown)
    }

    /// The graphics card shown: the selected one, or the last one when the
    /// selection is past the end; none when there is no card.
    pub fn shown_gpu(&self) -> (r: Option<usize>)
        ensures
            self.gpu_count == 0 ==> r is None,
            self.gpu_count > 0 ==> r == Some(
                if self.gpu_selection < self.gpu_count { self.gpu_selection } else { (self.gpu_count - 1) as usize },
            ),
    {
        if self.gpu_count == 0 {
            None
        } else if self.gpu_selection < self.gpu_count {
            Some(self.gpu_selection)
        } else {
            Some(self.gpu_count - 1)
        }
    }
}


/// The monitor starts with every selection in range and every key bound once.
pub proof fn law_initial_state_is_consistent()
    ensures
        selections_in_range(initial_view()),
        initial_view().config.keybinds.conflict_free(),
{
    crate::config::defaults::law_default_keybinds_distinct();
}

/// Handling a key never binds one key twice: if no key is bound twice
/// before, none is after.
pub proof fn law_keys_stay_distinct(v: AppView, key: KeyPress)
    requires
        v.config.keybinds.conflict_free(),
    ensures
        key_step(v, key).config.keybinds.conflict_free(),
{
    if key.pressed && v.state == AppState::Config && v.cfg_state == ConfigState::KeybindInput {
        if let KeyCode::Char(c) = key.code {
            if let Some(index) = v.keybind_list_selected {
                if index < KEYBIND_COUNT && !key_taken(v.config.keybinds.keys(), index as int, c) {
                    law_set_keeps_keys_distinct(v.config.keybinds, index as int, c);
                }
            }
        }
    }
}

/// Whether every selection points into its list, the processor page starts
/// within the threads, and the memory panel shows at most four decimals.
pub open spec fn selections_in_range(v: AppView) -> bool {
    &&& v.gpu_count == 0 || v.gpu_selection < v.gpu_count
    &&& v.disk_count == 0 || v.disk_selection < v.disk_count
    &&& v.network_count == 0 || v.network_selection < v.network_count
    &&& v.cpu_group_start == 0 || v.cpu_group_start < thread_count(v)
    &&& v.memory.prec_count <= 4
    &&& (v.keybind_list_selected matches Some(i) ==> i < KEYBIND_COUNT)
    &&& (v.color_list_selected matches Some(i) ==> i < PANEL_COLOR_COUNT)
    &&& (v.palette_selected matches Some(i) ==> i < PALETTE_LEN)
    &&& (v.process_list_selected matches Some(i) ==> i < v.process_ids.len())
}

proof fn lemma_mod_below(x: int, m: int)
    requires
        0 <= x,
        0 < m,
    ensures
        0 <= x % m < m,
        x < m ==> x % m == x,
{
    assert(0 <= x % m < m) by (nonlinear_arith)
        requires
            0 <= x,
            0 < m,
    ;
    if x < m {
        assert(x % m == x) by (nonlinear_arith)
            requires
                0 <= x < m,
        ;
    }
}

proof fn lemma_last_page_start(t: int, g: int)
    requires
        t >= 1,
        g >= 1,
    ensures
        0 <= ((t - 1) / g) * g <= t - 1,
        t - 1 < ((t - 1) / g) * g + g,
{
    assert(0 <= ((t - 1) / g) * g <= t - 1 && t - 1 < ((t - 1) / g) * g + g) by (nonlinear_arith)
        requires
            t >= 1,
            g >= 1,
    ;
}

/// Whether the lengths of the lists fit in a `usize`, as those of an `App` do.
pub open spec fn lengths_fit(v: AppView) -> bool {
    v.process_ids.len() <= usize::MAX && v.network_count <= usize::MAX
}

proof fn lemma_arrows_in_range(v: AppView, right: bool)
    requires
        selections_in_range(v),
        lengths_fit(v),
        v.state == AppState::Running,
        !key_press_fails(v, (KeyPress { code: if right { KeyCode::Right } else { KeyCode::Left }, pressed: true })),
    ensures
        selections_in_range(running_arrow_step(v, right)),
{
    if v.device == DeviceSelector::Graphics && v.gpu_count > 0 {
        lemma_mod_below(v.gpu_selection + 1, v.gpu_count as int);
        if v.gpu_selection > 0 {
            lemma_mod_below(v.gpu_selection - 1, v.gpu_count as int);
        }
    }
    if v.device == DeviceSelector::Disk && v.disk_count > 0 {
        lemma_mod_below(v.disk_selection + 1, v.disk_count as int);
        if v.disk_selection > 0 {
            lemma_mod_below(v.disk_selection - 1, v.disk_count as int);
        }
    }
    if v.device == DeviceSelector::Network && v.network_count > 0 {
        lemma_mod_below(v.network_selection + 1, v.network_count as int);
    }
    if v.device == DeviceSelector::Processor && thread_count(v) > 0 {
        lemma_last_page_start(thread_count(v), group_size(v));
    }
}

proof fn lemma_running_in_range(v: AppView, code: KeyCode)
    requires
        selections_in_range(v),
        lengths_fit(v),
        v.state == AppState::Running,
        !key_press_fails(v, (KeyPress { code, pressed: true })),
    ensures
        selections_in_range(running_step(v, code)),
{
    match code {
        KeyCode::Right => lemma_arrows_in_range(v, true),
        KeyCode::Left => lemma_arrows_in_range(v, false),
        _ => {},
    }
}

proof fn lemma_config_in_range(v: AppView, code: KeyCode)
    requires
        selections_in_range(v),
        v.state == AppState::Config,
    ensures
        selections_in_range(config_step(v, code)),
{
    match code {
        KeyCode::Enter => {
            let w = config_enter_step(v);
            assert(selections_in_range(w));
        },
        KeyCode::Char(c) => {
            let w = config_char_step(v, c);
            assert(selections_in_range(w));
        },
        _ => {},
    }
}

/// Every key press keeps every selection within its list.
#[verifier::rlimit(30)]
pub proof fn law_selections_stay_in_range(v: AppView, key: KeyPress)
    requires
        selections_in_range(v),
        lengths_fit(v),
        !key_press_fails(v, key),
    ensures
        selections_in_range(key_step(v, key)),
{
    if key.pressed {
        if v.state == AppState::Running {
            lemma_running_in_range(v, key.code);
        } else if v.state == AppState::Config {
            lemma_config_in_range(v, key.code);
        }
    }
}

/// In the processor panel, from a page start within the threads, the right
/// arrow and then the left arrow show the same page again, and so do the
/// left arrow and then the right arrow.
pub proof fn law_cpu_pages_round_trip(v: AppView)
    requires
        v.state == AppState::Running,
        v.device == DeviceSelector::Processor,
        thread_count(v) > 0,
        v.cpu_group_start < thread_count(v),
        (v.cpu_group_start as int) % group_size(v) == 0,
        v.cpu_group_start + group_size(v) <= usize::MAX,
    ensures
        key_step(key_step(v, (KeyPress { code: KeyCode::Right, pressed: true })), (KeyPress { code: KeyCode::Left, pressed: true })) == v,
        key_step(key_step(v, (KeyPress { code: KeyCode::Left, pressed: true })), (KeyPress { code: KeyCode::Right, pressed: true })) == v,
{
    let t = thread_count(v);
    let g = group_size(v);
    let s = v.cpu_group_start as int;
    lemma_last_page_start(t, g);
    let last = ((t - 1) / g) * g;
    if s + g >= t {
        assert(last == s) by (nonlinear_arith)
            requires
                s % g == 0,
                0 <= s < t,
                s + g >= t,
                g >= 1,
                last == ((t - 1) / g) * g,
        ;
    }
    if s < g {
        assert(s == 0) by (nonlinear_arith)
            requires
                s % g == 0,
                0 <= s < g,
        ;
    }
    let right = key_step(v, KeyPress { code: KeyCode::Right, pressed: true });
    let left = key_step(v, KeyPress { code: KeyCode::Left, pressed: true });
    assert(key_step(right, KeyPress { code: KeyCode::Left, pressed: true }) =~= v);
    assert(key_step(left, KeyPress { code: KeyCode::Right, pressed: true }) =~= v);
}

/// With a list of `count` entries, moving left after moving right (and
/// right after left) comes back to the same entry.
pub proof fn law_cycle_round_trip(selection: usize, count: int)
    requires
        0 <= selection < count,
        count <= usize::MAX,
    ensures
        ({
            let right = cycled_right(selection, count);
            (if right == 0 { count - 1 } else { (right - 1) % count }) == selection
        }),
        ({
            let left: int = if selection == 0 { count - 1 } else { (selection - 1) % count };
            cycled_right(left as usize, count) == selection
        }),
        ({
            let right = cycled_right(selection, count);
            (if right == 0 { count - 1 } else { right - 1 }) == selection
        }),
        ({
            let left: int = if selection == 0 { count - 1 } else { selection - 1 };
            cycled_right(left as usize, count) == selection
        }),
{
    lemma_mod_below(selection + 1, count);
    lemma_mod_below(selection as int, count);
    if selection > 0 {
        lemma_mod_below(selection - 1, count);
    }
    if selection + 1 < count {
        lemma_mod_below(selection + 1, count);
    } else {
        assert((selection + 1) % count == 0) by (nonlinear_arith)
            requires
                selection + 1 == count,
                count > 0,
        ;
    }
    lemma_mod_below(count - 1, count);
    assert(count % count == 0) by (nonlinear_arith)
        requires
            count > 0,
    ;
}

/// In the graphics, disk and network panels, the right arrow and then the
/// left arrow select the same item again, and so do left and then right.
pub proof fn law_item_selection_round_trip(v: AppView)
    requires
        v.state == AppState::Running,
        lengths_fit(v),
        v.device == DeviceSelector::Graphics && 0 <= v.gpu_selection < v.gpu_count
            || v.device == DeviceSelector::Disk && 0 <= v.disk_selection < v.disk_count
            || v.device == DeviceSelector::Network && 0 <= v.network_selection < v.network_count,
    ensures
        key_step(key_step(v, (KeyPress { code: KeyCode::Right, pressed: true })), (KeyPress { code: KeyCode::Left, pressed: true })) == v,
        key_step(key_step(v, (KeyPress { code: KeyCode::Left, pressed: true })), (KeyPress { code: KeyCode::Right, pressed: true })) == v,
{
    let right = key_step(v, KeyPress { code: KeyCode::Right, pressed: true });
    let left = key_step(v, KeyPress { code: KeyCode::Left, pressed: true });
    if v.device == DeviceSelector::Graphics {
        law_cycle_round_trip(v.gpu_selection, v.gpu_count as int);
    } else if v.device == DeviceSelector::Disk {
        law_cycle_round_trip(v.disk_selection, v.disk_count as int);
    } else {
        law_cycle_round_trip(v.network_selection, v.network_count as int);
    }
    assert(key_step(right, KeyPress { code: KeyCode::Left, pressed: true }) =~= v);
    assert(key_step(left, KeyPress { code: KeyCode::Right, pressed: true }) =~= v);
}

/// In the process list, the down arrow and then the up arrow (and up then
/// down) select the same process again.
pub proof fn law_process_list_round_trip(v: AppView, i: usize)
    requires
        v.state == AppState::Running,
        v.device == DeviceSelector::Processes,
        lengths_fit(v),
        v.process_list_selected == Some(i),
        i < v.process_ids.len(),
    ensures
        key_step(key_step(v, (KeyPress { code: KeyCode::Down, pressed: true })), (KeyPress { code: KeyCode::Up, pressed: true })).process_list_selected == Some(i),
        key_step(key_step(v, (KeyPress { code: KeyCode::Up, pressed: true })), (KeyPress { code: KeyCode::Down, pressed: true })).process_list_selected == Some(i),
{
}

/// In the memory panel, `+` and then `-` come back to the same precision
/// below four decimals, and `-` and then `+` to the same precision above
/// none (when neither key is the memory panel's own key).
pub proof fn law_precision_round_trip(v: AppView)
    requires
        v.state == AppState::Running,
        v.device == DeviceSelector::Memory,
        v.config.keybinds.memory != '+',
        v.config.keybinds.memory != '-',
    ensures
        v.memory.prec_count < 4 ==> key_step(key_step(v, (KeyPress { code: KeyCode::Char('+'), pressed: true })), (KeyPress { code: KeyCode::Char('-'), pressed: true })) == v,
        0 < v.memory.prec_count <= 4 ==> key_step(key_step(v, (KeyPress { code: KeyCode::Char('-'), pressed: true })), (KeyPress { code: KeyCode::Char('+'), pressed: true })) == v,
{
    let plus = KeyPress { code: KeyCode::Char('+'), pressed: true };
    let minus = KeyPress { code: KeyCode::Char('-'), pressed: true };
    if v.memory.prec_count < 4 {
        assert(key_step(key_step(v, plus), minus) =~= v);
    }
    if 0 < v.memory.prec_count <= 4 {
        assert(key_step(key_step(v, minus), plus) =~= v);
    }
}


/// Recoloring a panel gives the chosen color to the panel being recolored and
/// to no other: each panel color is the chosen one exactly when its panel is
/// the target, and keeps its old value otherwise; the keybinds stay.
pub proof fn law_recolor_sets_only_the_target(v: AppView, target: ColorTarget, color: ConfigColor)
    requires
        v.color_target == Some(target),
    ensures
        color_applied(v, color).config.colors.disk == (if target == ColorTarget::Disk {
            color
        } else {
            v.config.colors.disk
        }),
        color_applied(v, color).config.colors.processes == (if target == ColorTarget::Processes {
            color
        } else {
            v.config.colors.processes
        }),
        color_applied(v, color).config.colors.memory == (if target == ColorTarget::Memory {
            color
        } else {
            v.config.colors.memory
        }),
        color_applied(v, color).config.colors.network == (if target == ColorTarget::Network {
            color
        } else {
            v.config.colors.network
        }),
        color_applied(v, color).config.keybinds == v.config.keybinds,
        color_applied(v, color).config_dirty,
{
}

/// The entry at position `index` of the list of panel colors (the order in
/// which `Colors::iter` lists them) is the one that Enter on that entry and
/// then a choice of color changes: that entry becomes the chosen color and
/// every other entry keeps its color.
pub proof fn law_color_list_entry_is_the_one_recolored(v: AppView, index: usize, color: ConfigColor)
    requires
        index < PANEL_COLOR_COUNT,
        v.color_target == target_at(index),
    ensures
        color_applied(v, color).config.colors.entries()[index as int] == color,
        forall|j: int|
            0 <= j < PANEL_COLOR_COUNT && j != index ==> #[trigger] color_applied(v, color).config.colors.entries()[j]
                == v.config.colors.entries()[j],
{
}

/// Choosing a named color in the picker (Enter on a palette entry that is
/// neither the RGB nor the indexed one) gives that color to the panel being
/// recolored, leaves the other panels' colors as they were, and goes back to
/// the list of panel colors.
pub proof fn law_picking_a_color_recolors_the_target(v: AppView, target: ColorTarget, index: usize)
    requires
        v.state == AppState::Config,
        v.cfg_state == ConfigState::ColorPicker,
        v.color_target == Some(target),
        v.palette_selected == Some(index),
        !(palette_entry(index) is Rgb),
        !(palette_entry(index) is Indexed),
    ensures
        ({
            let after = key_step(v, (KeyPress { code: KeyCode::Enter, pressed: true }));
            &&& after.config.colors.disk == (if target == ColorTarget::Disk {
                palette_entry(index)
            } else {
                v.config.colors.disk
            })
            &&& after.config.colors.processes == (if target == ColorTarget::Processes {
                palette_entry(index)
            } else {
                v.config.colors.processes
            })
            &&& after.config.colors.memory == (if target == ColorTarget::Memory {
                palette_entry(index)
            } else {
                v.config.colors.memory
            })
            &&& after.config.colors.network == (if target == ColorTarget::Network {
                palette_entry(index)
            } else {
                v.config.colors.network
            })
            &&& after.cfg_state == ConfigState::Colors
            &&& after.color_target is None
        }),
{
}

/// The processor page title names the rows shown, the number of threads,
/// the page shown and the number of pages: for a first row, last row, page
/// and page count that satisfy what those words mean (the last row is the
/// page's last row or the last thread, the page is the one that holds the
/// first row, and the page count is the least number of pages that hold all
/// threads), the title reads `CORE LOAD first-last / threads (page/pages)`.
pub proof fn law_core_load_title_counts_pages(v: AppView, last: int, page: int, pages: int)
    requires
        thread_count(v) > 0,
        v.cpu_group_start < thread_count(v),
        last <= thread_count(v),
        last <= v.cpu_group_start + group_size(v),
        last == thread_count(v) || last == v.cpu_group_start + group_size(v),
        (page - 1) * group_size(v) <= v.cpu_group_start < page * group_size(v),
        (pages - 1) * group_size(v) < thread_count(v) <= pages * group_size(v),
    ensures
        page >= 1,
        pages >= 1,
        core_load_text(v) == "CORE LOAD "@ + decimal((v.cpu_group_start + 1) as nat) + "-"@ + decimal(
            last as nat,
        ) + " / "@ + decimal(thread_count(v) as nat) + " ("@ + decimal(page as nat) + "/"@ + decimal(
            pages as nat,
        ) + ")"@,
{
    let t = thread_count(v);
    let g = group_size(v);
    let start = v.cpu_group_start as int;
    assert(g > 0);
    assert(page >= 1) by (nonlinear_arith)
        requires
            start >= 0,
            g > 0,
            start < page * g,
    ;
    assert(pages >= 1) by (nonlinear_arith)
        requires
            t > 0,
            g > 0,
            t <= pages * g,
    ;
    assert(page == start / g + 1) by (nonlinear_arith)
        requires
            g > 0,
            start >= 0,
            (page - 1) * g <= start < page * g,
    {
        let q = start / g;
        assert(start == g * q + start % g);
        assert(0 <= start % g < g);
        if page - 1 < q {
            assert((page - 1) * g <= (q - 1) * g);
            assert(page * g <= q * g);
        } else if page - 1 > q {
            assert((q + 1) * g <= (page - 1) * g);
        }
    }
    assert(pages == (t + g - 1) / g) by (nonlinear_arith)
        requires
            g > 0,
            t > 0,
            (pages - 1) * g < t <= pages * g,
    {
        let q = (t + g - 1) / g;
        assert(t + g - 1 == g * q + (t + g - 1) % g);
        assert(0 <= (t + g - 1) % g < g);
        if pages < q {
            assert(pages * g <= (q - 1) * g);
        } else if pages > q {
            assert((q + 1) * g <= pages * g);
        }
    }
}

/// In the graphics, disk and network panels, with the selection within the
/// list, the right arrow selects the next item and the left arrow the
/// previous one, both wrapping around: `(selection + 1) mod count` and
/// `(selection + count - 1) mod count`.
pub proof fn law_arrows_step_through_items(v: AppView)
    requires
        v.state == AppState::Running,
        lengths_fit(v),
    ensures
        v.device == DeviceSelector::Disk && v.disk_selection < v.disk_count ==> {
            &&& key_step(v, (KeyPress { code: KeyCode::Right, pressed: true })).disk_selection == (
            v.disk_selection + 1) % (v.disk_count as int)
            &&& key_step(v, (KeyPress { code: KeyCode::Left, pressed: true })).disk_selection == (
            v.disk_selection + v.disk_count - 1) % (v.disk_count as int)
        },
        v.device == DeviceSelector::Graphics && v.gpu_selection < v.gpu_count ==> {
            &&& key_step(v, (KeyPress { code: KeyCode::Right, pressed: true })).gpu_selection == (
            v.gpu_selection + 1) % (v.gpu_count as int)
            &&& key_step(v, (KeyPress { code: KeyCode::Left, pressed: true })).gpu_selection == (
            v.gpu_selection + v.gpu_count - 1) % (v.gpu_count as int)
        },
        v.device == DeviceSelector::Network && v.network_selection < v.network_count ==> {
            &&& key_step(v, (KeyPress { code: KeyCode::Right, pressed: true })).network_selection == (
            v.network_selection + 1) % (v.network_count as int)
            &&& key_step(v, (KeyPress { code: KeyCode::Left, pressed: true })).network_selection == (
            v.network_selection + v.network_count - 1) % (v.network_count as int)
        },
{
    lemma_step_back(v.disk_selection as int, v.disk_count as int);
    lemma_step_back(v.gpu_selection as int, v.gpu_count as int);
    lemma_step_back(v.network_selection as int, v.network_count as int);
}

proof fn lemma_step_back(selection: int, count: int)
    ensures
        0 < selection < count ==> (selection - 1) % count == (selection + count - 1) % count
            && (selection - 1) % count == selection - 1,
        0 == selection < count ==> (selection + count - 1) % count == count - 1,
{
    if 0 < selection < count {
        vstd::arithmetic::div_mod::lemma_small_mod((selection - 1) as nat, count as nat);
        vstd::arithmetic::div_mod::lemma_mod_add_multiples_vanish(selection - 1, count);
        assert(count + (selection - 1) == selection + count - 1);
    }
    if 0 == selection < count {
        vstd::arithmetic::div_mod::lemma_small_mod((count - 1) as nat, count as nat);
    }
}

/// On the configuration screens other than the two where something is being
/// typed, Esc goes back to the panels and leaves the screen as it was; while
/// a key is being entered it goes back to the keybind list, and while a
/// color is being typed back to the color picker, staying in the
/// configuration.
pub proof fn law_escape_leaves_the_configuration(v: AppView)
    requires
        v.state == AppState::Config,
    ensures
        v.cfg_state != ConfigState::KeybindInput && !(v.cfg_state is ColorInput) ==> {
            &&& key_step(v, (KeyPress { code: KeyCode::Esc, pressed: true })).state == AppState::Running
            &&& key_step(v, (KeyPress { code: KeyCode::Esc, pressed: true })).cfg_state == v.cfg_state
            &&& key_step(v, (KeyPress { code: KeyCode::Esc, pressed: true })) == (AppView {
                state: AppState::Running,
                ..v
            })
        },
        v.cfg_state == ConfigState::KeybindInput ==> {
            &&& key_step(v, (KeyPress { code: KeyCode::Esc, pressed: true })).state == AppState::Config
            &&& key_step(v, (KeyPress { code: KeyCode::Esc, pressed: true })).cfg_state == ConfigState::Keybinds
            &&& key_step(v, (KeyPress { code: KeyCode::Esc, pressed: true })).config == v.config
        },
        v.cfg_state is ColorInput ==> {
            &&& key_step(v, (KeyPress { code: KeyCode::Esc, pressed: true })).state == AppState::Config
            &&& key_step(v, (KeyPress { code: KeyCode::Esc, pressed: true })).cfg_state == ConfigState::ColorPicker
            &&& key_step(v, (KeyPress { code: KeyCode::Esc, pressed: true })).config == v.config
        },
{
}

/// Fitting the processor pages to a panel height makes the page size the
/// rows that fit (at least one, at most the threads), and starts the shown
/// page on a multiple of that size: the page that holds the first row shown
/// before when that row is a thread, and the last page otherwise.
pub proof fn law_fitting_keeps_the_first_shown_row(v: AppView, area_height: u16)
    ensures
        thread_count(v) == 0 ==> fitted_group_size(v, area_height) == 1 && fitted_group_start(
            v,
            fitted_group_size(v, area_height),
        ) == 0,
        thread_count(v) > 0 ==> ({
            let size = fitted_group_size(v, area_height);
            let start = fitted_group_start(v, size);
            let old_start = v.cpu_group_start as int;
            let threads = thread_count(v);
            &&& 1 <= size <= threads
            &&& size <= rows_for_height(area_height)
            &&& (size == threads || size == rows_for_height(area_height))
            &&& start % size == 0
            &&& 0 <= start < threads
            &&& old_start < threads ==> start <= old_start < start + size
            &&& old_start >= threads ==> threads <= start + size
        }),
{
    let size = fitted_group_size(v, area_height);
    let old_start = v.cpu_group_start as int;
    let threads = thread_count(v);
    assert(rows_for_height(area_height) >= 1);
    if threads > 0 {
        assert(1 <= size <= threads);
        let aligned = (old_start / size) * size;
        let last_start = ((threads - 1) / size) * size;
        assert(0 <= aligned <= old_start < aligned + size) by (nonlinear_arith)
            requires
                size > 0,
                old_start >= 0,
                aligned == (old_start / size) * size,
        {
            vstd::arithmetic::div_mod::lemma_fundamental_div_mod(old_start, size);
        }
        assert(0 <= last_start <= threads - 1 < last_start + size) by (nonlinear_arith)
            requires
                size > 0,
                threads >= 1,
                last_start == ((threads - 1) / size) * size,
        {
            vstd::arithmetic::div_mod::lemma_fundamental_div_mod(threads - 1, size);
        }
        vstd::arithmetic::div_mod::lemma_mod_multiples_basic(old_start / size, size);
        vstd::arithmetic::div_mod::lemma_mod_multiples_basic((threads - 1) / size, size);
        if old_start < threads {
            assert(aligned <= last_start) by (nonlinear_arith)
                requires
                    size > 0,
                    0 <= old_start <= threads - 1,
                    aligned == (old_start / size) * size,
                    last_start == ((threads - 1) / size) * size,
            {
                vstd::arithmetic::div_mod::lemma_div_is_ordered(old_start, threads - 1, size);
            }
        } else {
            assert(last_start <= aligned) by (nonlinear_arith)
                requires
                    size > 0,
                    0 <= threads - 1 < old_start,
                    aligned == (old_start / size) * size,
                    last_start == ((threads - 1) / size) * size,
            {
                vstd::arithmetic::div_mod::lemma_div_is_ordered(threads - 1, old_start, size);
            }
        }
    }
}

/// In the processor panel, with the shown page starting on a multiple of the
/// page size within the threads, the right arrow shows the next page, or the
/// first page after the last one, and the left arrow shows the previous page,
/// or the last page (the one that holds the last thread) before the first.
pub proof fn law_arrows_page_through_processors(v: AppView)
    requires
        v.state == AppState::Running,
        v.device == DeviceSelector::Processor,
        thread_count(v) > 0,
        v.cpu_group_start < thread_count(v),
        (v.cpu_group_start as int) % group_size(v) == 0,
    ensures
        ({
            let size = group_size(v);
            let start = v.cpu_group_start as int;
            let threads = thread_count(v);
            let right = key_step(v, (KeyPress { code: KeyCode::Right, pressed: true })).cpu_group_start as int;
            let left = key_step(v, (KeyPress { code: KeyCode::Left, pressed: true })).cpu_group_start as int;
            &&& start + size < threads ==> right == start + size
            &&& start + size >= threads ==> right == 0
            &&& start >= size ==> left == start - size
            &&& start < size ==> left % size == 0 && left < threads <= left + size
        }),
{
    let size = group_size(v);
    let threads = thread_count(v);
    let last_start = ((threads - 1) / size) * size;
    assert(0 <= last_start <= threads - 1 < last_start + size) by (nonlinear_arith)
        requires
            size > 0,
            threads >= 1,
            last_start == ((threads - 1) / size) * size,
    {
        vstd::arithmetic::div_mod::lemma_fundamental_div_mod(threads - 1, size);
    }
    vstd::arithmetic::div_mod::lemma_mod_multiples_basic((threads - 1) / size, size);
}

} // verus!
