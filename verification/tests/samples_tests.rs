use syswatch::display::{
    core_label_width, cpu_vendor, cpu_vendor_from_uppercase, gpu_vendor, gpu_vendor_from_uppercase, kernel_version_text, os_family, os_version_text, process_row_padding,
    text_contains, to_ascii_uppercase, CpuVendor, GpuVendor, OsFamily,
};
use syswatch::samples::{matching_sample, push_sample, sort_by_key_descending, wrap_text, HISTORY_SAMPLES};

#[test]
fn histories_keep_the_newest_samples() {
    let mut history: Vec<u32> = Vec::new();
    for sample in 0..70u32 {
        push_sample(&mut history, sample, HISTORY_SAMPLES);
    }
    assert_eq!(history.len(), 60);
    assert_eq!(history[0], 10);
    assert_eq!(history[59], 69);
    let mut short: Vec<u32> = vec![1, 2];
    push_sample(&mut short, 3, 2);
    assert_eq!(short, vec![2, 3]);
}

#[test]
fn processes_are_ordered_by_memory_stably() {
    let sorted = sort_by_key_descending(vec![(5, "a"), (9, "b"), (5, "c"), (1, "d"), (9, "e")]);
    assert_eq!(sorted, vec![(9, "b"), (9, "e"), (5, "a"), (5, "c"), (1, "d")]);
}

#[test]
fn fresh_samples_match_by_id_then_by_name() {
    let fresh = vec![
        ("GPU-1".to_string(), "Card A".to_string()),
        ("GPU-2".to_string(), "Card B".to_string()),
    ];
    assert_eq!(matching_sample("GPU-2", "Card A", &fresh), Some(1));
    assert_eq!(matching_sample("", "Card A", &fresh), Some(0));
    assert_eq!(matching_sample("GPU-3", "Card B", &fresh), None);
}

#[test]
fn long_paths_are_wrapped_into_lines() {
    assert_eq!(wrap_text("alpha beta gamma", 11), "alpha beta\ngamma");
    assert_eq!(wrap_text("short", 60), "short");
}

#[test]
fn vendors_and_systems_are_recognised() {
    assert_eq!(cpu_vendor("AuthenticAMD"), CpuVendor::Amd);
    assert_eq!(cpu_vendor("GenuineIntel"), CpuVendor::Intel);
    assert_eq!(cpu_vendor("Apple"), CpuVendor::Unknown);
    assert_eq!(gpu_vendor("NVIDIA GeForce RTX 4090"), GpuVendor::Nvidia);
    assert_eq!(gpu_vendor("amd radeon"), GpuVendor::Amd);
    assert_eq!(gpu_vendor("intel arc"), GpuVendor::Intel);
    assert_eq!(gpu_vendor("Mali"), GpuVendor::Unknown);
    assert_eq!(os_family(Some("Windows")), OsFamily::Windows);
    assert_eq!(os_family(Some("Arch Linux")), OsFamily::Linux);
    assert_eq!(os_family(Some("macOS")), OsFamily::MacOs);
    assert_eq!(os_family(None), OsFamily::Unknown);
    assert_eq!(to_ascii_uppercase("macOS é"), "MACOS é");
    assert!(text_contains("hello world", "o w"));
    assert!(!text_contains("hello", "hello!"));
    assert!(text_contains("abc", ""));
}

#[test]
fn vendors_are_read_from_uppercase_names() {
    assert_eq!(cpu_vendor_from_uppercase("AUTHENTICAMD"), CpuVendor::Amd);
    assert_eq!(cpu_vendor_from_uppercase("authenticamd"), CpuVendor::Unknown);
    assert_eq!(cpu_vendor_from_uppercase("AMD AND INTEL"), CpuVendor::Amd);
    assert_eq!(gpu_vendor_from_uppercase("INTEL ARC"), GpuVendor::Intel);
    assert_eq!(gpu_vendor_from_uppercase("AMD OR NVIDIA"), GpuVendor::Nvidia);
    assert_eq!(gpu_vendor_from_uppercase("nvidia"), GpuVendor::Unknown);
}

#[test]
fn versions_are_cleaned_up() {
    assert_eq!(os_version_text("11 (Bullseye)"), "11 ");
    assert_eq!(os_version_text("22.04"), "22.04");
    assert_eq!(kernel_version_text("Linux (6.1.0)"), "6.1.0");
    assert_eq!(kernel_version_text("6.1.0"), "6.1.0");
    assert_eq!(os_version_text("a)b(c"), "ab");
}

#[test]
fn process_rows_are_padded_to_the_width() {
    assert_eq!(process_row_padding(40, 10, 8, false), 19);
    assert_eq!(process_row_padding(40, 10, 8, true), 17);
    assert_eq!(process_row_padding(10, 10, 8, true), 0);
    assert_eq!(process_row_padding(usize::MAX, usize::MAX, 8, true), 0);
}

#[test]
fn core_labels_take_the_longest_label_and_a_space() {
    assert_eq!(core_label_width(&vec![6, 5, 5]), 7);
    assert_eq!(core_label_width(&Vec::new()), 1);
    assert_eq!(core_label_width(&vec![3, 70000]), u16::MAX);
    assert_eq!(core_label_width(&vec![usize::MAX]), u16::MAX);
}
