use syswatch::color_input::{parse_color_input, ColorInputKind};
use syswatch::config::ConfigColor;
use syswatch::format::{byte_unit, indexed_title, percentage, time_fmt, ByteUnit};

#[test]
fn indexed_titles_show_the_current_and_total_items() {
    assert_eq!(indexed_title("GPU", 0, 3), "GPU (1/3)");
    assert_eq!(indexed_title("Disk Info", 2, 3), "Disk Info (3/3)");
    assert_eq!(indexed_title("Network", 0, 0), "Network");
}

#[test]
fn custom_color_input_validates_shape_and_range() {
    assert_eq!(
        parse_color_input(ColorInputKind::Rgb, "1,2").unwrap_err(),
        "enter exactly three values: R,G,B"
    );
    assert_eq!(
        parse_color_input(ColorInputKind::Rgb, "256,2,3").unwrap_err(),
        "values must be whole numbers from 0 to 255"
    );
    assert_eq!(
        parse_color_input(ColorInputKind::Indexed, "1,2").unwrap_err(),
        "enter one palette index"
    );
}

#[test]
fn color_input_accepts_commas_and_white_space() {
    assert_eq!(
        parse_color_input(ColorInputKind::Rgb, "12,34,56"),
        Ok(ConfigColor::Rgb(12, 34, 56))
    );
    assert_eq!(
        parse_color_input(ColorInputKind::Rgb, " 255 ,, 0\t7 "),
        Ok(ConfigColor::Rgb(255, 0, 7))
    );
    assert_eq!(
        parse_color_input(ColorInputKind::Rgb, "+1,007,0"),
        Ok(ConfigColor::Rgb(1, 7, 0))
    );
    assert_eq!(
        parse_color_input(ColorInputKind::Indexed, "201"),
        Ok(ConfigColor::Indexed(201))
    );
    assert_eq!(
        parse_color_input(ColorInputKind::Indexed, "\u{3000}9\u{A0}"),
        Ok(ConfigColor::Indexed(9))
    );
}

#[test]
fn color_input_rejects_what_is_not_a_byte() {
    let bad = "values must be whole numbers from 0 to 255";
    assert_eq!(parse_color_input(ColorInputKind::Indexed, "-1").unwrap_err(), bad);
    assert_eq!(parse_color_input(ColorInputKind::Indexed, "+").unwrap_err(), bad);
    assert_eq!(parse_color_input(ColorInputKind::Indexed, "1a").unwrap_err(), bad);
    assert_eq!(parse_color_input(ColorInputKind::Indexed, "99999999999999999999").unwrap_err(), bad);
    assert_eq!(parse_color_input(ColorInputKind::Rgb, "1,2,x").unwrap_err(), bad);
    assert_eq!(
        parse_color_input(ColorInputKind::Indexed, "").unwrap_err(),
        "enter one palette index"
    );
    assert_eq!(
        parse_color_input(ColorInputKind::Rgb, "1,2,3,4").unwrap_err(),
        "enter exactly three values: R,G,B"
    );
}

#[test]
fn rgb_round_trip_for_every_value_of_one_channel() {
    for value in 0..=255u8 {
        let text = format!("{value},{value},{value}");
        assert_eq!(
            parse_color_input(ColorInputKind::Rgb, &text),
            Ok(ConfigColor::Rgb(value, value, value))
        );
        assert_eq!(
            parse_color_input(ColorInputKind::Indexed, &value.to_string()),
            Ok(ConfigColor::Indexed(value))
        );
    }
}

#[test]
fn percentage_is_capped_and_safe() {
    assert_eq!(percentage(50, 200), 25);
    assert_eq!(percentage(1, 3), 33);
    assert_eq!(percentage(10, 0), 0);
    assert_eq!(percentage(300, 100), 100);
    assert_eq!(percentage(u64::MAX, u64::MAX), 1);
    assert_eq!(percentage(u64::MAX, 1), 100);
}

#[test]
fn time_fmt_shows_the_needed_parts() {
    assert_eq!(time_fmt(0), "00m00s");
    assert_eq!(time_fmt(59), "00m59s");
    assert_eq!(time_fmt(61), "01m01s");
    assert_eq!(time_fmt(3600), "01h00m00s");
    assert_eq!(time_fmt(3 * 3600 + 25 * 60 + 7), "03h25m07s");
    assert_eq!(time_fmt(86400 + 2 * 3600 + 3 * 60 + 4), "01d02h03m04s");
    assert_eq!(time_fmt(123 * 86400), "123d00h00m00s");
}

#[test]
fn byte_units_pick_the_largest_fitting_unit() {
    assert_eq!(byte_unit(0), ByteUnit::Bytes);
    assert_eq!(byte_unit(1023), ByteUnit::Bytes);
    assert_eq!(byte_unit(1024), ByteUnit::Kilobytes);
    assert_eq!(byte_unit(1024 * 1024 - 1), ByteUnit::Kilobytes);
    assert_eq!(byte_unit(1024 * 1024), ByteUnit::Megabytes);
    assert_eq!(byte_unit(5 * 1024 * 1024 * 1024), ByteUnit::Gigabytes);
    assert_eq!(byte_unit(u64::MAX), ByteUnit::Terabytes);
    assert_eq!(ByteUnit::Gigabytes.size(), 1 << 30);
    assert_eq!(ByteUnit::Terabytes.symbol(), "TB");
    assert_eq!(ByteUnit::Bytes.symbol(), "B");
}
