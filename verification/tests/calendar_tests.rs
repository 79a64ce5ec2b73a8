use r_os::calendar::clock_text;
use r_os::calendar::format_minutes;
use r_os::calendar::format_seconds;
use r_os::calendar::MAX_RENDER_MS;

#[test]
fn epoch_renders_at_both_precisions() {
    assert_eq!(format_minutes(0).unwrap(), "1970-01-01 00:00");
    assert_eq!(format_seconds(0).unwrap(), "1970-01-01 00:00:00");
}

#[test]
fn known_timestamps_render_exactly() {
    assert_eq!(format_seconds(123456789000).unwrap(), "1973-11-29 21:33:09");
    // A leap day at the century-exception boundary.
    assert_eq!(format_seconds(951782400000).unwrap(), "2000-02-29 00:00:00");
    // The day after it.
    assert_eq!(format_seconds(951868800000).unwrap(), "2000-03-01 00:00:00");
    // A date after a non-leap century year.
    assert_eq!(format_minutes(4107542460000).unwrap(), "2100-03-01 00:01");
}

#[test]
fn the_renderable_window_is_sharp() {
    assert_eq!(format_seconds(MAX_RENDER_MS).unwrap(), "9999-12-31 23:59:59");
    assert!(format_seconds(MAX_RENDER_MS + 1).is_none());
    assert!(format_minutes(-1).is_none());
    assert_eq!(clock_text(-1), "Unknown");
    assert_eq!(clock_text(60000), "1970-01-01 00:01:00");
}
