use statusbar::clock::{clock_step, millis_until_next_minute, time_fragment};
use statusbar::stat::{battery, cpu, plugged, ram, systemstat_fragment, temp_fragment};
use statusbar::volume::volume;

#[test]
fn plugged_glyphs() {
    assert_eq!(plugged(Some(true)), "\u{1F50C}");
    assert_eq!(plugged(None), "\u{1F50C}");
    assert_eq!(plugged(Some(false)), "\u{1F50B}");
}

#[test]
fn battery_formats_one_decimal() {
    assert_eq!(battery(Some(1000), Some(true)), "\u{1F50C} 100.0% \u{2E31} ");
    assert_eq!(battery(Some(425), Some(false)), "\u{1F50B} 42.5% \u{2E31} ");
    assert_eq!(battery(Some(7), None), "\u{1F50C} 0.7% \u{2E31} ");
}

#[test]
fn battery_absent_is_empty() {
    assert_eq!(battery(None, Some(true)), "");
    assert_eq!(battery(None, None), "");
}

#[test]
fn ram_formats_used_amount() {
    let expected = format!("\u{25AF} {}", bytesize::ByteSize(1_500_000_000).display().si());
    assert_eq!(ram(Some((2_000_000_000, 500_000_000))), expected);
    assert_eq!(ram(Some((4096, 4096))), "\u{25AF} 0 B");
}

#[test]
fn ram_placeholder_on_failure() {
    assert_eq!(ram(None), "\u{25AF} _");
}

#[test]
fn cpu_formats_two_decimals() {
    assert_eq!(cpu(Some(314)), "\u{2699} 3.14");
    assert_eq!(cpu(Some(7)), "\u{2699} 0.07");
    assert_eq!(cpu(Some(0)), "\u{2699} 0.00");
    assert_eq!(cpu(Some(12345)), "\u{2699} 123.45");
}

#[test]
fn cpu_placeholder_on_failure() {
    assert_eq!(cpu(None), "\u{2699} _");
}

#[test]
fn systemstat_combines_pieces() {
    let r = systemstat_fragment(Some(425), Some(false), None, Some(101));
    assert_eq!(
        r,
        "\u{1F50B} 42.5% \u{2E31} \u{25AF} _ \u{2E31} \u{2699} 1.01 \u{2E31} "
    );
}

#[test]
fn systemstat_degrades_each_metric_alone() {
    // Battery and memory fail; the processor piece is untouched.
    let r = systemstat_fragment(None, None, None, Some(250));
    assert_eq!(r, "\u{25AF} _ \u{2E31} \u{2699} 2.50 \u{2E31} ");
}

#[test]
fn temp_formats_one_decimal() {
    assert_eq!(temp_fragment(Some(485)), "\u{1F321} 48.5 \u{2E31} ");
    assert_eq!(temp_fragment(Some(-35)), "\u{1F321} -3.5 \u{2E31} ");
    assert_eq!(temp_fragment(Some(0)), "\u{1F321} 0.0 \u{2E31} ");
}

#[test]
fn temp_placeholder_on_failure() {
    assert_eq!(temp_fragment(None), "\u{1F321} _ \u{2E31} ");
}

#[test]
fn volume_muted_shows_mute_glyph_whatever_the_level() {
    assert_eq!(volume(Some(true), Some(80)), "\u{1F507} \u{2E31} ");
    assert_eq!(volume(Some(true), Some(0)), "\u{1F507} \u{2E31} ");
    assert_eq!(volume(Some(true), None), "\u{1F507} \u{2E31} ");
}

#[test]
fn volume_glyph_tiers() {
    assert_eq!(volume(Some(false), Some(0)), "\u{1F508} 0 \u{2E31} ");
    assert_eq!(volume(Some(false), Some(33)), "\u{1F508} 33 \u{2E31} ");
    assert_eq!(volume(Some(false), Some(34)), "\u{1F509} 34 \u{2E31} ");
    assert_eq!(volume(None, Some(66)), "\u{1F509} 66 \u{2E31} ");
    assert_eq!(volume(None, Some(67)), "\u{1F50A} 67 \u{2E31} ");
    assert_eq!(volume(None, Some(100)), "\u{1F50A} 100 \u{2E31} ");
    assert_eq!(volume(None, Some(-5)), "\u{1F50A} -5 \u{2E31} ");
}

#[test]
fn volume_unknown_is_empty() {
    assert_eq!(volume(None, None), "");
    assert_eq!(volume(Some(false), None), "");
}

#[test]
fn minute_boundary_delays() {
    assert_eq!(millis_until_next_minute(0), 60_000);
    assert_eq!(millis_until_next_minute(1), 59_999);
    assert_eq!(millis_until_next_minute(59_999), 1);
    assert_eq!(millis_until_next_minute(60_000), 60_000);
    assert_eq!(millis_until_next_minute(123_456), 56_544);
}

#[test]
fn minute_boundary_lands_on_boundary() {
    for now in [0i64, 1, 31_000, 59_999, 60_000, 1_699_999_999_123] {
        let d = millis_until_next_minute(now);
        assert!(1 <= d && d <= 60_000);
        assert_eq!((now + d as i64) % 60_000, 0);
    }
}

#[test]
fn time_fragment_concatenates() {
    let r = time_fragment("\u{1F4C6} Mon, 01 Jan", "12Z", "13:00");
    assert_eq!(r, "\u{1F4C6} Mon, 01 Jan \u{1F553} 12Z 13:00");
}

#[test]
fn clock_step_sleeps_until_the_next_boundary() {
    let (fragment, now, sleep) = clock_step();
    assert!(1 <= sleep && sleep <= 60_000);
    assert!(now >= 0);
    assert_eq!((now + sleep as i64) % 60_000, 0);
    assert!(fragment.contains('\u{1F553}'));
}
