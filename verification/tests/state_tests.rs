use statusbar::state::{DisplayState, Source};

#[test]
fn compose_empty_at_start() {
    let st = DisplayState::new();
    assert_eq!(st.compose(), "");
    assert!(!st.is_dirty());
}

#[test]
fn compose_uses_fixed_order_not_arrival_order() {
    let mut st = DisplayState::new();
    // Written in an order unlike the display order.
    assert!(st.write(Source::Time, String::from("C")));
    assert!(st.write(Source::Volume, String::from("V")));
    assert!(st.write(Source::Temp, String::from("T")));
    assert!(st.write(Source::Net, String::from("N")));
    assert!(st.write(Source::SystemStat, String::from("S")));
    assert_eq!(st.compose(), "VNSTC");
}

#[test]
fn compose_shows_latest_write_per_source() {
    let mut st = DisplayState::new();
    assert!(st.write(Source::Volume, String::from("V1")));
    assert!(st.write(Source::Net, String::from("N1")));
    assert!(st.write(Source::Volume, String::from("V2")));
    assert_eq!(st.compose(), "V2N1");
    assert!(st.write(Source::Net, String::from("N2")));
    assert_eq!(st.compose(), "V2N2");
}

#[test]
fn repeated_write_notifies_at_most_once() {
    let mut st = DisplayState::new();
    let first = st.write(Source::SystemStat, String::from("load 1.00"));
    let before = st.compose();
    let second = st.write(Source::SystemStat, String::from("load 1.00"));
    assert!(first);
    assert!(!second);
    assert_eq!(st.compose(), before);
}

#[test]
fn repeated_write_keeps_consumer_clean() {
    let mut st = DisplayState::new();
    st.write(Source::Net, String::from("up"));
    assert!(st.is_dirty());
    st.clear_dirty();
    assert!(!st.is_dirty());
    // The same fragment again: nothing to re-render.
    st.write(Source::Net, String::from("up"));
    assert!(!st.is_dirty());
    // A different fragment: the consumer must wake.
    st.write(Source::Net, String::from("down"));
    assert!(st.is_dirty());
}

#[test]
fn write_leaves_other_sources_alone() {
    let mut st = DisplayState::new();
    st.write(Source::Volume, String::from("vol"));
    st.write(Source::Time, String::from("clock"));
    st.write(Source::SystemStat, String::from("stat-ok"));
    assert_eq!(st.compose(), "volstat-okclock");
    // The metric degrades; only its own slot moves.
    st.write(Source::SystemStat, String::from("stat-degraded"));
    assert_eq!(st.compose(), "volstat-degradedclock");
}

#[test]
fn absent_temperature_source_never_appears() {
    // Discovery found no channel: the temperature producer writes nothing,
    // and its slot stays empty for the whole process lifetime.
    let mut st = DisplayState::new();
    st.write(Source::Time, String::from("C"));
    st.write(Source::Volume, String::from("V"));
    st.write(Source::SystemStat, String::from("S"));
    st.write(Source::Net, String::from("N"));
    assert_eq!(st.compose(), "VNSC");
}
