use homer::buttons::ButtonState;
use homer::buttons::reading_to_button;

#[test]
fn bands_decode_to_buttons() {
    assert_eq!(reading_to_button(701), Some(2));
    assert_eq!(reading_to_button(850), Some(2));
    assert_eq!(reading_to_button(999), Some(2));
    assert_eq!(reading_to_button(1801), Some(1));
    assert_eq!(reading_to_button(2000), Some(1));
    assert_eq!(reading_to_button(2199), Some(1));
    assert_eq!(reading_to_button(2301), Some(0));
    assert_eq!(reading_to_button(2450), Some(0));
    assert_eq!(reading_to_button(2599), Some(0));
}

#[test]
fn zero_and_gaps_decode_to_nothing() {
    assert_eq!(reading_to_button(0), None);
    assert_eq!(reading_to_button(700), None);
    assert_eq!(reading_to_button(1000), None);
    assert_eq!(reading_to_button(1500), None);
    assert_eq!(reading_to_button(1800), None);
    assert_eq!(reading_to_button(2200), None);
    assert_eq!(reading_to_button(2250), None);
    assert_eq!(reading_to_button(2300), None);
    assert_eq!(reading_to_button(2600), None);
    assert_eq!(reading_to_button(65535), None);
}

#[test]
fn one_event_per_contiguous_run() {
    let mut st = ButtonState::new();
    assert_eq!(st.step(850), Some(2));
    assert_eq!(st.step(850), None);
    assert_eq!(st.step(850), None);
    assert_eq!(st.step(0), None);
    assert_eq!(st.step(850), Some(2));
    assert_eq!(st.step(2000), Some(1));
    assert_eq!(st.step(2450), Some(0));
    assert_eq!(st.step(2450), None);
    assert_eq!(st.step(1500), None);
    assert_eq!(st.step(2450), Some(0));
}

#[test]
fn gap_readings_emit_nothing_between_presses() {
    let mut st = ButtonState::new();
    assert_eq!(st.step(0), None);
    assert_eq!(st.step(1200), None);
    assert_eq!(st.step(2250), None);
    assert_eq!(st.step(700), None);
    assert_eq!(st.step(2600), None);
}
