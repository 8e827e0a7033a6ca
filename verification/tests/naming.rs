//! Filename sanitization, canonical board file names, and the clock.
use boardstore::clock::now_millis;
use boardstore::types::default_visible;
use boardstore::filename::{board_file_name, sanitize_filename};

#[test]
fn sanitize_replaces_and_lowercases() {
    assert_eq!(sanitize_filename("My Board!"), "my-board-");
    assert_eq!(sanitize_filename("A_b-C 9"), "a_b-c-9");
    assert_eq!(sanitize_filename("trip/to: the.sea"), "trip-to--the-sea");
}

#[test]
fn sanitize_keeps_unicode_letters_and_lowercases_them() {
    assert_eq!(sanitize_filename("Äpfel Markt"), "äpfel-markt");
    assert_eq!(sanitize_filename("ÉTÉ 2024"), "été-2024");
}

#[test]
fn sanitize_of_empty_name_is_empty() {
    assert_eq!(sanitize_filename(""), "");
}

#[test]
fn board_file_name_is_sanitized_name_dash_id_json() {
    assert_eq!(board_file_name("My Board", 42), "my-board-42.json");
    assert_eq!(board_file_name("x", 0), "x-0.json");
    assert_eq!(board_file_name("", 7), "-7.json");
    assert_eq!(
        board_file_name("big", u64::MAX),
        "big-18446744073709551615.json"
    );
}

#[test]
fn now_millis_reads_a_present_day_clock() {
    // well after 2020-01-01 and within u64 range
    let t = now_millis();
    assert!(t > 1_577_836_800_000);
}

#[test]
fn layers_default_to_visible() {
    assert!(default_visible());
}
