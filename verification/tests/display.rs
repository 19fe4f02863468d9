use reactive_todo::decimal::{push_signed, push_unsigned, signed_to_string, unsigned_to_string};
use reactive_todo::display::{
    clicks_label, doubled, DEFAULT_PROGRESS_MAX, loading_text, padding, progress_mark, shows_red,
    summary_text, text_color, text_decoration,
};
use reactive_todo::remote::{todos_url, toggle_url};

#[test]
fn the_headline_names_what_is_left() {
    assert_eq!(summary_text(0), "All done, enjoy the day!");
    assert_eq!(summary_text(1), "Just one more item");
    assert_eq!(summary_text(2), "2 things left to do");
    assert_eq!(summary_text(10), "10 things left to do");
    assert_eq!(summary_text(305), "305 things left to do");
    assert_eq!(summary_text(i32::MAX), "2147483647 things left to do");
    assert_eq!(summary_text(-1), "-1 things left to do");
}

#[test]
fn the_placeholder_says_that_the_list_is_loading() {
    assert_eq!(loading_text(), "Loading...");
}

#[test]
fn an_item_is_green_when_it_is_done_and_at_rest() {
    assert_eq!(text_color(true, false), "green");
    assert_eq!(text_color(true, true), "black");
    assert_eq!(text_color(false, true), "black");
    assert_eq!(text_color(false, false), "black");
}

#[test]
fn an_item_is_underlined_when_it_is_open_and_at_rest() {
    assert_eq!(text_decoration(false, false), "underline");
    assert_eq!(text_decoration(true, false), "none");
    assert_eq!(text_decoration(true, true), "none");
    assert_eq!(text_decoration(false, true), "none");
}

#[test]
fn an_updating_item_is_marked_with_an_hourglass() {
    assert_eq!(progress_mark(true), "\u{23f3}  ");
    assert_eq!(progress_mark(false), "");
}

#[test]
fn the_button_grows_and_blinks_with_the_clicks() {
    assert_eq!(doubled(4), 8);
    assert_eq!(doubled(0), 0);
    assert_eq!(doubled(-7), -14);
    assert_eq!(doubled(1073741823), 2147483646);
    assert_eq!(doubled(-1073741824), i32::MIN);
    assert_eq!(padding(4), "8px");
    assert_eq!(padding(0), "0px");
    assert_eq!(padding(13), "26px");
    assert_eq!(padding(-2), "-4px");
    assert!(!shows_red(4));
    assert!(shows_red(5));
    assert!(!shows_red(0));
    assert!(shows_red(1));
    assert!(!shows_red(-1));
    assert!(!shows_red(-2));
    assert_eq!(clicks_label(4), "Clicks: 4");
    assert_eq!(clicks_label(120), "Clicks: 120");
    assert_eq!(DEFAULT_PROGRESS_MAX, 25);
}

#[test]
fn numbers_are_written_in_decimal() {
    assert_eq!(unsigned_to_string(0), "0");
    assert_eq!(unsigned_to_string(9), "9");
    assert_eq!(unsigned_to_string(10), "10");
    assert_eq!(unsigned_to_string(1234567890), "1234567890");
    assert_eq!(unsigned_to_string(u64::MAX), "18446744073709551615");
    assert_eq!(signed_to_string(0), "0");
    assert_eq!(signed_to_string(-5), "-5");
    assert_eq!(signed_to_string(100), "100");
    assert_eq!(signed_to_string(i32::MIN), "-2147483648");
    assert_eq!(signed_to_string(i32::MAX), "2147483647");
    for n in [0u64, 7, 19, 100, 909, 65536, u64::MAX] {
        assert_eq!(unsigned_to_string(n), format!("{}", n));
    }
    for n in [0i32, -1, 1, -10, 99, -1000, i32::MIN, i32::MAX] {
        assert_eq!(signed_to_string(n), format!("{}", n));
    }
    let mut text = String::from("id ");
    push_unsigned(&mut text, 42);
    push_signed(&mut text, -3);
    assert_eq!(text, "id 42-3");
}

#[test]
fn the_remote_source_is_addressed_by_identifier() {
    assert_eq!(todos_url(), "https://icp-test.fly.dev/todos");
    assert_eq!(toggle_url(0), "https://icp-test.fly.dev/toggle/0");
    assert_eq!(toggle_url(17), "https://icp-test.fly.dev/toggle/17");
    assert_eq!(toggle_url(u64::MAX), "https://icp-test.fly.dev/toggle/18446744073709551615");
}
