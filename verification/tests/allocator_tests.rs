use color_alloc::{Color, Colors};

fn names(list: &[&str]) -> Vec<String> {
    let mut v: Vec<String> = Vec::new();
    for n in list {
        v.push(String::from(*n));
    }
    v
}

#[test]
fn named_colors_come_in_input_order() {
    let mut c = Colors::new(names(&["red", "blue", "green"]));
    assert_eq!(c.next().unwrap(), Color::Red);
    assert_eq!(c.next().unwrap(), Color::Blue);
    assert_eq!(c.next().unwrap(), Color::Green);
}

#[test]
fn duplicate_names_are_honored_not_deduplicated() {
    let mut c = Colors::new(names(&["red", "red"]));
    let first = c.next().unwrap();
    let second = c.next().unwrap();
    assert_eq!(first, Color::Red);
    assert_eq!(second, Color::Red);
    assert_eq!(first, second);
}

#[test]
fn empty_name_list_starts_at_slot_two() {
    let mut c = Colors::new(Vec::new());
    assert_eq!(c.next().unwrap(), Color::Indexed(2));
    assert_eq!(c.next().unwrap(), Color::Indexed(3));
    assert_eq!(c.next().unwrap(), Color::Indexed(4));
}

#[test]
fn fallback_skips_slots_taken_by_names() {
    // "2" and "3" resolve to the indexed colors of slots 2 and 3.
    let mut c = Colors::new(names(&["2", "3"]));
    assert_eq!(c.next().unwrap(), Color::Indexed(2));
    assert_eq!(c.next().unwrap(), Color::Indexed(3));
    // Names exhausted: the fallback must skip slots 2 and 3.
    assert_eq!(c.next().unwrap(), Color::Indexed(4));
}

#[test]
fn fallback_skips_a_slot_taken_mid_palette() {
    let mut c = Colors::new(names(&["4"]));
    assert_eq!(c.next().unwrap(), Color::Indexed(4));
    assert_eq!(c.next().unwrap(), Color::Indexed(2));
    assert_eq!(c.next().unwrap(), Color::Indexed(3));
    assert_eq!(c.next().unwrap(), Color::Indexed(5));
}

#[test]
fn hyphen_resolves_like_the_spaced_spelling() {
    let mut c = Colors::new(names(&["light-red", "light red"]));
    let hyphened = c.next().unwrap();
    let spaced = c.next().unwrap();
    assert_eq!(hyphened, Color::LightRed);
    assert_eq!(spaced, Color::LightRed);
    assert_eq!(hyphened, spaced);
}

#[test]
fn invalid_name_reports_error_and_allocator_continues() {
    let mut c = Colors::new(names(&["not-a-color", "green"]));
    let err = c.next().unwrap_err();
    assert_eq!(err.name, "not-a-color");
    assert!(err.message().contains("not-a-color"));
    assert_eq!(err.message(), "Invalid color code: `not-a-color`");
    assert_eq!(err.detail, "Failed to parse Colors");
    // The failed name is consumed, not retried: the next call succeeds.
    assert_eq!(c.next().unwrap(), Color::Green);
    // And after the names, the fallback proceeds normally.
    assert_eq!(c.next().unwrap(), Color::Indexed(2));
}

#[test]
fn indexed_colors_never_repeat_over_the_whole_palette() {
    let mut c = Colors::new(Vec::new());
    let mut seen: Vec<Color> = Vec::new();
    // Slots 0 and 1 are reserved, so 254 indexed colors exist in all.
    for expected in 2..=255u8 {
        assert!(c.has_free_slot());
        let got = c.next().unwrap();
        assert_eq!(got, Color::Indexed(expected));
        assert!(!seen.contains(&got));
        seen.push(got);
    }
    assert!(!c.has_free_slot());
}

#[test]
fn named_color_and_indexed_slot_are_distinct_values() {
    // A named color never collides with an indexed slot: green is not
    // Indexed(2), so the fallback still starts at slot 2.
    let mut c = Colors::new(names(&["green"]));
    assert_eq!(c.next().unwrap(), Color::Green);
    assert_eq!(c.next().unwrap(), Color::Indexed(2));
}

#[test]
fn names_left_counts_down() {
    let mut c = Colors::new(names(&["red", "blue"]));
    assert_eq!(c.names_left(), 2);
    c.next().unwrap();
    assert_eq!(c.names_left(), 1);
    c.next().unwrap();
    assert_eq!(c.names_left(), 0);
}
