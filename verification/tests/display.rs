use anime_cli::display::{bar_drawn, label, labels, labels_for, BarLabel};

fn shown(text: &str, fits: bool) -> BarLabel {
    BarLabel { text: text.to_string(), fits }
}

#[test]
fn short_name_is_shown_whole() {
    assert_eq!(label("a.mkv", Some(80)), shown("a.mkv: ", true));
    assert_eq!(label("", Some(0)), shown(": ", true));
}

#[test]
fn unknown_width_gives_a_line() {
    assert_eq!(label("a.mkv", None), shown("a.mkv added to list", false));
}

#[test]
fn long_name_on_a_wide_terminal_is_shown_by_its_ends() {
    let name = "0123456789".repeat(8);
    // width 120: the text may take 60, a quarter of the width is 30
    assert_eq!(
        label(&name, Some(120)),
        shown(
            "012345678901234567890123456789...9012345678901234567890123456789: ",
            true
        )
    );
}

#[test]
fn long_name_on_a_narrower_terminal_is_shown_by_its_end() {
    let name = "0123456789".repeat(8);
    // width 80: the text may take 40, a quarter of the width is 20
    assert_eq!(label(&name, Some(80)), shown("...901234567890123456789: ", true));
}

#[test]
fn long_name_on_a_narrow_terminal_gives_a_line() {
    let name = "0123456789".repeat(8);
    assert_eq!(label(&name, Some(70)), shown(&format!("{} added to list", name), false));
    assert_eq!(label("a.mkv", Some(4)), shown("a.mkv added to list", false));
}

#[test]
fn name_at_the_limit() {
    let name = "x".repeat(60);
    assert_eq!(label(&name, Some(120)), shown(&format!("{}: ", name), true));
    let longer = "x".repeat(61);
    assert_eq!(
        label(&longer, Some(120)),
        shown(&format!("{}...{}: ", "x".repeat(30), "x".repeat(31)), true)
    );
}

#[test]
fn name_is_cut_between_characters() {
    let name = "\u{00e9}".repeat(40);
    // 80 bytes, 40 characters; the text may take 60
    assert_eq!(
        label(&name, Some(120)),
        shown(&format!("{}...{}: ", "\u{00e9}".repeat(30), "\u{00e9}".repeat(31)), true)
    );
}

#[test]
fn name_of_few_wide_characters_is_shown_whole() {
    let name = "\u{1f600}".repeat(20);
    // 80 bytes, 20 characters; a quarter of the width is 30
    assert_eq!(label(&name, Some(120)), shown(&format!("{}: ", name), true));
}

#[test]
fn labels_keep_the_order_of_the_names() {
    let names = vec!["a.mkv".to_string(), "b.mkv".to_string()];
    assert_eq!(
        labels_for(&names, Some(80)),
        vec![shown("a.mkv: ", true), shown("b.mkv: ", true)]
    );
    assert_eq!(labels_for(&vec![], Some(80)), vec![]);
}

#[test]
fn labels_on_this_terminal_are_those_of_some_width() {
    let names = vec!["a.mkv".to_string(), "0123456789".repeat(30)];
    let got = labels(&names);
    assert_eq!(got.len(), 2);
    assert!(got[0] == shown("a.mkv: ", true) || got[0] == shown("a.mkv added to list", false));
    assert!(got[1].text.ends_with(": ") == got[1].fits);
}

#[test]
fn no_bar_after_a_line() {
    let list = vec![shown("a: ", true), shown("b added to list", false), shown("c: ", true)];
    assert!(bar_drawn(&list, 0));
    assert!(!bar_drawn(&list, 1));
    assert!(!bar_drawn(&list, 2));
    assert!(!bar_drawn(&list, 3));
    assert!(bar_drawn(&vec![shown("a: ", true), shown("b: ", true)], 1));
}
