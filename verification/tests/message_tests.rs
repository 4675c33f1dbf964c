use mensa_menu::menu::{DayMenu, MealGroup, SingleMeal};
use mensa_menu::message::{build_chat_message, escape_markdown_v2, md_bold, md_italic, md_underline};

fn meal(name: &str, extras: &[&str], price: &str) -> SingleMeal {
    SingleMeal {
        name: name.to_string(),
        extras: extras.iter().map(|e| e.to_string()).collect(),
        price: price.to_string(),
    }
}

#[test]
fn markdown_styles() {
    assert_eq!(md_bold("Essen"), "*Essen*");
    assert_eq!(md_italic("heute"), "_heute_");
    assert_eq!(md_underline("Gulasch"), "__Gulasch__");
    // The disambiguation quirk: text that borders on underscores gets the
    // escaped-r closing pair.
    assert_eq!(md_italic("__x__"), "___x_\\r__");
    assert_eq!(md_underline("_x_"), "___x_\\r__");
    assert_eq!(md_underline("_"), "___\\r__");
}

#[test]
fn escaping_specials() {
    assert_eq!(escape_markdown_v2("a.b!c"), "a\\.b\\!c");
    assert_eq!(escape_markdown_v2("1+1=2"), "1\\+1\\=2");
    assert_eq!(escape_markdown_v2("<a>(b)-c"), "\\<a\\>\\(b\\)\\-c");
    assert_eq!(escape_markdown_v2("plain text"), "plain text");
}

#[test]
fn escaping_collapses_amp_entities() {
    assert_eq!(escape_markdown_v2("Käse &amp; Brot"), "Käse & Brot");
    // Replacement runs left to right without overlap.
    assert_eq!(escape_markdown_v2("x&amp;amp;y"), "x&amp;y");
    assert_eq!(escape_markdown_v2("&amp;&amp;"), "&&");
}

#[test]
fn message_for_a_shifted_request() {
    let m = DayMenu {
        date: "2024-03-11".to_string(),
        groups: vec![MealGroup {
            label: "G".to_string(),
            meals: vec![meal("N", &[], "1 €")],
        }],
    };
    let msg = build_chat_message(&m, 0, 2);
    assert_eq!(
        msg,
        "_2024\\-03\\-11_ \\(Übermorgen\\)\n\n*G*\n • __N__\n   1 €\n\n \\< /heute \\>  \\< /morgen \\>\n \\< /uebermorgen \\>"
    );
}

#[test]
fn message_marks_tomorrow_only_for_mode_zero() {
    let m = DayMenu {
        date: "d".to_string(),
        groups: vec![MealGroup {
            label: "G".to_string(),
            meals: vec![meal("N", &[], "1 €")],
        }],
    };
    assert!(build_chat_message(&m, 0, 1).contains("\\(Morgen\\)"));
    assert!(build_chat_message(&m, 0, 2).contains("\\(Übermorgen\\)"));
    // A request for tomorrow that shifted is not marked: only a request for
    // today that silently moved into the future gets the note.
    assert!(!build_chat_message(&m, 1, 2).contains("Morgen\\)"));
    assert!(!build_chat_message(&m, 0, 0).contains("Morgen\\)"));
}

#[test]
fn shared_price_is_printed_once() {
    let m = DayMenu {
        date: "d".to_string(),
        groups: vec![MealGroup {
            label: "G".to_string(),
            meals: vec![meal("A", &[], "2 €"), meal("B", &[], "2 €")],
        }],
    };
    let msg = build_chat_message(&m, 1, 0);
    assert_eq!(
        msg,
        "_d_ \n\n*G*\n • __A__\n • __B__\n   2 €\n\n \\< /heute \\>  \\< /morgen \\>\n \\< /uebermorgen \\>"
    );
}

#[test]
fn distinct_prices_are_printed_per_dish() {
    let m = DayMenu {
        date: "d".to_string(),
        groups: vec![MealGroup {
            label: "G".to_string(),
            meals: vec![
                meal("A", &["Ei"], "2 €"),
                meal("B", &[], "3 €"),
            ],
        }],
    };
    let msg = build_chat_message(&m, 1, 0);
    assert_eq!(
        msg,
        "_d_ \n\n*G*\n • __A__\n     \\+ _Ei_\n   2 €\n • __B__\n   3 €\n\n \\< /heute \\>  \\< /morgen \\>\n \\< /uebermorgen \\>"
    );
}
