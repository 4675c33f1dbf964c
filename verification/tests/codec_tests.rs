use mensa_menu::codec::{deserialize_day_menu, serialize_day_menu};
use mensa_menu::menu::{DayMenu, MealGroup, SingleMeal};

fn meal(name: &str, extras: &[&str], price: &str) -> SingleMeal {
    SingleMeal {
        name: name.to_string(),
        extras: extras.iter().map(|e| e.to_string()).collect(),
        price: price.to_string(),
    }
}

fn sample_menu() -> DayMenu {
    DayMenu {
        date: "Mo., 11.03.2024".to_string(),
        groups: vec![
            MealGroup {
                label: "Hauptgericht".to_string(),
                meals: vec![
                    meal("Käsespätzle", &["Sellerie", "Ei"], "3,50 €"),
                    meal("Gulasch", &[], "4,20 €"),
                ],
            },
            MealGroup {
                label: "Beilagen".to_string(),
                meals: vec![meal("Kartoffeln", &["Butter"], "1,10 €")],
            },
        ],
    }
}

#[test]
fn serialize_exact_form() {
    let m = DayMenu {
        date: "x".to_string(),
        groups: vec![MealGroup {
            label: "L".to_string(),
            meals: vec![meal("N", &["e"], "P")],
        }],
    };
    assert_eq!(serialize_day_menu(&m), "1:x1;1:L1;1:N1;1:e1:P");
}

#[test]
fn round_trip_is_identity() {
    let m = sample_menu();
    let text = serialize_day_menu(&m);
    let back = deserialize_day_menu(&text).unwrap();
    assert_eq!(back, m);
}

#[test]
fn round_trip_keeps_format_characters_in_strings() {
    // Colons, semicolons, digits and line breaks inside the payload must
    // survive: the length prefixes make them inert.
    let m = DayMenu {
        date: "11:03;2024".to_string(),
        groups: vec![MealGroup {
            label: "7:x".to_string(),
            meals: vec![meal("a;1:b", &["2:", ";"], "Preis\n 3,50 €")],
        }],
    };
    let back = deserialize_day_menu(&serialize_day_menu(&m)).unwrap();
    assert_eq!(back, m);
}

#[test]
fn deserialize_rejects_garbage() {
    assert!(deserialize_day_menu("").is_none());
    assert!(deserialize_day_menu("menu").is_none());
    assert!(deserialize_day_menu("5:abc").is_none());
    assert!(deserialize_day_menu("1:x").is_none());
    // Trailing text after a complete menu is refused.
    assert!(deserialize_day_menu("1:x1;1:L1;1:N1;1:e1:Pzzz").is_none());
}

#[test]
fn deserialize_rejects_an_empty_group() {
    // A group with zero meals is never a valid record.
    assert!(deserialize_day_menu("1:x1;1:L0;").is_none());
    // The same text with one meal is fine.
    assert!(deserialize_day_menu("1:x1;1:L1;1:N0;1:P").is_some());
}
