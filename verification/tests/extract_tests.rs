use mensa_menu::extract::extract_menu;
use mensa_menu::menu::MenuError;

fn date_control(display: &str) -> String {
    format!(
        "<select id=\"edit-date\"><option selected=\"selected\">{}</option></select>",
        display
    )
}

fn dish(name: &str, price_para: &str, extras: &[&str]) -> String {
    let notes: String = extras
        .iter()
        .map(|e| format!("<li>{}</li>", e))
        .collect::<Vec<_>>()
        .join("");
    format!(
        "<article><header><div><div><h4>{}</h4><p>{}</p></div></div></header>\
         <details><ul>{}</ul></details></article>",
        name, price_para, notes
    )
}

fn page(date_display: &str, sections: &str) -> String {
    format!(
        "<html><body>{}<section class=\"meals\">{}</section></body></html>",
        date_control(date_display),
        sections
    )
}

#[test]
fn mismatched_date_echo_means_no_menu_published() {
    // The control echoes March 5th, but March 6th was requested: the source
    // silently substituted a different day, so there is no menu to show.
    let html = page(
        "Di., 05.03.2024",
        "<h3 class=\"title-prim\">Essen</h3>\
         <div class=\"accordion u-block\"><div><header><div><div>\
         <h4>Eintopf</h4><p>3,50 €</p></div></div></header></div></div>",
    );
    let r = extract_menu(&html, "2024-03-06");
    assert_eq!(r, Err(MenuError::NoMenuPublished));
}

#[test]
fn two_sections_with_decorative_siblings() {
    // Two primary section titles, each followed by a decorative sibling and
    // then the accordion block that carries the dishes.
    let menu_body = format!(
        "<h3 class=\"title-prim\">Hauptgericht</h3>\
         <div class=\"decor\">*</div>\
         <div class=\"accordion u-block\">{}{}</div>\
         <h3 class=\"title-prim\">Beilage</h3>\
         <h4 class=\"title-sec\">Hinweis</h4>\
         <div class=\"accordion u-block\">{}</div>",
        dish("Linseneintopf", "Preis\n  3,50 €  ", &["Bohnen", "Sellerie"]),
        dish("Schnitzel", "5,90 €", &[]),
        dish("Kartoffeln", "Beilage\n 1,10 €", &["Butter"])
    );
    let html = page("Mo., 11.03.2024", &menu_body);
    let m = extract_menu(&html, "2024-03-11").unwrap();
    assert_eq!(m.date, "Mo., 11.03.2024");
    assert_eq!(m.groups.len(), 2);

    let g1 = &m.groups[0];
    assert_eq!(g1.label, "Hauptgericht");
    assert_eq!(g1.meals.len(), 2);
    assert_eq!(g1.meals[0].name, "Linseneintopf");
    assert_eq!(g1.meals[0].extras, vec!["Bohnen", "Sellerie"]);
    // The price is the last line of the paragraph, trimmed.
    assert_eq!(g1.meals[0].price, "3,50 €");
    assert_eq!(g1.meals[1].name, "Schnitzel");
    assert_eq!(g1.meals[1].extras, Vec::<String>::new());
    assert_eq!(g1.meals[1].price, "5,90 €");

    let g2 = &m.groups[1];
    assert_eq!(g2.label, "Beilage");
    assert_eq!(g2.meals.len(), 1);
    assert_eq!(g2.meals[0].name, "Kartoffeln");
    assert_eq!(g2.meals[0].extras, vec!["Butter"]);
    assert_eq!(g2.meals[0].price, "1,10 €");
}

#[test]
fn price_is_last_line_trimmed() {
    let html = page(
        "Mo., 11.03.2024",
        &format!(
            "<h3 class=\"title-prim\">Essen</h3>\
             <div class=\"accordion u-block\">{}</div>",
            dish("Auflauf", "Studierende\n\t 2,95 € ", &[])
        ),
    );
    let m = extract_menu(&html, "2024-03-11").unwrap();
    assert_eq!(m.groups[0].meals[0].price, "2,95 €");
}

#[test]
fn missing_menu_container_is_a_structural_fault() {
    let html = format!(
        "<html><body>{}<div>kein Plan</div></body></html>",
        date_control("Mo., 11.03.2024")
    );
    let r = extract_menu(&html, "2024-03-11");
    assert_eq!(r, Err(MenuError::StructuralFault));
}

#[test]
fn missing_date_control_is_a_structural_fault() {
    let html = "<html><body><section class=\"meals\"></section></body></html>";
    let r = extract_menu(html, "2024-03-11");
    assert_eq!(r, Err(MenuError::StructuralFault));
}

#[test]
fn unreadable_date_echo_is_a_structural_fault() {
    let html = page("heute", "");
    let r = extract_menu(&html, "2024-03-11");
    assert_eq!(r, Err(MenuError::StructuralFault));
}

#[test]
fn title_without_block_is_a_structural_fault() {
    // The title's sibling chain ends without an accordion block.
    let html = page(
        "Mo., 11.03.2024",
        "<h3 class=\"title-prim\">Essen</h3><div class=\"decor\">*</div>",
    );
    let r = extract_menu(&html, "2024-03-11");
    assert_eq!(r, Err(MenuError::StructuralFault));
}

#[test]
fn dish_without_name_heading_is_a_structural_fault() {
    let html = page(
        "Mo., 11.03.2024",
        "<h3 class=\"title-prim\">Essen</h3>\
         <div class=\"accordion u-block\"><div><header><div><div>\
         <p>3,50 €</p></div></div></header></div></div>",
    );
    let r = extract_menu(&html, "2024-03-11");
    assert_eq!(r, Err(MenuError::StructuralFault));
}

#[test]
fn empty_block_is_a_structural_fault() {
    // A group with zero extracted dishes is an extraction fault, not a
    // valid state.
    let html = page(
        "Mo., 11.03.2024",
        "<h3 class=\"title-prim\">Essen</h3><div class=\"accordion u-block\"></div>",
    );
    let r = extract_menu(&html, "2024-03-11");
    assert_eq!(r, Err(MenuError::StructuralFault));
}

#[test]
fn children_without_title_class_are_skipped() {
    // Blocks and decorations before the first title start no group.
    let html = page(
        "Mo., 11.03.2024",
        &format!(
            "<div class=\"accordion u-block\">{}</div>\
             <h3 class=\"title-prim\">Essen</h3>\
             <div class=\"accordion u-block\">{}</div>",
            dish("Verwaist", "0,00 €", &[]),
            dish("Gulasch", "4,20 €", &[])
        ),
    );
    let m = extract_menu(&html, "2024-03-11").unwrap();
    assert_eq!(m.groups.len(), 1);
    assert_eq!(m.groups[0].meals[0].name, "Gulasch");
}
