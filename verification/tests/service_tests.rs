use mensa_menu::date::make_date;
use mensa_menu::menu::MenuError;
use mensa_menu::message::build_chat_message;
use mensa_menu::service::MenuService;

fn fixture(date_display: &str, dish_name: &str, price: &str) -> String {
    format!(
        "<html><body>\
         <select id=\"edit-date\"><option selected=\"selected\">{}</option></select>\
         <section class=\"meals\">\
         <h3 class=\"title-prim\">Essen</h3>\
         <div class=\"accordion u-block\"><div><header><div><div>\
         <h4>{}</h4><p>{}</p></div></div></header></div></div>\
         </section></body></html>",
        date_display, dish_name, price
    )
}

#[test]
fn saturday_request_end_to_end() {
    // A request for "today" made on a Saturday: the resolver lands on the
    // following Monday, two days ahead, and the message says so.
    let mut svc = MenuService::new(140);
    let saturday = make_date(2024, 3, 9).unwrap();
    let req = svc.plan(&saturday, 0);
    assert_eq!(req.date, make_date(2024, 3, 11).unwrap());
    assert_eq!(req.shifted_by, 2);
    assert_eq!(req.key.date_iso, "2024-03-11");
    assert_eq!(req.key.query_string(), "location=140&date=2024-03-11");

    // Cold cache: the caller must fetch.
    assert!(svc.get_menu_cached(&req).is_none());
    let raw = fixture("Mo., 11.03.2024", "Gulasch", "4,20 €");
    let menu = svc.get_menu_fetched(&req, &raw).unwrap();
    assert_eq!(menu.date, "Mo., 11.03.2024");

    // Warm cache: the same request now answers without a fetch.
    assert_eq!(svc.get_menu_cached(&req).unwrap(), menu);

    // The message metadata marks the forward shift.
    let msg = build_chat_message(&menu, 0, req.shifted_by);
    assert!(msg.contains("\\(Übermorgen\\)"));
}

#[test]
fn mismatched_fetch_propagates_no_menu_published() {
    let mut svc = MenuService::new(140);
    let tuesday = make_date(2024, 3, 5).unwrap();
    let req = svc.plan(&tuesday, 1);
    assert_eq!(req.key.date_iso, "2024-03-06");
    // The source answers with the 5th instead of the requested 6th.
    let raw = fixture("Di., 05.03.2024", "Gulasch", "4,20 €");
    let r = svc.get_menu_fetched(&req, &raw);
    assert_eq!(r, Err(MenuError::NoMenuPublished));
    assert!(svc.get_menu_cached(&req).is_none());
}

#[test]
fn prefetch_plan_covers_the_distinct_dates() {
    let svc = MenuService::new(140);
    // Friday: two distinct dates, Friday itself and the following Monday.
    let friday = make_date(2024, 3, 8).unwrap();
    let keys = svc.prefetch_plan(&friday);
    assert_eq!(keys.len(), 2);
    assert_eq!(keys[0].date_iso, "2024-03-08");
    assert_eq!(keys[1].date_iso, "2024-03-11");
    assert_eq!(keys[0].query_string(), "location=140&date=2024-03-08");
    // Saturday: one date only.
    let saturday = make_date(2024, 3, 9).unwrap();
    let sat_keys = svc.prefetch_plan(&saturday);
    assert_eq!(sat_keys.len(), 1);
    assert_eq!(sat_keys[0].date_iso, "2024-03-11");
}

#[test]
fn prefetch_outcomes_are_isolated_per_date() {
    // One date's structural fault does not disturb another date's entry:
    // each key is an independent unit of work.
    let mut svc = MenuService::new(140);
    let friday = make_date(2024, 3, 8).unwrap();
    let keys = svc.prefetch_plan(&friday);
    let good = fixture("Fr., 08.03.2024", "Fisch", "5,50 €");
    let req0 = mensa_menu::service::ResolvedRequest {
        key: keys[0].clone(),
        date: make_date(2024, 3, 8).unwrap(),
        shifted_by: 0,
    };
    let req1 = mensa_menu::service::ResolvedRequest {
        key: keys[1].clone(),
        date: make_date(2024, 3, 11).unwrap(),
        shifted_by: 0,
    };
    assert!(svc.get_menu_fetched(&req0, &good).is_ok());
    let bad = "<html><body>kaputt</body></html>";
    assert_eq!(
        svc.get_menu_fetched(&req1, bad),
        Err(MenuError::StructuralFault)
    );
    // The good entry is still there.
    assert!(svc.get_menu_cached(&req0).is_some());
    assert!(svc.get_menu_cached(&req1).is_none());
}
