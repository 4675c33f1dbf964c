use mensa_menu::cache::{CacheKey, CacheStore};
use mensa_menu::menu::MenuError;

fn key(date: &str) -> CacheKey {
    CacheKey {
        location: 140,
        date_iso: date.to_string(),
    }
}

fn fixture(date_display: &str, dish_name: &str, price: &str) -> String {
    format!(
        "<html><body>\
         <select id=\"edit-date\"><option selected=\"selected\">{}</option></select>\
         <section class=\"meals\">\
         <h3 class=\"title-prim\">Essen</h3>\
         <div class=\"accordion u-block\"><div><header><div><div>\
         <h4>{}</h4><p>{}</p></div></div></header></div></div>\
         </section></body></html>",
        date_display, dish_name, price
    )
}

#[test]
fn query_string_is_the_wire_query() {
    assert_eq!(key("2024-03-11").query_string(), "location=140&date=2024-03-11");
    let other = CacheKey {
        location: 7,
        date_iso: "1999-01-02".to_string(),
    };
    assert_eq!(other.query_string(), "location=7&date=1999-01-02");
    let wide = CacheKey {
        location: 4294967295,
        date_iso: "2024-03-11".to_string(),
    };
    assert_eq!(wide.query_string(), "location=4294967295&date=2024-03-11");
}

#[test]
fn read_misses_on_an_empty_store() {
    let store = CacheStore::new();
    assert!(store.read(&key("2024-03-11")).is_none());
}

#[test]
fn reconcile_fills_the_cache_and_read_returns_it() {
    let mut store = CacheStore::new();
    let k = key("2024-03-11");
    let raw = fixture("Mo., 11.03.2024", "Gulasch", "4,20 €");
    let menu = store.reconcile(&k, &raw).unwrap();
    assert_eq!(menu.groups[0].meals[0].name, "Gulasch");
    let cached = store.read(&k).unwrap();
    assert_eq!(cached, menu);
}

#[test]
fn reconcile_twice_with_identical_raw_returns_the_stored_record() {
    // Idempotence: the second call with byte-identical raw text answers from
    // the store without re-deriving or rewriting anything.
    let mut store = CacheStore::new();
    let k = key("2024-03-11");
    let raw = fixture("Mo., 11.03.2024", "Gulasch", "4,20 €");
    let first = store.reconcile(&k, &raw).unwrap();
    let second = store.reconcile(&k, &raw).unwrap();
    assert_eq!(first, second);
    assert_eq!(store.read(&k).unwrap(), first);
    assert_eq!(store.read_raw(&k).unwrap(), raw);
}

#[test]
fn changed_raw_replaces_the_entry_wholesale() {
    let mut store = CacheStore::new();
    let k = key("2024-03-11");
    let old_raw = fixture("Mo., 11.03.2024", "Gulasch", "4,20 €");
    store.reconcile(&k, &old_raw).unwrap();
    let new_raw = fixture("Mo., 11.03.2024", "Auflauf", "3,10 €");
    let menu = store.reconcile(&k, &new_raw).unwrap();
    assert_eq!(menu.groups[0].meals[0].name, "Auflauf");
    assert_eq!(store.read(&k).unwrap(), menu);
    assert_eq!(store.read_raw(&k).unwrap(), new_raw);
}

#[test]
fn failed_reconcile_leaves_the_prior_entry_untouched() {
    let mut store = CacheStore::new();
    let k = key("2024-03-11");
    let good = fixture("Mo., 11.03.2024", "Gulasch", "4,20 €");
    let menu = store.reconcile(&k, &good).unwrap();
    // A fetch for the same key that comes back without the menu container
    // fails structurally and must not corrupt the stored entry.
    let bad = "<html><body>Wartungsarbeiten</body></html>";
    let r = store.reconcile(&k, bad);
    assert_eq!(r, Err(MenuError::StructuralFault));
    assert_eq!(store.read(&k).unwrap(), menu);
    assert_eq!(store.read_raw(&k).unwrap(), good);
}

#[test]
fn reconcile_reports_no_menu_published() {
    let mut store = CacheStore::new();
    let k = key("2024-03-12");
    // The source echoes the 11th back for a request for the 12th.
    let raw = fixture("Mo., 11.03.2024", "Gulasch", "4,20 €");
    let r = store.reconcile(&k, &raw);
    assert_eq!(r, Err(MenuError::NoMenuPublished));
    assert!(store.read(&k).is_none());
}

#[test]
fn distinct_keys_hold_distinct_entries() {
    let mut store = CacheStore::new();
    let k1 = key("2024-03-11");
    let k2 = key("2024-03-12");
    let raw1 = fixture("Mo., 11.03.2024", "Gulasch", "4,20 €");
    let raw2 = fixture("Di., 12.03.2024", "Auflauf", "3,10 €");
    let m1 = store.reconcile(&k1, &raw1).unwrap();
    let m2 = store.reconcile(&k2, &raw2).unwrap();
    assert_eq!(store.read(&k1).unwrap(), m1);
    assert_eq!(store.read(&k2).unwrap(), m2);
    assert_ne!(m1, m2);
}
