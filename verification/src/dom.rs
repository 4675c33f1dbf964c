//! The page seen as data: what the menu page's markup holds, read through
//! scraper and handed to the verified extractor as plain values.
//!
//! Each function here parses the page text anew and answers one fixed query.
//! scraper parses deterministically, so each result is a function of the
//! query's text argument alone and is named by an uninterpreted spec
//! function; the extractor's own contracts are exact over those names.

use vstd::prelude::*;

verus! {

/// One direct child of the menu container, as raw material: its classes (as
/// scraper reports them: sorted and deduplicated), its inner markup, and the
/// outer markup of each of its own direct child elements in document order.
#[derive(Debug)]
pub struct RawChild {
    pub classes: Vec<String>,
    pub inner: String,
    pub children: Vec<String>,
}

/// The mathematical value of a `RawChild`.
#[verifier::ext_equal]
pub struct RawChildV {
    pub classes: Seq<Seq<char>>,
    pub inner: Seq<char>,
    pub children: Seq<Seq<char>>,
}

impl View for RawChild {
    type V = RawChildV;

    open spec fn view(&self) -> RawChildV {
        RawChildV {
            classes: self.classes.deep_view(),
            inner: self.inner@,
            children: self.children.deep_view(),
        }
    }
}

impl DeepView for RawChild {
    type V = RawChildV;

    open spec fn deep_view(&self) -> RawChildV {
        self.view()
    }
}

/// The parts of one dish element, as raw material: the inner markup of every
/// nested name heading, of every nested price paragraph, and of every note
/// list item, each list in document order.
#[derive(Debug)]
pub struct RawDish {
    pub names: Vec<String>,
    pub prices: Vec<String>,
    pub extras: Vec<String>,
}

/// The mathematical value of a `RawDish`.
#[verifier::ext_equal]
pub struct RawDishV {
    pub names: Seq<Seq<char>>,
    pub prices: Seq<Seq<char>>,
    pub extras: Seq<Seq<char>>,
}

impl View for RawDish {
    type V = RawDishV;

    open spec fn view(&self) -> RawDishV {
        RawDishV {
            names: self.names.deep_view(),
            prices: self.prices.deep_view(),
            extras: self.extras.deep_view(),
        }
    }
}

impl DeepView for RawDish {
    type V = RawDishV;

    open spec fn deep_view(&self) -> RawDishV {
        self.view()
    }
}

/// What the date-echo query returns on a given page text.
pub uninterp spec fn date_echoes_of(page: Seq<char>) -> Seq<Seq<char>>;

/// What the menu-container query returns on a given page text.
pub uninterp spec fn menu_children_of(page: Seq<char>) -> Option<Seq<RawChildV>>;

/// What the dish-parts query returns on a given dish text.
pub uninterp spec fn dish_fields_of(dish: Seq<char>) -> RawDishV;

/// Relies on scraper: `Html::parse_fragment`, `Selector::parse`,
/// `Html::select` and `ElementRef::inner_html`. Returns the inner markup of
/// each currently selected option of the page's date control
/// (`select#edit-date>option[selected='selected']`), in document order.
#[verifier::external_body]
pub fn date_echoes(page: &str) -> (r: Vec<String>)
    ensures
        r.deep_view() == date_echoes_of(page@),
{
    let doc = scraper::Html::parse_fragment(page);
    let sel = scraper::Selector::parse("select#edit-date>option[selected='selected']").unwrap();
    let mut out: Vec<String> = Vec::new();
    for m in doc.select(&sel) {
        out.push(m.inner_html());
    }
    out
}

/// Relies on scraper: `Html::parse_fragment`, `Selector::parse`,
/// `Html::select`, `ElementRef::child_elements`, `Element::classes`,
/// `ElementRef::html` and `ElementRef::inner_html`. Returns the direct child
/// elements of the page's first menu container (`section.meals`) in document
/// order, each with its classes, its inner markup and its own direct
/// children's outer markup; `None` when the page has no menu container.
#[verifier::external_body]
pub fn menu_children(page: &str) -> (r: Option<Vec<RawChild>>)
    ensures
        r.deep_view() == menu_children_of(page@),
{
    let doc = scraper::Html::parse_fragment(page);
    let sel = scraper::Selector::parse("section.meals").unwrap();
    let container = match doc.select(&sel).next() { Some(c) => c, None => return None };
    let mut out: Vec<RawChild> = Vec::new();
    for el in container.child_elements() {
        let (mut classes, mut children): (Vec<String>, Vec<String>) = (Vec::new(), Vec::new());
        for c in el.value().classes() { classes.push(c.to_string()); }
        for d in el.child_elements() { children.push(d.html()); }
        out.push(RawChild { classes, inner: el.inner_html(), children });
    }
    Some(out)
}

/// Relies on scraper: `Html::parse_fragment`, `Selector::parse`,
/// `Html::select` and `ElementRef::inner_html`. Returns, for a dish element
/// rendered as text, the inner markup of each `header>div>div>h4` match, of
/// each `header>div>div>p` match, and of each `details>ul>li` match, each in
/// document order.
#[verifier::external_body]
pub fn dish_fields(dish: &str) -> (r: RawDish)
    ensures
        r@ == dish_fields_of(dish@),
{
    let doc = scraper::Html::parse_fragment(dish);
    let hs = scraper::Selector::parse("header>div>div>h4").unwrap();
    let ps = scraper::Selector::parse("header>div>div>p").unwrap();
    let ls = scraper::Selector::parse("details>ul>li").unwrap();
    let (mut names, mut prices): (Vec<String>, Vec<String>) = (Vec::new(), Vec::new());
    let mut extras: Vec<String> = Vec::new();
    for m in doc.select(&hs) { names.push(m.inner_html()); }
    for m in doc.select(&ps) { prices.push(m.inner_html()); }
    for m in doc.select(&ls) { extras.push(m.inner_html()); }
    RawDish { names, prices, extras }
}

} // verus!
