//! Structural extraction: from the raw page text to a `DayMenu`, or to the
//! error that says why there is none.
//!
//! The page is read through the queries in `dom`; everything after those
//! reads is verified here against spec functions that are exact over the
//! queries' named results.

use vstd::prelude::*;

verus! {

use crate::dom::{
    RawChild,
    RawChildV,
    RawDish,
    RawDishV,
    date_echoes,
    date_echoes_of,
    dish_fields,
    dish_fields_of,
    menu_children,
    menu_children_of,
};
use crate::menu::{DayMenu, DayMenuV, MealGroup, MealGroupV, MenuError, SingleMeal, SingleMealV};
use crate::text::{
    chars_of,
    lemma_deep_view_concat,
    lemma_deep_view_empty,
    lemma_deep_view_push,
    spec_is_digit,
    string_of,
};

/// The whitespace the price rule strips: blanks, tabs and line ends.
pub open spec fn spec_is_space(c: char) -> bool {
    c == ' ' || c == '\t' || c == '\r' || c == '\n'
}

/// What follows the last line break, or the whole text without one.
pub open spec fn spec_after_last_newline(s: Seq<char>) -> Seq<char>
    decreases s.len(),
{
    if s.len() == 0 {
        s
    } else if s[s.len() - 1] == '\n' {
        Seq::empty()
    } else {
        spec_after_last_newline(s.take(s.len() - 1)).push(s[s.len() - 1])
    }
}

pub open spec fn spec_trim_start(s: Seq<char>) -> Seq<char>
    decreases s.len(),
{
    if s.len() > 0 && spec_is_space(s[0]) {
        spec_trim_start(s.skip(1))
    } else {
        s
    }
}

pub open spec fn spec_trim_end(s: Seq<char>) -> Seq<char>
    decreases s.len(),
{
    if s.len() > 0 && spec_is_space(s[s.len() - 1]) {
        spec_trim_end(s.take(s.len() - 1))
    } else {
        s
    }
}

pub open spec fn spec_trim(s: Seq<char>) -> Seq<char> {
    spec_trim_end(spec_trim_start(s))
}

/// The price rule: the last line of the paragraph's text, trimmed.
pub open spec fn spec_price_line(s: Seq<char>) -> Seq<char> {
    spec_trim(spec_after_last_newline(s))
}

fn is_space(c: char) -> (r: bool)
    ensures
        r == spec_is_space(c),
{
    c == ' ' || c == '\t' || c == '\r' || c == '\n'
}

/// The last line of a price paragraph, trimmed: the displayed price.
pub fn price_line(s: &Vec<char>) -> (r: Vec<char>)
    ensures
        r@ == spec_price_line(s@),
{
    let mut start: usize = s.len();
    while start > 0 && s[start - 1] != '\n'
        invariant
            start <= s@.len(),
            forall|j: int| start <= j < s@.len() ==> s@[j] != '\n',
        decreases start,
    {
        start = start - 1;
    }
    proof {
        lemma_after_last_newline_suffix(s@, start as int);
    }
    let mut lo: usize = start;
    let mut hi: usize = s.len();
    while lo < hi && is_space(s[lo])
        invariant
            start <= lo <= hi <= s@.len(),
            hi == s@.len(),
            spec_trim_start(s@.skip(start as int)) == spec_trim_start(s@.skip(lo as int)),
        decreases hi - lo,
    {
        proof {
            assert(s@.skip(lo as int).skip(1) =~= s@.skip(lo + 1));
        }
        lo = lo + 1;
    }
    proof {
        assert(spec_trim_start(s@.skip(lo as int)) == s@.skip(lo as int).skip(0));
        assert(s@.skip(lo as int).skip(0) =~= s@.skip(lo as int));
    }
    while hi > lo && is_space(s[hi - 1])
        invariant
            lo <= hi <= s@.len(),
            spec_trim_start(s@.skip(start as int)) == s@.skip(lo as int),
            spec_trim_end(s@.subrange(lo as int, s@.len() as int)) == spec_trim_end(
                s@.subrange(lo as int, hi as int),
            ),
        decreases hi,
    {
        proof {
            assert(s@.subrange(lo as int, hi as int).take(hi - lo - 1) =~= s@.subrange(
                lo as int,
                hi - 1,
            ));
        }
        hi = hi - 1;
    }
    proof {
        assert(s@.subrange(lo as int, s@.len() as int) =~= s@.skip(lo as int));
        let tail = s@.subrange(lo as int, hi as int);
        assert(spec_trim_end(tail) == tail);
    }
    let mut r: Vec<char> = Vec::new();
    let mut i: usize = lo;
    while i < hi
        invariant
            lo <= i <= hi <= s@.len(),
            r@ == s@.subrange(lo as int, i as int),
        decreases hi - i,
    {
        r.push(s[i]);
        proof {
            assert(r@ =~= s@.subrange(lo as int, i + 1));
        }
        i = i + 1;
    }
    proof {
        assert(r@ =~= s@.subrange(lo as int, hi as int));
    }
    r
}

/// The date the page's date control echoes, reformatted to `YYYY-MM-DD`.
///
/// The control's text carries the date as digit pairs and a four-digit year
/// counted from its end (day, month, year, each two positions apart); the
/// reformatted form copies those digits. Anything shorter, or with
/// non-digits at those positions, has no reading.
pub open spec fn spec_reformat_echo(e: Seq<char>) -> Option<Seq<char>> {
    let l = e.len() as int;
    if l >= 10 && spec_is_digit(e[l - 10]) && spec_is_digit(e[l - 9]) && spec_is_digit(e[l - 7])
        && spec_is_digit(e[l - 6]) && spec_is_digit(e[l - 4]) && spec_is_digit(e[l - 3])
        && spec_is_digit(e[l - 2]) && spec_is_digit(e[l - 1]) {
        Some(
            seq![
                e[l - 4],
                e[l - 3],
                e[l - 2],
                e[l - 1],
                '-',
                e[l - 7],
                e[l - 6],
                '-',
                e[l - 10],
                e[l - 9],
            ],
        )
    } else {
        None
    }
}

/// Reformats a date echo to `YYYY-MM-DD`, when it can be read.
pub fn reformat_echo(e: &Vec<char>) -> (r: Option<Vec<char>>)
    ensures
        match r {
            Some(v) => spec_reformat_echo(e@) == Some(v@),
            None => spec_reformat_echo(e@) is None,
        },
{
    let l = e.len();
    if l < 10 {
        return None;
    }
    if !(crate::text::is_digit(e[l - 10]) && crate::text::is_digit(e[l - 9]) && crate::text::is_digit(
        e[l - 7],
    ) && crate::text::is_digit(e[l - 6]) && crate::text::is_digit(e[l - 4])
        && crate::text::is_digit(e[l - 3]) && crate::text::is_digit(e[l - 2])
        && crate::text::is_digit(e[l - 1])) {
        return None;
    }
    let mut v: Vec<char> = Vec::new();
    v.push(e[l - 4]);
    v.push(e[l - 3]);
    v.push(e[l - 2]);
    v.push(e[l - 1]);
    v.push('-');
    v.push(e[l - 7]);
    v.push(e[l - 6]);
    v.push('-');
    v.push(e[l - 10]);
    v.push(e[l - 9]);
    proof {
        assert(v@ =~= spec_reformat_echo(e@).unwrap());
    }
    Some(v)
}

/// The meal a dish element yields: the first name heading, the notes in
/// order, and the price rule applied to the first price paragraph. A dish
/// without a name heading or without a price paragraph has no reading.
pub open spec fn spec_meal_of_dish(d: RawDishV) -> Option<SingleMealV> {
    if d.names.len() == 0 || d.prices.len() == 0 {
        None
    } else {
        Some(
            SingleMealV {
                name: d.names[0],
                extras: d.extras,
                price: spec_price_line(d.prices[0]),
            },
        )
    }
}

/// Builds the meal a dish's raw parts yield, when the landmarks are there.
pub fn meal_of_dish(d: &RawDish) -> (r: Option<SingleMeal>)
    ensures
        match r {
            Some(m) => spec_meal_of_dish(d@) == Some(m@),
            None => spec_meal_of_dish(d@) is None,
        },
{
    if d.names.len() == 0 || d.prices.len() == 0 {
        return None;
    }
    let name = d.names[0].clone();
    let pv = chars_of(d.prices[0].as_str());
    let price = string_of(&price_line(&pv));
    let mut extras: Vec<String> = Vec::new();
    let mut i: usize = 0;
    proof {
        lemma_deep_view_empty(extras);
        assert(extras.deep_view() =~= d.extras.deep_view().subrange(0, 0));
    }
    while i < d.extras.len()
        invariant
            i <= d.extras@.len(),
            extras.deep_view() == d.extras.deep_view().subrange(0, i as int),
        decreases d.extras@.len() - i,
    {
        let ghost pre = extras;
        let c = d.extras[i].clone();
        let ghost cg = c;
        extras.push(c);
        proof {
            lemma_deep_view_push(pre, extras, cg);
            assert(d.extras.deep_view()[i as int] == d.extras@[i as int].deep_view());
            assert(extras.deep_view() =~= d.extras.deep_view().subrange(0, i + 1));
        }
        i = i + 1;
    }
    proof {
        assert(extras.deep_view() =~= d.extras.deep_view());
    }
    Some(SingleMeal { name, extras, price })
}

/// Whether a child's class list carries the named class.
pub open spec fn spec_has_class(c: RawChildV, name: Seq<char>) -> bool {
    exists|k: int| 0 <= k < c.classes.len() && c.classes[k] == name
}

pub fn has_class(c: &RawChild, name: &str) -> (r: bool)
    ensures
        r == spec_has_class(c@, name@),
{
    let mut k: usize = 0;
    while k < c.classes.len()
        invariant
            k <= c.classes@.len(),
            forall|j: int| 0 <= j < k ==> c@.classes[j] != name@,
        decreases c.classes@.len() - k,
    {
        if crate::text::str_eq(c.classes[k].as_str(), name) {
            proof {
                assert(c@.classes[k as int] == name@);
            }
            return true;
        }
        k = k + 1;
    }
    false
}

/// A child that carries a group's dishes: the accordion block marker.
pub open spec fn spec_is_block(c: RawChildV) -> bool {
    spec_has_class(c, "accordion"@) && spec_has_class(c, "u-block"@)
}

/// The bounded lookahead past a section title: the first accordion block at
/// or after position `j`, or nothing when the sibling chain ends first.
pub open spec fn spec_find_block(children: Seq<RawChildV>, j: int) -> Option<int>
    decreases children.len() - j when 0 <= j <= children.len()
{
    if j < 0 || j >= children.len() {
        None
    } else if spec_is_block(children[j]) {
        Some(j)
    } else {
        spec_find_block(children, j + 1)
    }
}

/// Scans forward from `from` for the next accordion block.
pub fn find_block(children: &Vec<RawChild>, from: usize) -> (r: Option<usize>)
    requires
        from <= children@.len(),
    ensures
        match r {
            Some(b) => spec_find_block(children.deep_view(), from as int) == Some(b as int)
                && from <= b < children@.len(),
            None => spec_find_block(children.deep_view(), from as int) is None,
        },
    decreases children@.len() - from,
{
    if from >= children.len() {
        return None;
    }
    if has_class(&children[from], "accordion") && has_class(&children[from], "u-block") {
        return Some(from);
    }
    find_block(children, from + 1)
}

/// The meals of a block's dish elements from position `i` on, each read
/// through the dish-parts query; nothing when any dish has no reading.
pub open spec fn spec_meals_from(dishes: Seq<Seq<char>>, i: int) -> Option<Seq<SingleMealV>>
    decreases dishes.len() - i when 0 <= i <= dishes.len()
{
    if i < 0 || i >= dishes.len() {
        Some(Seq::empty())
    } else {
        match spec_meal_of_dish(dish_fields_of(dishes[i])) {
            None => None,
            Some(m) => match spec_meals_from(dishes, i + 1) {
                None => None,
                Some(rest) => Some(seq![m] + rest),
            },
        }
    }
}

fn meals_from(dishes: &Vec<String>, i: usize) -> (r: Option<Vec<SingleMeal>>)
    requires
        i <= dishes@.len(),
    ensures
        match r {
            Some(v) => spec_meals_from(dishes.deep_view(), i as int) == Some(v.deep_view()),
            None => spec_meals_from(dishes.deep_view(), i as int) is None,
        },
    decreases dishes@.len() - i,
{
    if i >= dishes.len() {
        let v: Vec<SingleMeal> = Vec::new();
        proof {
            lemma_deep_view_empty(v);
        }
        return Some(v);
    }
    let rd = dish_fields(dishes[i].as_str());
    match meal_of_dish(&rd) {
        None => None,
        Some(m) => match meals_from(dishes, i + 1) {
            None => None,
            Some(mut rest) => {
                let ghost mg = m;
                let ghost restg = rest;
                let mut v: Vec<SingleMeal> = Vec::new();
                let ghost v0 = v;
                v.push(m);
                let ghost v1 = v;
                v.append(&mut rest);
                proof {
                    lemma_deep_view_empty(v0);
                    lemma_deep_view_push(v0, v1, mg);
                    lemma_deep_view_concat(v1, restg, v);
                    assert(v.deep_view() =~= seq![mg@] + restg.deep_view());
                }
                Some(v)
            },
        },
    }
}

/// The groups of the menu container's children from position `i` on: each
/// primary section title starts a group labelled by its inner markup, whose
/// meals come from the next accordion block; nothing when a title has no
/// block after it, when a dish has no reading, or when a block yields no
/// meals at all.
pub open spec fn spec_groups_from(children: Seq<RawChildV>, i: int) -> Option<Seq<MealGroupV>>
    decreases children.len() - i when 0 <= i <= children.len()
{
    if i < 0 || i >= children.len() {
        Some(Seq::empty())
    } else if !spec_has_class(children[i], "title-prim"@) {
        spec_groups_from(children, i + 1)
    } else {
        match spec_find_block(children, i + 1) {
            None => None,
            Some(b) => match spec_meals_from(children[b].children, 0) {
                None => None,
                Some(meals) => if meals.len() == 0 {
                    None
                } else {
                    match spec_groups_from(children, i + 1) {
                        None => None,
                        Some(rest) => Some(
                            seq![MealGroupV { label: children[i].inner, meals }] + rest,
                        ),
                    }
                },
            },
        }
    }
}

fn groups_from(children: &Vec<RawChild>, i: usize) -> (r: Option<Vec<MealGroup>>)
    requires
        i <= children@.len(),
    ensures
        match r {
            Some(v) => spec_groups_from(children.deep_view(), i as int) == Some(v.deep_view())
                && forall|k: int| 0 <= k < v.deep_view().len() ==> (#[trigger] v.deep_view()[k]).wf(),
            None => spec_groups_from(children.deep_view(), i as int) is None,
        },
    decreases children@.len() - i,
{
    if i >= children.len() {
        let v: Vec<MealGroup> = Vec::new();
        proof {
            lemma_deep_view_empty(v);
        }
        return Some(v);
    }
    if !has_class(&children[i], "title-prim") {
        return groups_from(children, i + 1);
    }
    match find_block(children, i + 1) {
        None => None,
        Some(b) => match meals_from(&children[b].children, 0) {
            None => None,
            Some(meals) => {
                if meals.len() == 0 {
                    return None;
                }
                match groups_from(children, i + 1) {
                    None => None,
                    Some(mut rest) => {
                        let g = MealGroup { label: children[i].inner.clone(), meals };
                        let ghost gg = g;
                        let ghost restg = rest;
                        let mut v: Vec<MealGroup> = Vec::new();
                        let ghost v0 = v;
                        v.push(g);
                        let ghost v1 = v;
                        v.append(&mut rest);
                        proof {
                            lemma_deep_view_empty(v0);
                            lemma_deep_view_push(v0, v1, gg);
                            lemma_deep_view_concat(v1, restg, v);
                            assert(v.deep_view() =~= seq![gg@] + restg.deep_view());
                        }
                        Some(v)
                    },
                }
            },
        },
    }
}

/// Given fresh page text and the date that was asked for, the structured
/// menu, or the error that says why there is none: `NoMenuPublished` when
/// the page's date control echoes a different date than requested,
/// `StructuralFault` when an expected landmark of the markup is missing.
pub open spec fn spec_extract(page: Seq<char>, requested: Seq<char>) -> Result<
    DayMenuV,
    MenuError,
> {
    let echoes = date_echoes_of(page);
    if echoes.len() == 0 {
        Err(MenuError::StructuralFault)
    } else {
        match spec_reformat_echo(echoes[0]) {
            None => Err(MenuError::StructuralFault),
            Some(iso) => if iso != requested {
                Err(MenuError::NoMenuPublished)
            } else {
                match menu_children_of(page) {
                    None => Err(MenuError::StructuralFault),
                    Some(children) => match spec_groups_from(children, 0) {
                        None => Err(MenuError::StructuralFault),
                        Some(groups) => Ok(DayMenuV { date: echoes[0], groups }),
                    },
                }
            },
        }
    }
}

/// A readable date echo that differs from the requested date always means
/// `NoMenuPublished`, never a menu: the source confirmed it has nothing for
/// that day and silently substituted another, and the caller must stop, not
/// retry with the substituted date.
pub proof fn lemma_mismatched_echo_yields_no_menu(page: Seq<char>, requested: Seq<char>)
    requires
        date_echoes_of(page).len() > 0,
        spec_reformat_echo(date_echoes_of(page)[0]) is Some,
        spec_reformat_echo(date_echoes_of(page)[0]).unwrap() != requested,
    ensures
        spec_extract(page, requested) == Err::<DayMenuV, MenuError>(MenuError::NoMenuPublished),
{
}

/// Extracts the structured menu from raw page text, for a request that asked
/// for the date `requested_iso` (as `YYYY-MM-DD`).
///
/// A mismatch between that date and the one the page echoes means the source
/// has no menu for the requested day and substituted another: that is
/// `NoMenuPublished`, to be handled by stopping, not by retrying. A missing
/// landmark is a `StructuralFault`. The result is exactly what
/// `spec_extract` reads from the page text, and it is well-formed.
pub fn extract_menu(page: &str, requested_iso: &str) -> (r: Result<DayMenu, MenuError>)
    ensures
        match r {
            Ok(m) => spec_extract(page@, requested_iso@) == Ok::<DayMenuV, MenuError>(m@)
                && m@.wf(),
            Err(e) => spec_extract(page@, requested_iso@) == Err::<DayMenuV, MenuError>(e),
        },
{
    let echoes = date_echoes(page);
    if echoes.len() == 0 {
        return Err(MenuError::StructuralFault);
    }
    let ev = chars_of(echoes[0].as_str());
    let iso_chars = match reformat_echo(&ev) {
        None => {
            return Err(MenuError::StructuralFault);
        },
        Some(v) => v,
    };
    let iso = string_of(&iso_chars);
    if !crate::text::str_eq(iso.as_str(), requested_iso) {
        return Err(MenuError::NoMenuPublished);
    }
    let children = match menu_children(page) {
        None => {
            return Err(MenuError::StructuralFault);
        },
        Some(c) => c,
    };
    match groups_from(&children, 0) {
        None => Err(MenuError::StructuralFault),
        Some(groups) => {
            let date = echoes[0].clone();
            Ok(DayMenu { date, groups })
        },
    }
}

/// Without a line break past `start`, and with either `start` at the text's
/// head or a break just before it, the last line is the suffix from `start`.
proof fn lemma_after_last_newline_suffix(s: Seq<char>, start: int)
    requires
        0 <= start <= s.len(),
        forall|j: int| start <= j < s.len() ==> s[j] != '\n',
        start == 0 || s[start - 1] == '\n',
    ensures
        spec_after_last_newline(s) == s.skip(start),
    decreases s.len(),
{
    if s.len() == 0 {
        assert(spec_after_last_newline(s) =~= s.skip(start));
    } else if s[s.len() - 1] == '\n' {
        assert(start == s.len());
        assert(spec_after_last_newline(s) =~= s.skip(start));
    } else {
        assert(start < s.len());
        lemma_after_last_newline_suffix(s.take(s.len() - 1), start);
        assert(s.take(s.len() - 1).skip(start) =~= s.skip(start).take(s.skip(start).len() - 1));
        assert(spec_after_last_newline(s) =~= s.skip(start).take(s.skip(start).len() - 1).push(
            s[s.len() - 1],
        ));
        assert(s.skip(start).take(s.skip(start).len() - 1).push(s[s.len() - 1]) =~= s.skip(start));
    }
}

} // verus!
