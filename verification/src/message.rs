//! The chat message built from a structured menu, in Telegram's MarkdownV2
//! style: the date in italics with a forward-shift marker, each category
//! bold, each dish underlined with its notes and price, and the command
//! footer; the whole text escaped at the end.

use vstd::prelude::*;

verus! {

use vstd::string::StringExecFns;

use crate::menu::{DayMenu, DayMenuV, MealGroup, MealGroupV, SingleMeal, SingleMealV};
use crate::text::{chars_of, push_char, string_of};

/// Bold style: the text between single asterisks.
pub open spec fn spec_md_bold(s: Seq<char>) -> Seq<char> {
    seq!['*'] + s + seq!['*']
}

/// Italic style: the text between single underscores. A text that itself
/// starts and ends with double underscores loses its final underscore and
/// gains an escaped `r` before the closing pair, so that the underscores
/// keep their meaning next to underline markup.
pub open spec fn spec_md_italic(s: Seq<char>) -> Seq<char> {
    if s.len() >= 2 && s[0] == '_' && s[1] == '_' && s[s.len() - 2] == '_' && s[s.len() - 1]
        == '_' {
        seq!['_'] + s.take(s.len() - 1) + seq!['\\', 'r', '_', '_']
    } else {
        seq!['_'] + s + seq!['_']
    }
}

/// Underline style: the text between double underscores, with the same
/// escaped-`r` disambiguation when the text itself borders on underscores.
pub open spec fn spec_md_underline(s: Seq<char>) -> Seq<char> {
    if s.len() >= 1 && s[0] == '_' && s[s.len() - 1] == '_' {
        seq!['_', '_'] + s + seq!['\\', 'r', '_', '_']
    } else {
        seq!['_', '_'] + s + seq!['_', '_']
    }
}

/// Bold markup around the text.
pub fn md_bold(s: &str) -> (r: String)
    ensures
        r@ == spec_md_bold(s@),
{
    let v = chars_of(s);
    let mut out: Vec<char> = Vec::new();
    out.push('*');
    let mut i: usize = 0;
    while i < v.len()
        invariant
            i <= v@.len(),
            out@ == seq!['*'] + v@.subrange(0, i as int),
        decreases v@.len() - i,
    {
        out.push(v[i]);
        proof {
            assert(out@ =~= seq!['*'] + v@.subrange(0, i + 1));
        }
        i = i + 1;
    }
    out.push('*');
    proof {
        assert(out@ =~= spec_md_bold(s@));
    }
    string_of(&out)
}

fn push_range(out: &mut Vec<char>, v: &Vec<char>, from: usize, to: usize)
    requires
        from <= to <= v@.len(),
    ensures
        final(out)@ == old(out)@ + v@.subrange(from as int, to as int),
{
    let mut i: usize = from;
    while i < to
        invariant
            from <= i <= to <= v@.len(),
            out@ == old(out)@ + v@.subrange(from as int, i as int),
        decreases to - i,
    {
        out.push(v[i]);
        proof {
            assert(out@ =~= old(out)@ + v@.subrange(from as int, i + 1));
        }
        i = i + 1;
    }
}

/// Italic markup around the text.
pub fn md_italic(s: &str) -> (r: String)
    ensures
        r@ == spec_md_italic(s@),
{
    let v = chars_of(s);
    let mut out: Vec<char> = Vec::new();
    let n = v.len();
    if n >= 2 && v[0] == '_' && v[1] == '_' && v[n - 2] == '_' && v[n - 1] == '_' {
        out.push('_');
        push_range(&mut out, &v, 0, n - 1);
        out.push('\\');
        out.push('r');
        out.push('_');
        out.push('_');
        proof {
            assert(out@ =~= spec_md_italic(s@));
        }
    } else {
        out.push('_');
        push_range(&mut out, &v, 0, n);
        out.push('_');
        proof {
            assert(v@.subrange(0, n as int) =~= v@);
            assert(out@ =~= spec_md_italic(s@));
        }
    }
    string_of(&out)
}

/// Underline markup around the text.
pub fn md_underline(s: &str) -> (r: String)
    ensures
        r@ == spec_md_underline(s@),
{
    let v = chars_of(s);
    let mut out: Vec<char> = Vec::new();
    let n = v.len();
    out.push('_');
    out.push('_');
    push_range(&mut out, &v, 0, n);
    proof {
        assert(v@.subrange(0, n as int) =~= v@);
    }
    if n >= 1 && v[0] == '_' && v[n - 1] == '_' {
        out.push('\\');
        out.push('r');
        out.push('_');
        out.push('_');
    } else {
        out.push('_');
        out.push('_');
    }
    proof {
        assert(out@ =~= spec_md_underline(s@));
    }
    string_of(&out)
}

/// The characters that MarkdownV2 needs escaped in this message's text.
pub open spec fn spec_needs_escape(c: char) -> bool {
    c == '.' || c == '!' || c == '+' || c == '-' || c == '<' || c == '>' || c == '(' || c == ')'
        || c == '='
}

/// Each special character preceded by a backslash.
pub open spec fn spec_escape_chars(s: Seq<char>) -> Seq<char>
    decreases s.len(),
{
    if s.len() == 0 {
        s
    } else {
        (if spec_needs_escape(s[0]) {
            seq!['\\', s[0]]
        } else {
            seq![s[0]]
        }) + spec_escape_chars(s.skip(1))
    }
}

/// Every HTML `&amp;` entity collapsed back to a plain ampersand, left to
/// right, without overlap.
pub open spec fn spec_collapse_amp(s: Seq<char>) -> Seq<char>
    decreases s.len(),
{
    if s.len() == 0 {
        s
    } else if s.len() >= 5 && s[0] == '&' && s[1] == 'a' && s[2] == 'm' && s[3] == 'p' && s[4]
        == ';' {
        seq!['&'] + spec_collapse_amp(s.skip(5))
    } else {
        seq![s[0]] + spec_collapse_amp(s.skip(1))
    }
}

/// The MarkdownV2 escaping rule: special characters escaped, then `&amp;`
/// entities, which HTML decoding left behind, collapsed to `&`.
pub open spec fn spec_escape_markdown_v2(s: Seq<char>) -> Seq<char> {
    spec_collapse_amp(spec_escape_chars(s))
}

/// Whether every dish of the group shows the same price as its first.
pub open spec fn spec_shared_price(g: MealGroupV) -> bool {
    forall|i: int| 0 <= i < g.meals.len() ==> (#[trigger] g.meals[i]).price == g.meals[0].price
}

/// The note lines of one dish: each ingredient or allergen note on its own
/// line, italic, behind a plus.
pub open spec fn spec_extras_lines(extras: Seq<Seq<char>>) -> Seq<char>
    decreases extras.len(),
{
    if extras.len() == 0 {
        Seq::empty()
    } else {
        "     + "@ + spec_md_italic(extras[0]) + seq!['\n'] + spec_extras_lines(extras.skip(1))
    }
}

/// One dish's lines: the underlined name, its notes, and its own price line
/// when the group's dishes do not share one price.
pub open spec fn spec_meal_lines(m: SingleMealV, shared: bool) -> Seq<char> {
    " • "@ + spec_md_underline(m.name) + seq!['\n'] + spec_extras_lines(m.extras) + (if !shared {
        "   "@ + m.price + seq!['\n']
    } else {
        Seq::empty()
    })
}

pub open spec fn spec_meals_lines(meals: Seq<SingleMealV>, shared: bool) -> Seq<char>
    decreases meals.len(),
{
    if meals.len() == 0 {
        Seq::empty()
    } else {
        spec_meal_lines(meals[0], shared) + spec_meals_lines(meals.skip(1), shared)
    }
}

/// One category's lines: a blank line, the bold label, the dishes, and one
/// shared price line when every dish carries the same price.
pub open spec fn spec_group_lines(g: MealGroupV) -> Seq<char> {
    let shared = spec_shared_price(g);
    seq!['\n'] + spec_md_bold(g.label) + seq!['\n'] + spec_meals_lines(g.meals, shared) + (
    if shared {
        "   "@ + g.meals[0].price + seq!['\n']
    } else {
        Seq::empty()
    })
}

pub open spec fn spec_groups_lines(groups: Seq<MealGroupV>) -> Seq<char>
    decreases groups.len(),
{
    if groups.len() == 0 {
        Seq::empty()
    } else {
        spec_group_lines(groups[0]) + spec_groups_lines(groups.skip(1))
    }
}

/// The forward-shift marker: when a request for today silently resolved
/// into the future, the message says into which day.
pub open spec fn spec_shift_note(mode: int, shifted_by: int) -> Seq<char> {
    if mode == 0 && shifted_by == 1 {
        "(Morgen)"@
    } else if mode == 0 && shifted_by == 2 {
        "(Übermorgen)"@
    } else {
        Seq::empty()
    }
}

/// The date line: the published date in italics, the shift marker, and a
/// line break.
pub open spec fn spec_header_line(date: Seq<char>, mode: int, shifted_by: int) -> Seq<char> {
    spec_md_italic(date) + seq![' '] + spec_shift_note(mode, shifted_by) + seq!['\n']
}

pub open spec fn spec_footer() -> Seq<char> {
    "\n < /heute >  < /morgen >\n < /uebermorgen >"@
}

/// The whole message before escaping.
pub open spec fn spec_raw_message(m: DayMenuV, mode: int, shifted_by: int) -> Seq<char> {
    spec_header_line(m.date, mode, shifted_by) + spec_groups_lines(m.groups) + spec_footer()
}

/// The finished chat message: the raw message, escaped for MarkdownV2.
pub open spec fn spec_chat_message(m: DayMenuV, mode: int, shifted_by: int) -> Seq<char> {
    spec_escape_markdown_v2(spec_raw_message(m, mode, shifted_by))
}

/// Whether the group's dishes all display the price of the first.
pub fn shared_price(g: &MealGroup) -> (r: bool)
    requires
        g@.wf(),
    ensures
        r == spec_shared_price(g@),
{
    let mut i: usize = 1;
    while i < g.meals.len()
        invariant
            1 <= i,
            g@.wf(),
            forall|j: int| 0 <= j < i && j < g@.meals.len() ==> (#[trigger] g@.meals[j]).price
                == g@.meals[0].price,
        decreases g.meals@.len() - i,
    {
        if !crate::text::str_eq(g.meals[i].price.as_str(), g.meals[0].price.as_str()) {
            proof {
                assert(g@.meals[i as int].price != g@.meals[0].price);
            }
            return false;
        }
        i = i + 1;
    }
    true
}

fn append_meal_lines(msg: &mut String, m: &SingleMeal, shared: bool)
    ensures
        final(msg)@ == old(msg)@ + spec_meal_lines(m@, shared),
{
    msg.append(" • ");
    let u = md_underline(m.name.as_str());
    msg.append(u.as_str());
    push_char(msg, '\n');
    let ghost base = msg@;
    let mut i: usize = 0;
    proof {
        assert(m@.extras.skip(0) =~= m@.extras);
    }
    while i < m.extras.len()
        invariant
            i <= m.extras@.len(),
            m@.extras.len() == m.extras@.len(),
            msg@ + spec_extras_lines(m@.extras.skip(i as int)) == base + spec_extras_lines(
                m@.extras,
            ),
        decreases m.extras@.len() - i,
    {
        proof {
            assert(m@.extras.skip(i as int)[0] == m@.extras[i as int]);
            assert(m@.extras.skip(i as int).skip(1) =~= m@.extras.skip(i + 1));
            assert(m@.extras[i as int] == m.extras@[i as int]@);
        }
        msg.append("     + ");
        let it = md_italic(m.extras[i].as_str());
        msg.append(it.as_str());
        push_char(msg, '\n');
        proof {
            assert(msg@ + spec_extras_lines(m@.extras.skip(i + 1)) =~= base + spec_extras_lines(
                m@.extras,
            ));
        }
        i = i + 1;
    }
    proof {
        assert(m@.extras.skip(m.extras@.len() as int) =~= Seq::<Seq<char>>::empty());
    }
    if !shared {
        msg.append("   ");
        msg.append(m.price.as_str());
        push_char(msg, '\n');
    }
    proof {
        assert(final(msg)@ =~= old(msg)@ + spec_meal_lines(m@, shared));
    }
}

fn append_group_lines(msg: &mut String, g: &MealGroup)
    requires
        g@.wf(),
    ensures
        final(msg)@ == old(msg)@ + spec_group_lines(g@),
{
    let shared = shared_price(g);
    push_char(msg, '\n');
    let b = md_bold(g.label.as_str());
    msg.append(b.as_str());
    push_char(msg, '\n');
    let ghost base = msg@;
    let mut i: usize = 0;
    proof {
        assert(g@.meals.skip(0) =~= g@.meals);
    }
    while i < g.meals.len()
        invariant
            i <= g.meals@.len(),
            g@.wf(),
            g@.meals.len() == g.meals@.len(),
            shared == spec_shared_price(g@),
            msg@ + spec_meals_lines(g@.meals.skip(i as int), shared) == base + spec_meals_lines(
                g@.meals,
                shared,
            ),
        decreases g.meals@.len() - i,
    {
        proof {
            assert(g@.meals.skip(i as int)[0] == g@.meals[i as int]);
            assert(g@.meals.skip(i as int).skip(1) =~= g@.meals.skip(i + 1));
            assert(g@.meals[i as int] == g.meals@[i as int]@);
        }
        append_meal_lines(msg, &g.meals[i], shared);
        proof {
            assert(msg@ + spec_meals_lines(g@.meals.skip(i + 1), shared) =~= base
                + spec_meals_lines(g@.meals, shared));
        }
        i = i + 1;
    }
    proof {
        assert(g@.meals.skip(g.meals@.len() as int) =~= Seq::<SingleMealV>::empty());
    }
    if shared {
        msg.append("   ");
        proof {
            assert(g@.meals[0].price == g.meals@[0]@.price);
        }
        msg.append(g.meals[0].price.as_str());
        push_char(&mut *msg, '\n');
    }
    proof {
        assert(final(msg)@ =~= old(msg)@ + spec_group_lines(g@));
    }
}

/// The chat message for one day's menu: the date line with its
/// forward-shift marker, each category in turn, the command footer, and
/// MarkdownV2 escaping over the whole text.
pub fn build_chat_message(menu: &DayMenu, mode: u32, shifted_by: u32) -> (r: String)
    requires
        menu@.wf(),
    ensures
        r@ == spec_chat_message(menu@, mode as int, shifted_by as int),
{
    let mut msg = md_italic(menu.date.as_str());
    push_char(&mut msg, ' ');
    if mode == 0 && shifted_by == 1 {
        msg.append("(Morgen)");
    } else if mode == 0 && shifted_by == 2 {
        msg.append("(Übermorgen)");
    }
    push_char(&mut msg, '\n');
    proof {
        assert(msg@ =~= spec_header_line(menu@.date, mode as int, shifted_by as int));
    }
    let ghost base = msg@;
    let mut i: usize = 0;
    proof {
        assert(menu@.groups.skip(0) =~= menu@.groups);
    }
    while i < menu.groups.len()
        invariant
            i <= menu.groups@.len(),
            menu@.wf(),
            menu@.groups.len() == menu.groups@.len(),
            msg@ + spec_groups_lines(menu@.groups.skip(i as int)) == base + spec_groups_lines(
                menu@.groups,
            ),
        decreases menu.groups@.len() - i,
    {
        proof {
            assert(menu@.groups.skip(i as int)[0] == menu@.groups[i as int]);
            assert(menu@.groups.skip(i as int).skip(1) =~= menu@.groups.skip(i + 1));
            assert(menu@.groups[i as int] == menu.groups@[i as int]@);
        }
        append_group_lines(&mut msg, &menu.groups[i]);
        proof {
            assert(msg@ + spec_groups_lines(menu@.groups.skip(i + 1)) =~= base + spec_groups_lines(
                menu@.groups,
            ));
        }
        i = i + 1;
    }
    proof {
        assert(menu@.groups.skip(menu.groups@.len() as int) =~= Seq::<MealGroupV>::empty());
    }
    msg.append("\n < /heute >  < /morgen >\n < /uebermorgen >");
    proof {
        assert(msg@ =~= spec_raw_message(menu@, mode as int, shifted_by as int));
    }
    escape_markdown_v2(msg.as_str())
}

fn needs_escape(c: char) -> (r: bool)
    ensures
        r == spec_needs_escape(c),
{
    c == '.' || c == '!' || c == '+' || c == '-' || c == '<' || c == '>' || c == '(' || c == ')'
        || c == '='
}

/// Escapes a message for Telegram's MarkdownV2: a backslash before each
/// special character, and stray `&amp;` entities collapsed to `&`.
pub fn escape_markdown_v2(input: &str) -> (r: String)
    ensures
        r@ == spec_escape_markdown_v2(input@),
{
    let v = chars_of(input);
    let mut esc: Vec<char> = Vec::new();
    let mut i: usize = 0;
    proof {
        assert(v@.skip(0) =~= v@);
        assert(esc@ + spec_escape_chars(v@) =~= spec_escape_chars(v@));
    }
    while i < v.len()
        invariant
            i <= v@.len(),
            spec_escape_chars(v@) == esc@ + spec_escape_chars(v@.skip(i as int)),
        decreases v@.len() - i,
    {
        proof {
            assert(v@.skip(i as int)[0] == v@[i as int]);
            assert(v@.skip(i as int).skip(1) =~= v@.skip(i + 1));
        }
        if needs_escape(v[i]) {
            esc.push('\\');
            esc.push(v[i]);
        } else {
            esc.push(v[i]);
        }
        i = i + 1;
    }
    proof {
        assert(v@.skip(v@.len() as int) =~= Seq::<char>::empty());
        assert(esc@ =~= spec_escape_chars(v@));
    }
    let mut res: Vec<char> = Vec::new();
    let mut j: usize = 0;
    proof {
        assert(esc@.skip(0) =~= esc@);
        assert(res@ + spec_collapse_amp(esc@) =~= spec_collapse_amp(esc@));
    }
    while j < esc.len()
        invariant
            j <= esc@.len(),
            spec_collapse_amp(esc@) == res@ + spec_collapse_amp(esc@.skip(j as int)),
        decreases esc@.len() - j,
    {
        proof {
            assert(esc@.skip(j as int)[0] == esc@[j as int]);
            assert(esc@.skip(j as int).skip(1) =~= esc@.skip(j + 1));
        }
        if esc.len() - j >= 5 && esc[j] == '&' && esc[j + 1] == 'a' && esc[j + 2] == 'm' && esc[j
            + 3] == 'p' && esc[j + 4] == ';' {
            proof {
                assert(esc@.skip(j as int).skip(5) =~= esc@.skip(j + 5));
            }
            res.push('&');
            j = j + 5;
        } else {
            res.push(esc[j]);
            j = j + 1;
        }
    }
    proof {
        assert(esc@.skip(esc@.len() as int) =~= Seq::<char>::empty());
        assert(res@ =~= spec_collapse_amp(esc@));
    }
    string_of(&res)
}

} // verus!
