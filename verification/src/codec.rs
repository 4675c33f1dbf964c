//! The cache's structured format: a length-prefixed text rendering of a
//! `DayMenu`, chosen for an exact, provable round trip.
//!
//! A string is written as its character count in decimal, a colon, and the
//! characters; a list as its element count in decimal, a semicolon, and the
//! elements in order. A meal is its name, its notes list and its price; a
//! group its label and its meals; a day's menu its date and its groups.
//! Counts are capped at `CODEC_MAX`, and a group must hold at least one
//! meal, so everything read back is well formed.

use vstd::prelude::*;

verus! {

use crate::menu::{DayMenu, DayMenuV, MealGroup, MealGroupV, SingleMeal, SingleMealV};
use crate::text::{
    chars_of,
    is_digit,
    push_char,
    push_decimal,
    spec_decimal,
    spec_digit_char,
    spec_digit_val,
    spec_is_digit,
};

/// No count in the format reaches this bound.
pub const CODEC_MAX: usize = 0x10000000;

/// A string in the format: its length, a colon, its characters.
pub open spec fn spec_ser_str(s: Seq<char>) -> Seq<char> {
    spec_decimal(s.len()) + seq![':'] + s
}

/// How long the leading run of digit characters is.
pub open spec fn spec_digit_run(s: Seq<char>) -> nat
    decreases s.len(),
{
    if s.len() == 0 || !spec_is_digit(s[0]) {
        0
    } else {
        1 + spec_digit_run(s.skip(1))
    }
}

/// The number that a sequence of digit characters denotes.
pub open spec fn spec_digits_val(ds: Seq<char>) -> nat
    decreases ds.len(),
{
    if ds.len() == 0 {
        0
    } else {
        (spec_digits_val(ds.take(ds.len() - 1)) * 10 + spec_digit_val(ds.last())) as nat
    }
}

/// Reading a count: a non-empty run of at most nine digits below
/// `CODEC_MAX`, closed by the expected terminator; the count and what
/// follows the terminator.
pub open spec fn spec_parse_count(s: Seq<char>, term: char) -> Option<(nat, Seq<char>)> {
    let k = spec_digit_run(s);
    if k == 0 || k > 9 {
        None
    } else {
        let val = spec_digits_val(s.take(k as int));
        if val >= CODEC_MAX {
            None
        } else if k < s.len() && s[k as int] == term {
            Some((val, s.skip(k as int + 1)))
        } else {
            None
        }
    }
}

/// Reading a string: its length, a colon, and that many characters.
pub open spec fn spec_parse_str(s: Seq<char>) -> Option<(Seq<char>, Seq<char>)> {
    match spec_parse_count(s, ':') {
        None => None,
        Some((n, rest)) => if rest.len() >= n {
            Some((rest.take(n as int), rest.skip(n as int)))
        } else {
            None
        },
    }
}

/// Every character of a count's rendering is a digit, the rendering is
/// never empty, it denotes the count itself, and below `CODEC_MAX` it takes
/// at most nine digits.
pub proof fn lemma_decimal_digits(n: nat)
    ensures
        1 <= spec_decimal(n).len(),
        forall|i: int|
            0 <= i < spec_decimal(n).len() ==> spec_is_digit(#[trigger] spec_decimal(n)[i]),
        spec_digits_val(spec_decimal(n)) == n,
        n < CODEC_MAX ==> spec_decimal(n).len() <= 9,
    decreases n,
{
    if n < 10 {
        let d = spec_decimal(n);
        assert(d == seq![spec_digit_char(n as int)]);
        assert(d.take(0) =~= Seq::<char>::empty());
        assert(spec_digits_val(Seq::<char>::empty()) == 0);
        assert(d.last() == spec_digit_char(n as int));
        assert(spec_digits_val(d) == (spec_digits_val(d.take(0)) * 10 + spec_digit_val(d.last())));
    } else {
        lemma_decimal_digits(n / 10);
        let d = spec_decimal(n);
        let hd = spec_decimal(n / 10);
        assert(d == hd + seq![spec_digit_char((n % 10) as int)]);
        assert(d.take(d.len() - 1) =~= hd);
        assert(d.last() == spec_digit_char((n % 10) as int));
        assert(spec_digit_val(spec_digit_char((n % 10) as int)) == n % 10);
        assert(spec_digits_val(d) == spec_digits_val(hd) * 10 + n % 10);
        assert((n / 10) * 10 + n % 10 == n) by {
            vstd::arithmetic::div_mod::lemma_fundamental_div_mod(n as int, 10);
        }
        if n < CODEC_MAX {
            lemma_codec_max_bound();
            lemma_decimal_len_bound(n, 9);
        }
    }
}

/// A count below `10^k` takes at most `k` digits.
proof fn lemma_decimal_len_bound(n: nat, k: nat)
    requires
        1 <= k,
        n < vstd::arithmetic::power::pow(10, k),
    ensures
        spec_decimal(n).len() <= k,
    decreases k,
{
    reveal(vstd::arithmetic::power::pow);
    vstd::arithmetic::power::lemma_pow_positive(10, k);
    if n < 10 {
    } else {
        assert(k >= 2) by {
            vstd::arithmetic::power::lemma_pow1(10);
        }
        assert(vstd::arithmetic::power::pow(10, k) == 10 * vstd::arithmetic::power::pow(
            10,
            (k - 1) as nat,
        ));
        assert(n / 10 < vstd::arithmetic::power::pow(10, (k - 1) as nat)) by (nonlinear_arith)
            requires
                n >= 10,
                10 * vstd::arithmetic::power::pow(10, (k - 1) as nat) > n,
                vstd::arithmetic::power::pow(10, (k - 1) as nat) >= 1,
        ;
        lemma_decimal_len_bound(n / 10, (k - 1) as nat);
    }
}

/// `CODEC_MAX` is below ten digits' reach.
proof fn lemma_codec_max_bound()
    ensures
        (CODEC_MAX as nat) < vstd::arithmetic::power::pow(10, 9),
{
    assert(vstd::arithmetic::power::pow(10, 9) == 1000000000) by {
        reveal_with_fuel(vstd::arithmetic::power::pow, 10);
    }
}

/// The digit run of digits followed by a non-digit is exactly those digits.
pub proof fn lemma_digit_run_concat(ds: Seq<char>, tail: Seq<char>)
    requires
        forall|i: int| 0 <= i < ds.len() ==> spec_is_digit(#[trigger] ds[i]),
        tail.len() == 0 || !spec_is_digit(tail[0]),
    ensures
        spec_digit_run(ds + tail) == ds.len(),
    decreases ds.len(),
{
    let w = ds + tail;
    if ds.len() == 0 {
        assert(w =~= tail);
    } else {
        assert(w[0] == ds[0]);
        assert(w.skip(1) =~= ds.skip(1) + tail);
        lemma_digit_run_concat(ds.skip(1), tail);
    }
}

/// Reading back a written count: the count comes out, and what followed the
/// terminator is exactly what was appended after it.
pub proof fn lemma_parse_count_inverse(n: nat, term: char, rest: Seq<char>)
    requires
        n < CODEC_MAX,
        !spec_is_digit(term),
    ensures
        spec_parse_count(spec_decimal(n) + seq![term] + rest, term) == Some((n, rest)),
{
    let d = spec_decimal(n);
    let w = d + seq![term] + rest;
    lemma_decimal_digits(n);
    assert((seq![term] + rest).len() > 0 && !spec_is_digit((seq![term] + rest)[0]));
    assert(w =~= d + (seq![term] + rest));
    lemma_digit_run_concat(d, seq![term] + rest);
    let k = spec_digit_run(w);
    assert(k == d.len());
    assert(1 <= k <= 9);
    assert(w.take(k as int) =~= d);
    assert(spec_digits_val(d) == n);
    assert(w[k as int] == term);
    assert(w.skip(k as int + 1) =~= rest);
}

/// Reading back a written string, with anything appended after it.
pub proof fn lemma_parse_str_inverse(s: Seq<char>, rest: Seq<char>)
    requires
        s.len() < CODEC_MAX,
    ensures
        spec_parse_str(spec_ser_str(s) + rest) == Some((s, rest)),
{
    assert(!spec_is_digit(':'));
    assert(spec_ser_str(s) + rest =~= spec_decimal(s.len()) + seq![':'] + (s + rest));
    lemma_parse_count_inverse(s.len(), ':', s + rest);
    assert((s + rest).take(s.len() as int) =~= s);
    assert((s + rest).skip(s.len() as int) =~= rest);
}

/// A count in the format: its decimal digits and a terminator.
pub open spec fn spec_ser_count(n: nat, term: char) -> Seq<char> {
    spec_decimal(n) + seq![term]
}

/// A list of strings in the format: the elements in order, each a string.
pub open spec fn spec_ser_strs(v: Seq<Seq<char>>) -> Seq<char>
    decreases v.len(),
{
    if v.len() == 0 {
        Seq::empty()
    } else {
        spec_ser_str(v[0]) + spec_ser_strs(v.skip(1))
    }
}

/// A meal in the format: its name, its notes as a counted list, its price.
pub open spec fn spec_ser_meal(m: SingleMealV) -> Seq<char> {
    spec_ser_str(m.name) + spec_ser_count(m.extras.len(), ';') + spec_ser_strs(m.extras)
        + spec_ser_str(m.price)
}

pub open spec fn spec_ser_meals(v: Seq<SingleMealV>) -> Seq<char>
    decreases v.len(),
{
    if v.len() == 0 {
        Seq::empty()
    } else {
        spec_ser_meal(v[0]) + spec_ser_meals(v.skip(1))
    }
}

/// A group in the format: its label and its meals as a counted list.
pub open spec fn spec_ser_group(g: MealGroupV) -> Seq<char> {
    spec_ser_str(g.label) + spec_ser_count(g.meals.len(), ';') + spec_ser_meals(g.meals)
}

pub open spec fn spec_ser_groups(v: Seq<MealGroupV>) -> Seq<char>
    decreases v.len(),
{
    if v.len() == 0 {
        Seq::empty()
    } else {
        spec_ser_group(v[0]) + spec_ser_groups(v.skip(1))
    }
}

/// A day's menu in the format: its date and its groups as a counted list.
pub open spec fn spec_ser_menu(m: DayMenuV) -> Seq<char> {
    spec_ser_str(m.date) + spec_ser_count(m.groups.len(), ';') + spec_ser_groups(m.groups)
}

pub open spec fn spec_parse_strs(s: Seq<char>, count: nat) -> Option<(Seq<Seq<char>>, Seq<char>)>
    decreases count,
{
    if count == 0 {
        Some((Seq::empty(), s))
    } else {
        match spec_parse_str(s) {
            None => None,
            Some((x, r1)) => match spec_parse_strs(r1, (count - 1) as nat) {
                None => None,
                Some((xs, r2)) => Some((seq![x] + xs, r2)),
            },
        }
    }
}

pub open spec fn spec_parse_meal(s: Seq<char>) -> Option<(SingleMealV, Seq<char>)> {
    match spec_parse_str(s) {
        None => None,
        Some((name, r1)) => match spec_parse_count(r1, ';') {
            None => None,
            Some((n, r2)) => match spec_parse_strs(r2, n) {
                None => None,
                Some((extras, r3)) => match spec_parse_str(r3) {
                    None => None,
                    Some((price, r4)) => Some((SingleMealV { name, extras, price }, r4)),
                },
            },
        },
    }
}

pub open spec fn spec_parse_meals(s: Seq<char>, count: nat) -> Option<
    (Seq<SingleMealV>, Seq<char>),
>
    decreases count,
{
    if count == 0 {
        Some((Seq::empty(), s))
    } else {
        match spec_parse_meal(s) {
            None => None,
            Some((x, r1)) => match spec_parse_meals(r1, (count - 1) as nat) {
                None => None,
                Some((xs, r2)) => Some((seq![x] + xs, r2)),
            },
        }
    }
}

/// Reading a group fails on a meal count of zero: an empty group is never a
/// valid record.
pub open spec fn spec_parse_group(s: Seq<char>) -> Option<(MealGroupV, Seq<char>)> {
    match spec_parse_str(s) {
        None => None,
        Some((label, r1)) => match spec_parse_count(r1, ';') {
            None => None,
            Some((n, r2)) => if n == 0 {
                None
            } else {
                match spec_parse_meals(r2, n) {
                    None => None,
                    Some((meals, r3)) => Some((MealGroupV { label, meals }, r3)),
                }
            },
        },
    }
}

pub open spec fn spec_parse_groups(s: Seq<char>, count: nat) -> Option<
    (Seq<MealGroupV>, Seq<char>),
>
    decreases count,
{
    if count == 0 {
        Some((Seq::empty(), s))
    } else {
        match spec_parse_group(s) {
            None => None,
            Some((x, r1)) => match spec_parse_groups(r1, (count - 1) as nat) {
                None => None,
                Some((xs, r2)) => Some((seq![x] + xs, r2)),
            },
        }
    }
}

/// What the structured cache format denotes: a whole menu, with nothing
/// left over.
pub open spec fn spec_parse_menu(s: Seq<char>) -> Option<DayMenuV> {
    match spec_parse_str(s) {
        None => None,
        Some((date, r1)) => match spec_parse_count(r1, ';') {
            None => None,
            Some((n, r2)) => match spec_parse_groups(r2, n) {
                None => None,
                Some((groups, r3)) => if r3.len() == 0 {
                    Some(DayMenuV { date, groups })
                } else {
                    None
                },
            },
        },
    }
}

/// All of a meal's parts are below the format's count bound.
pub open spec fn spec_meal_bounded(m: SingleMealV) -> bool {
    &&& m.name.len() < CODEC_MAX
    &&& m.price.len() < CODEC_MAX
    &&& m.extras.len() < CODEC_MAX
    &&& forall|i: int| 0 <= i < m.extras.len() ==> (#[trigger] m.extras[i]).len() < CODEC_MAX
}

pub open spec fn spec_group_bounded(g: MealGroupV) -> bool {
    &&& g.label.len() < CODEC_MAX
    &&& g.meals.len() < CODEC_MAX
    &&& forall|i: int| 0 <= i < g.meals.len() ==> spec_meal_bounded(#[trigger] g.meals[i])
}

pub open spec fn spec_menu_bounded(m: DayMenuV) -> bool {
    &&& m.date.len() < CODEC_MAX
    &&& m.groups.len() < CODEC_MAX
    &&& forall|i: int| 0 <= i < m.groups.len() ==> spec_group_bounded(#[trigger] m.groups[i])
}

proof fn lemma_parse_strs_inverse(v: Seq<Seq<char>>, rest: Seq<char>)
    requires
        forall|i: int| 0 <= i < v.len() ==> (#[trigger] v[i]).len() < CODEC_MAX,
    ensures
        spec_parse_strs(spec_ser_strs(v) + rest, v.len()) == Some((v, rest)),
    decreases v.len(),
{
    if v.len() == 0 {
        assert(spec_ser_strs(v) + rest =~= rest);
        assert(spec_parse_strs(rest, 0) == Some((Seq::<Seq<char>>::empty(), rest)));
        assert(v =~= Seq::<Seq<char>>::empty());
    } else {
        assert(spec_ser_strs(v) + rest =~= spec_ser_str(v[0]) + (spec_ser_strs(v.skip(1)) + rest));
        lemma_parse_str_inverse(v[0], spec_ser_strs(v.skip(1)) + rest);
        lemma_parse_strs_inverse(v.skip(1), rest);
        assert(seq![v[0]] + v.skip(1) =~= v);
    }
}

#[verifier::rlimit(50)]
proof fn lemma_parse_meal_inverse(m: SingleMealV, rest: Seq<char>)
    requires
        spec_meal_bounded(m),
    ensures
        spec_parse_meal(spec_ser_meal(m) + rest) == Some((m, rest)),
{
    let t3 = spec_ser_str(m.price) + rest;
    let t2 = spec_ser_strs(m.extras) + t3;
    let t1 = spec_ser_count(m.extras.len(), ';') + t2;
    assert(spec_ser_meal(m) + rest =~= spec_ser_str(m.name) + t1);
    lemma_parse_str_inverse(m.name, t1);
    assert(spec_parse_str(spec_ser_meal(m) + rest) == Some((m.name, t1)));
    assert(!spec_is_digit(';'));
    assert(t1 =~= spec_decimal(m.extras.len()) + seq![';'] + t2);
    lemma_parse_count_inverse(m.extras.len(), ';', t2);
    assert(spec_parse_count(t1, ';') == Some((m.extras.len(), t2)));
    lemma_parse_strs_inverse(m.extras, t3);
    assert(spec_parse_strs(t2, m.extras.len()) == Some((m.extras, t3)));
    lemma_parse_str_inverse(m.price, rest);
    assert(spec_parse_str(t3) == Some((m.price, rest)));
    assert(SingleMealV { name: m.name, extras: m.extras, price: m.price } == m);
}

#[verifier::rlimit(50)]
proof fn lemma_parse_meals_inverse(v: Seq<SingleMealV>, rest: Seq<char>)
    requires
        forall|i: int| 0 <= i < v.len() ==> spec_meal_bounded(#[trigger] v[i]),
    ensures
        spec_parse_meals(spec_ser_meals(v) + rest, v.len()) == Some((v, rest)),
    decreases v.len(),
{
    if v.len() == 0 {
        assert(spec_ser_meals(v) + rest =~= rest);
        assert(v =~= Seq::<SingleMealV>::empty());
    } else {
        let tail = spec_ser_meals(v.skip(1)) + rest;
        assert(spec_ser_meals(v) + rest =~= spec_ser_meal(v[0]) + tail);
        lemma_parse_meal_inverse(v[0], tail);
        assert(spec_parse_meal(spec_ser_meals(v) + rest) == Some((v[0], tail)));
        lemma_parse_meals_inverse(v.skip(1), rest);
        assert(spec_parse_meals(tail, (v.len() - 1) as nat) == Some((v.skip(1), rest)));
        assert(seq![v[0]] + v.skip(1) =~= v);
    }
}

proof fn lemma_parse_group_inverse(g: MealGroupV, rest: Seq<char>)
    requires
        spec_group_bounded(g),
        g.wf(),
    ensures
        spec_parse_group(spec_ser_group(g) + rest) == Some((g, rest)),
{
    let t2 = spec_ser_meals(g.meals) + rest;
    let t1 = spec_ser_count(g.meals.len(), ';') + t2;
    assert(spec_ser_group(g) + rest =~= spec_ser_str(g.label) + t1);
    lemma_parse_str_inverse(g.label, t1);
    assert(!spec_is_digit(';'));
    assert(t1 =~= spec_decimal(g.meals.len()) + seq![';'] + t2);
    lemma_parse_count_inverse(g.meals.len(), ';', t2);
    lemma_parse_meals_inverse(g.meals, rest);
}

#[verifier::rlimit(50)]
proof fn lemma_parse_groups_inverse(v: Seq<MealGroupV>, rest: Seq<char>)
    requires
        forall|i: int| 0 <= i < v.len() ==> spec_group_bounded(#[trigger] v[i]),
        forall|i: int| 0 <= i < v.len() ==> (#[trigger] v[i]).wf(),
    ensures
        spec_parse_groups(spec_ser_groups(v) + rest, v.len()) == Some((v, rest)),
    decreases v.len(),
{
    if v.len() == 0 {
        assert(spec_ser_groups(v) + rest =~= rest);
        assert(v =~= Seq::<MealGroupV>::empty());
    } else {
        let tail = spec_ser_groups(v.skip(1)) + rest;
        assert(spec_ser_groups(v) + rest =~= spec_ser_group(v[0]) + tail);
        lemma_parse_group_inverse(v[0], tail);
        assert(spec_parse_group(spec_ser_groups(v) + rest) == Some((v[0], tail)));
        lemma_parse_groups_inverse(v.skip(1), rest);
        assert(spec_parse_groups(tail, (v.len() - 1) as nat) == Some((v.skip(1), rest)));
        assert(seq![v[0]] + v.skip(1) =~= v);
    }
}

/// The round trip of the cache's structured format: a well-formed menu
/// within the format's count bound, written out and read back, is the same
/// menu, field for field.
pub proof fn lemma_codec_round_trip(m: DayMenuV)
    requires
        spec_menu_bounded(m),
        m.wf(),
    ensures
        spec_parse_menu(spec_ser_menu(m)) == Some(m),
{
    let rest = Seq::<char>::empty();
    let t2 = spec_ser_groups(m.groups) + rest;
    let t1 = spec_ser_count(m.groups.len(), ';') + t2;
    assert(spec_ser_menu(m) + rest =~= spec_ser_str(m.date) + t1);
    assert(spec_ser_menu(m) + rest =~= spec_ser_menu(m));
    lemma_parse_str_inverse(m.date, t1);
    assert(!spec_is_digit(';'));
    assert(t1 =~= spec_decimal(m.groups.len()) + seq![';'] + t2);
    lemma_parse_count_inverse(m.groups.len(), ';', t2);
    lemma_parse_groups_inverse(m.groups, rest);
}

fn push_count(s: &mut String, n: usize, term: char)
    ensures
        final(s)@ == old(s)@ + spec_ser_count(n as nat, term),
{
    push_decimal(s, n);
    push_char(s, term);
    proof {
        assert(final(s)@ =~= old(s)@ + spec_ser_count(n as nat, term));
    }
}

fn push_str_item(s: &mut String, x: &str)
    ensures
        final(s)@ == old(s)@ + spec_ser_str(x@),
{
    let n = x.unicode_len();
    push_count(s, n, ':');
    s.append(x);
    proof {
        assert(final(s)@ =~= old(s)@ + spec_ser_str(x@));
    }
}

fn push_meal(s: &mut String, m: &SingleMeal)
    ensures
        final(s)@ == old(s)@ + spec_ser_meal(m@),
{
    push_str_item(s, m.name.as_str());
    push_count(s, m.extras.len(), ';');
    let ghost base = s@;
    let mut i: usize = 0;
    proof {
        assert(m@.extras.skip(0) =~= m@.extras);
    }
    while i < m.extras.len()
        invariant
            i <= m.extras@.len(),
            m@.extras.len() == m.extras@.len(),
            s@ + spec_ser_strs(m@.extras.skip(i as int)) == base + spec_ser_strs(m@.extras),
        decreases m.extras@.len() - i,
    {
        proof {
            assert(m@.extras.skip(i as int)[0] == m@.extras[i as int]);
            assert(m@.extras.skip(i as int).skip(1) =~= m@.extras.skip(i + 1));
            assert(m@.extras[i as int] == m.extras@[i as int]@);
        }
        push_str_item(s, m.extras[i].as_str());
        proof {
            assert(s@ + spec_ser_strs(m@.extras.skip(i + 1)) =~= base + spec_ser_strs(m@.extras));
        }
        i = i + 1;
    }
    proof {
        assert(m@.extras.skip(m.extras@.len() as int) =~= Seq::<Seq<char>>::empty());
    }
    push_str_item(s, m.price.as_str());
    proof {
        assert(final(s)@ =~= old(s)@ + spec_ser_meal(m@));
    }
}

fn push_group(s: &mut String, g: &MealGroup)
    ensures
        final(s)@ == old(s)@ + spec_ser_group(g@),
{
    push_str_item(s, g.label.as_str());
    push_count(s, g.meals.len(), ';');
    let ghost base = s@;
    let mut i: usize = 0;
    proof {
        assert(g@.meals.skip(0) =~= g@.meals);
    }
    while i < g.meals.len()
        invariant
            i <= g.meals@.len(),
            g@.meals.len() == g.meals@.len(),
            s@ + spec_ser_meals(g@.meals.skip(i as int)) == base + spec_ser_meals(g@.meals),
        decreases g.meals@.len() - i,
    {
        proof {
            assert(g@.meals.skip(i as int)[0] == g@.meals[i as int]);
            assert(g@.meals.skip(i as int).skip(1) =~= g@.meals.skip(i + 1));
            assert(g@.meals[i as int] == g.meals@[i as int]@);
        }
        push_meal(s, &g.meals[i]);
        proof {
            assert(s@ + spec_ser_meals(g@.meals.skip(i + 1)) =~= base + spec_ser_meals(g@.meals));
        }
        i = i + 1;
    }
    proof {
        assert(g@.meals.skip(g.meals@.len() as int) =~= Seq::<SingleMealV>::empty());
        assert(final(s)@ =~= old(s)@ + spec_ser_group(g@));
    }
}

/// Writes a day's menu in the cache's structured format.
pub fn serialize_day_menu(m: &DayMenu) -> (r: String)
    ensures
        r@ == spec_ser_menu(m@),
{
    let mut s = String::new();
    push_str_item(&mut s, m.date.as_str());
    push_count(&mut s, m.groups.len(), ';');
    let ghost base = s@;
    let mut i: usize = 0;
    proof {
        assert(m@.groups.skip(0) =~= m@.groups);
    }
    while i < m.groups.len()
        invariant
            i <= m.groups@.len(),
            m@.groups.len() == m.groups@.len(),
            s@ + spec_ser_groups(m@.groups.skip(i as int)) == base + spec_ser_groups(m@.groups),
        decreases m.groups@.len() - i,
    {
        proof {
            assert(m@.groups.skip(i as int)[0] == m@.groups[i as int]);
            assert(m@.groups.skip(i as int).skip(1) =~= m@.groups.skip(i + 1));
            assert(m@.groups[i as int] == m.groups@[i as int]@);
        }
        push_group(&mut s, &m.groups[i]);
        proof {
            assert(s@ + spec_ser_groups(m@.groups.skip(i + 1)) =~= base + spec_ser_groups(
                m@.groups,
            ));
        }
        i = i + 1;
    }
    proof {
        assert(m@.groups.skip(m.groups@.len() as int) =~= Seq::<MealGroupV>::empty());
        assert(s@ =~= spec_ser_menu(m@));
    }
    s
}

/// Ten to the `k`th, for the parser's overflow bounds.
spec fn spec_pow10(k: nat) -> nat
    decreases k,
{
    if k == 0 {
        1
    } else {
        10 * spec_pow10((k - 1) as nat)
    }
}

fn parse_count_at(v: &Vec<char>, i: usize, term: char) -> (r: Option<(usize, usize)>)
    requires
        i <= v@.len(),
    ensures
        match r {
            Some((n, j)) => i <= j <= v@.len() && (n as nat) < CODEC_MAX as nat
                && spec_parse_count(v@.skip(i as int), term) == Some((n as nat, v@.skip(j as int))),
            None => spec_parse_count(v@.skip(i as int), term) is None,
        },
{
    let ghost s = v@.skip(i as int);
    let n = v.len();
    let mut k: usize = 0;
    while k < n - i && is_digit(v[i + k])
        invariant
            n == v@.len(),
            i + k <= n,
            s == v@.skip(i as int),
            forall|j: int| 0 <= j < k ==> spec_is_digit(#[trigger] s[j]),
            spec_digit_run(s) == k + spec_digit_run(v@.skip(i + k)),
        decreases n - i - k,
    {
        proof {
            assert(v@.skip(i + k)[0] == v@[i + k]);
            assert(v@.skip(i + k).skip(1) =~= v@.skip(i + k + 1));
            assert(s[k as int] == v@[i + k]);
        }
        k = k + 1;
    }
    proof {
        if i + k == v@.len() {
            assert(v@.skip(i + k) =~= Seq::<char>::empty());
        }
        assert(spec_digit_run(v@.skip(i + k)) == 0);
        assert(spec_digit_run(s) == k);
    }
    if k == 0 || k > 9 {
        return None;
    }
    let mut val: usize = 0;
    let mut j: usize = 0;
    proof {
        assert(s.take(0) =~= Seq::<char>::empty());
        reveal_with_fuel(spec_pow10, 11);
    }
    while j < k
        invariant
            j <= k <= 9,
            i + k <= v@.len(),
            v@.len() <= usize::MAX,
            s == v@.skip(i as int),
            forall|t: int| 0 <= t < k ==> spec_is_digit(#[trigger] s[t]),
            val == spec_digits_val(s.take(j as int)),
            val < spec_pow10(j as nat),
            spec_pow10(9) == 1000000000,
        decreases k - j,
    {
        proof {
            assert(s.take(j + 1).take(j as int) =~= s.take(j as int));
            assert(s.take(j + 1).last() == s[j as int]);
            assert(s[j as int] == v@[i + j]);
            assert(spec_is_digit(s[j as int]));
            assert(spec_pow10((j + 1) as nat) == 10 * spec_pow10(j as nat));
            assert(spec_pow10(j as nat) <= 100000000) by {
                lemma_pow10_monotone(j as nat, 8);
            }
        }
        let c = v[i + j];
        let d: usize = if c == '0' {
            0
        } else if c == '1' {
            1
        } else if c == '2' {
            2
        } else if c == '3' {
            3
        } else if c == '4' {
            4
        } else if c == '5' {
            5
        } else if c == '6' {
            6
        } else if c == '7' {
            7
        } else if c == '8' {
            8
        } else {
            9
        };
        proof {
            assert(d == spec_digit_val(s[j as int]));
        }
        val = val * 10 + d;
        j = j + 1;
    }
    if val >= CODEC_MAX {
        return None;
    }
    if i + k < v.len() && v[i + k] == term {
        proof {
            assert(s.take(k as int) =~= v@.skip(i as int).take(k as int));
            assert(s[k as int] == v@[i + k]);
            assert(v@.skip(i as int).skip(k as int + 1) =~= v@.skip(i + k + 1));
        }
        Some((val, i + k + 1))
    } else {
        proof {
            if i + k >= v@.len() {
                assert(s.len() == v@.len() - i);
            }
        }
        None
    }
}

proof fn lemma_pow10_monotone(a: nat, b: nat)
    requires
        a <= b,
    ensures
        spec_pow10(a) <= spec_pow10(b),
    decreases b,
{
    if a < b {
        lemma_pow10_monotone(a, (b - 1) as nat);
        assert(spec_pow10(b) == 10 * spec_pow10((b - 1) as nat));
    }
}

fn string_range(v: &Vec<char>, from: usize, to: usize) -> (r: String)
    requires
        from <= to <= v@.len(),
    ensures
        r@ == v@.subrange(from as int, to as int),
{
    let mut r = String::new();
    let mut i: usize = from;
    while i < to
        invariant
            from <= i <= to <= v@.len(),
            r@ == v@.subrange(from as int, i as int),
        decreases to - i,
    {
        push_char(&mut r, v[i]);
        proof {
            assert(r@ =~= v@.subrange(from as int, i + 1));
        }
        i = i + 1;
    }
    proof {
        assert(r@ =~= v@.subrange(from as int, to as int));
    }
    r
}

fn parse_str_at(v: &Vec<char>, i: usize) -> (r: Option<(String, usize)>)
    requires
        i <= v@.len(),
    ensures
        match r {
            Some((x, j)) => i <= j <= v@.len() && spec_parse_str(v@.skip(i as int)) == Some(
                (x@, v@.skip(j as int)),
            ),
            None => spec_parse_str(v@.skip(i as int)) is None,
        },
{
    match parse_count_at(v, i, ':') {
        None => None,
        Some((n, j)) => {
            if v.len() - j < n {
                proof {
                    assert(v@.skip(j as int).len() < n);
                }
                return None;
            }
            let x = string_range(v, j, j + n);
            proof {
                assert(v@.skip(j as int).take(n as int) =~= v@.subrange(j as int, j + n));
                assert(v@.skip(j as int).skip(n as int) =~= v@.skip(j + n));
            }
            Some((x, j + n))
        },
    }
}

fn parse_strs_at(v: &Vec<char>, i: usize, count: usize) -> (r: Option<(Vec<String>, usize)>)
    requires
        i <= v@.len(),
    ensures
        match r {
            Some((xs, j)) => i <= j <= v@.len() && spec_parse_strs(
                v@.skip(i as int),
                count as nat,
            ) == Some((xs.deep_view(), v@.skip(j as int))),
            None => spec_parse_strs(v@.skip(i as int), count as nat) is None,
        },
    decreases count,
{
    if count == 0 {
        let xs: Vec<String> = Vec::new();
        proof {
            crate::text::lemma_deep_view_empty(xs);
        }
        return Some((xs, i));
    }
    match parse_str_at(v, i) {
        None => None,
        Some((x, j)) => match parse_strs_at(v, j, count - 1) {
            None => None,
            Some((mut rest, j2)) => {
                let ghost xg = x;
                let ghost restg = rest;
                let mut xs: Vec<String> = Vec::new();
                let ghost xs0 = xs;
                xs.push(x);
                let ghost xs1 = xs;
                xs.append(&mut rest);
                proof {
                    crate::text::lemma_deep_view_empty(xs0);
                    crate::text::lemma_deep_view_push(xs0, xs1, xg);
                    crate::text::lemma_deep_view_concat(xs1, restg, xs);
                    assert(xs.deep_view() =~= seq![xg@] + restg.deep_view());
                }
                Some((xs, j2))
            },
        },
    }
}

fn parse_meal_at(v: &Vec<char>, i: usize) -> (r: Option<(SingleMeal, usize)>)
    requires
        i <= v@.len(),
    ensures
        match r {
            Some((m, j)) => i <= j <= v@.len() && spec_parse_meal(v@.skip(i as int)) == Some(
                (m@, v@.skip(j as int)),
            ),
            None => spec_parse_meal(v@.skip(i as int)) is None,
        },
{
    let (name, j1) = match parse_str_at(v, i) {
        None => {
            return None;
        },
        Some(x) => x,
    };
    let (n, j2) = match parse_count_at(v, j1, ';') {
        None => {
            return None;
        },
        Some(x) => x,
    };
    let (extras, j3) = match parse_strs_at(v, j2, n) {
        None => {
            return None;
        },
        Some(x) => x,
    };
    let (price, j4) = match parse_str_at(v, j3) {
        None => {
            return None;
        },
        Some(x) => x,
    };
    Some((SingleMeal { name, extras, price }, j4))
}

fn parse_meals_at(v: &Vec<char>, i: usize, count: usize) -> (r: Option<(Vec<SingleMeal>, usize)>)
    requires
        i <= v@.len(),
    ensures
        match r {
            Some((xs, j)) => i <= j <= v@.len() && spec_parse_meals(
                v@.skip(i as int),
                count as nat,
            ) == Some((xs.deep_view(), v@.skip(j as int))),
            None => spec_parse_meals(v@.skip(i as int), count as nat) is None,
        },
    decreases count,
{
    if count == 0 {
        let xs: Vec<SingleMeal> = Vec::new();
        proof {
            crate::text::lemma_deep_view_empty(xs);
        }
        return Some((xs, i));
    }
    match parse_meal_at(v, i) {
        None => None,
        Some((x, j)) => match parse_meals_at(v, j, count - 1) {
            None => None,
            Some((mut rest, j2)) => {
                let ghost xg = x;
                let ghost restg = rest;
                let mut xs: Vec<SingleMeal> = Vec::new();
                let ghost xs0 = xs;
                xs.push(x);
                let ghost xs1 = xs;
                xs.append(&mut rest);
                proof {
                    crate::text::lemma_deep_view_empty(xs0);
                    crate::text::lemma_deep_view_push(xs0, xs1, xg);
                    crate::text::lemma_deep_view_concat(xs1, restg, xs);
                    assert(xs.deep_view() =~= seq![xg@] + restg.deep_view());
                }
                Some((xs, j2))
            },
        },
    }
}

fn parse_group_at(v: &Vec<char>, i: usize) -> (r: Option<(MealGroup, usize)>)
    requires
        i <= v@.len(),
    ensures
        match r {
            Some((g, j)) => i <= j <= v@.len() && spec_parse_group(v@.skip(i as int)) == Some(
                (g@, v@.skip(j as int)),
            ),
            None => spec_parse_group(v@.skip(i as int)) is None,
        },
{
    let (label, j1) = match parse_str_at(v, i) {
        None => {
            return None;
        },
        Some(x) => x,
    };
    let (n, j2) = match parse_count_at(v, j1, ';') {
        None => {
            return None;
        },
        Some(x) => x,
    };
    if n == 0 {
        return None;
    }
    let (meals, j3) = match parse_meals_at(v, j2, n) {
        None => {
            return None;
        },
        Some(x) => x,
    };
    Some((MealGroup { label, meals }, j3))
}

fn parse_groups_at(v: &Vec<char>, i: usize, count: usize) -> (r: Option<(Vec<MealGroup>, usize)>)
    requires
        i <= v@.len(),
    ensures
        match r {
            Some((xs, j)) => i <= j <= v@.len() && spec_parse_groups(
                v@.skip(i as int),
                count as nat,
            ) == Some((xs.deep_view(), v@.skip(j as int))),
            None => spec_parse_groups(v@.skip(i as int), count as nat) is None,
        },
    decreases count,
{
    if count == 0 {
        let xs: Vec<MealGroup> = Vec::new();
        proof {
            crate::text::lemma_deep_view_empty(xs);
        }
        return Some((xs, i));
    }
    match parse_group_at(v, i) {
        None => None,
        Some((x, j)) => match parse_groups_at(v, j, count - 1) {
            None => None,
            Some((mut rest, j2)) => {
                let ghost xg = x;
                let ghost restg = rest;
                let mut xs: Vec<MealGroup> = Vec::new();
                let ghost xs0 = xs;
                xs.push(x);
                let ghost xs1 = xs;
                xs.append(&mut rest);
                proof {
                    crate::text::lemma_deep_view_empty(xs0);
                    crate::text::lemma_deep_view_push(xs0, xs1, xg);
                    crate::text::lemma_deep_view_concat(xs1, restg, xs);
                    assert(xs.deep_view() =~= seq![xg@] + restg.deep_view());
                }
                Some((xs, j2))
            },
        },
    }
}

/// Reads a day's menu back from the cache's structured format. What comes
/// back is exactly what the format's text denotes, and it is well formed;
/// text that denotes no menu gives nothing.
pub fn deserialize_day_menu(s: &str) -> (r: Option<DayMenu>)
    ensures
        match r {
            Some(m) => spec_parse_menu(s@) == Some(m@) && m@.wf(),
            None => spec_parse_menu(s@) is None,
        },
{
    let v = chars_of(s);
    proof {
        assert(v@.skip(0) =~= v@);
    }
    let (date, j1) = match parse_str_at(&v, 0) {
        None => {
            return None;
        },
        Some(x) => x,
    };
    let (n, j2) = match parse_count_at(&v, j1, ';') {
        None => {
            return None;
        },
        Some(x) => x,
    };
    let (groups, j3) = match parse_groups_at(&v, j2, n) {
        None => {
            return None;
        },
        Some(x) => x,
    };
    if j3 != v.len() {
        proof {
            assert(v@.skip(j3 as int).len() > 0);
        }
        return None;
    }
    proof {
        assert(v@.skip(j3 as int).len() == 0);
        lemma_parse_menu_wf(s@);
    }
    Some(DayMenu { date, groups })
}

/// Whatever the structured format denotes is a well-formed menu: every
/// group read back holds at least one meal.
pub proof fn lemma_parse_menu_wf(s: Seq<char>)
    ensures
        spec_parse_menu(s) matches Some(m) ==> m.wf(),
{
    if spec_parse_menu(s) is Some {
        let (date, r1) = spec_parse_str(s).unwrap();
        let (n, r2) = spec_parse_count(r1, ';').unwrap();
        lemma_parse_groups_wf(r2, n);
    }
}

proof fn lemma_parse_groups_wf(s: Seq<char>, count: nat)
    ensures
        spec_parse_groups(s, count) matches Some((gs, r)) ==> forall|i: int|
            0 <= i < gs.len() ==> (#[trigger] gs[i]).wf(),
    decreases count,
{
    if count > 0 && spec_parse_groups(s, count) is Some {
        let (g, r1) = spec_parse_group(s).unwrap();
        lemma_parse_groups_wf(r1, (count - 1) as nat);
        let (gs, r2) = spec_parse_groups(s, count).unwrap();
        let (rest_gs, _) = spec_parse_groups(r1, (count - 1) as nat).unwrap();
        assert(gs == seq![g] + rest_gs);
        assert(g.wf());
        assert forall|i: int| 0 <= i < gs.len() implies (#[trigger] gs[i]).wf() by {
            if i == 0 {
                assert(gs[0] == g);
            } else {
                assert(gs[i] == rest_gs[i - 1]);
            }
        }
    }
}

} // verus!
