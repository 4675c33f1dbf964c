//! The structured menu records and the error kinds of the pipeline.

use vstd::prelude::*;

verus! {

use crate::text::{lemma_deep_view_empty, lemma_deep_view_push};

/// One dish: its name, any additional ingredient or allergen notes in the
/// order the page presented them, and its displayed price line, verbatim.
#[derive(Debug, PartialEq)]
pub struct SingleMeal {
    pub name: String,
    pub extras: Vec<String>,
    pub price: String,
}

/// The mathematical value of a `SingleMeal`.
#[verifier::ext_equal]
pub struct SingleMealV {
    pub name: Seq<char>,
    pub extras: Seq<Seq<char>>,
    pub price: Seq<char>,
}

impl View for SingleMeal {
    type V = SingleMealV;

    open spec fn view(&self) -> SingleMealV {
        SingleMealV { name: self.name@, extras: self.extras.deep_view(), price: self.price@ }
    }
}

impl DeepView for SingleMeal {
    type V = SingleMealV;

    open spec fn deep_view(&self) -> SingleMealV {
        self.view()
    }
}

/// One menu category: its label as published, and its dishes in
/// presentation order.
#[derive(Debug, PartialEq)]
pub struct MealGroup {
    pub label: String,
    pub meals: Vec<SingleMeal>,
}

/// The mathematical value of a `MealGroup`.
#[verifier::ext_equal]
pub struct MealGroupV {
    pub label: Seq<char>,
    pub meals: Seq<SingleMealV>,
}

impl MealGroupV {
    /// A group holds at least one dish; an empty group marks an extraction
    /// fault, never a valid record.
    pub open spec fn wf(self) -> bool {
        self.meals.len() > 0
    }
}

impl View for MealGroup {
    type V = MealGroupV;

    open spec fn view(&self) -> MealGroupV {
        MealGroupV { label: self.label@, meals: self.meals.deep_view() }
    }
}

impl DeepView for MealGroup {
    type V = MealGroupV;

    open spec fn deep_view(&self) -> MealGroupV {
        self.view()
    }
}

/// The menu of one day: the date as the source published it, and the
/// categories in presentation order.
#[derive(Debug, PartialEq)]
pub struct DayMenu {
    pub date: String,
    pub groups: Vec<MealGroup>,
}

/// The mathematical value of a `DayMenu`.
#[verifier::ext_equal]
pub struct DayMenuV {
    pub date: Seq<char>,
    pub groups: Seq<MealGroupV>,
}

impl DayMenuV {
    /// Every group of a well-formed menu holds at least one dish.
    pub open spec fn wf(self) -> bool {
        forall|i: int| 0 <= i < self.groups.len() ==> (#[trigger] self.groups[i]).wf()
    }
}

impl View for DayMenu {
    type V = DayMenuV;

    open spec fn view(&self) -> DayMenuV {
        DayMenuV { date: self.date@, groups: self.groups.deep_view() }
    }
}

impl DeepView for DayMenu {
    type V = DayMenuV;

    open spec fn deep_view(&self) -> DayMenuV {
        self.view()
    }
}

/// A copy of a meal, equal to the original in value.
pub fn duplicate_meal(m: &SingleMeal) -> (r: SingleMeal)
    ensures
        r@ == m@,
{
    let mut extras: Vec<String> = Vec::new();
    let mut i: usize = 0;
    proof {
        lemma_deep_view_empty(extras);
        assert(extras.deep_view() =~= m.extras.deep_view().subrange(0, 0));
    }
    while i < m.extras.len()
        invariant
            i <= m.extras@.len(),
            extras.deep_view() == m.extras.deep_view().subrange(0, i as int),
        decreases m.extras@.len() - i,
    {
        let ghost pre = extras;
        let c = m.extras[i].clone();
        let ghost cg = c;
        extras.push(c);
        proof {
            lemma_deep_view_push(pre, extras, cg);
            assert(m.extras.deep_view()[i as int] == m.extras@[i as int].deep_view());
            assert(extras.deep_view() =~= m.extras.deep_view().subrange(0, i + 1));
        }
        i = i + 1;
    }
    proof {
        assert(extras.deep_view() =~= m.extras.deep_view());
    }
    SingleMeal { name: m.name.clone(), extras, price: m.price.clone() }
}

/// A copy of a group, equal to the original in value.
pub fn duplicate_group(g: &MealGroup) -> (r: MealGroup)
    ensures
        r@ == g@,
{
    let mut meals: Vec<SingleMeal> = Vec::new();
    let mut i: usize = 0;
    proof {
        lemma_deep_view_empty(meals);
        assert(meals.deep_view() =~= g.meals.deep_view().subrange(0, 0));
    }
    while i < g.meals.len()
        invariant
            i <= g.meals@.len(),
            meals.deep_view() == g.meals.deep_view().subrange(0, i as int),
        decreases g.meals@.len() - i,
    {
        let ghost pre = meals;
        let c = duplicate_meal(&g.meals[i]);
        let ghost cg = c;
        meals.push(c);
        proof {
            lemma_deep_view_push(pre, meals, cg);
            assert(g.meals.deep_view()[i as int] == g.meals@[i as int].deep_view());
            assert(meals.deep_view() =~= g.meals.deep_view().subrange(0, i + 1));
        }
        i = i + 1;
    }
    proof {
        assert(meals.deep_view() =~= g.meals.deep_view());
    }
    MealGroup { label: g.label.clone(), meals }
}

/// A copy of a day's menu, equal to the original in value.
pub fn duplicate_menu(m: &DayMenu) -> (r: DayMenu)
    ensures
        r@ == m@,
{
    let mut groups: Vec<MealGroup> = Vec::new();
    let mut i: usize = 0;
    proof {
        lemma_deep_view_empty(groups);
        assert(groups.deep_view() =~= m.groups.deep_view().subrange(0, 0));
    }
    while i < m.groups.len()
        invariant
            i <= m.groups@.len(),
            groups.deep_view() == m.groups.deep_view().subrange(0, i as int),
        decreases m.groups@.len() - i,
    {
        let ghost pre = groups;
        let c = duplicate_group(&m.groups[i]);
        let ghost cg = c;
        groups.push(c);
        proof {
            lemma_deep_view_push(pre, groups, cg);
            assert(m.groups.deep_view()[i as int] == m.groups@[i as int].deep_view());
            assert(groups.deep_view() =~= m.groups.deep_view().subrange(0, i + 1));
        }
        i = i + 1;
    }
    proof {
        assert(groups.deep_view() =~= m.groups.deep_view());
    }
    DayMenu { date: m.date.clone(), groups }
}

/// Why no menu came out of the pipeline.
///
/// `NoMenuPublished` is the source's own word that it has no plan for the
/// requested date: the page came back with a different date echoed in its
/// date control. `StructuralFault` is a missing or malformed landmark in the
/// page: the markup changed, or a category carried no dishes.
#[derive(Clone, Copy, Debug, PartialEq, Eq, Structural)]
pub enum MenuError {
    NoMenuPublished,
    StructuralFault,
}


} // verus!
