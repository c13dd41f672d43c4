//! Menus: one per day panel, with at least one dish and a resolved date; and
//! the rule that orders them by date and keeps one menu per date.

use crate::calendar::CalendarDate;
use crate::dish::{dish_of_fields, dish_model_of, Dish, DishFields, DishFieldsModel, DishModel};
use vstd::prelude::*;

verus! {

/// The menu of one day.
#[derive(Clone, Debug)]
pub struct Menu {
    pub date: CalendarDate,
    pub dishes: Vec<Dish>,
}

pub struct MenuModel {
    pub date: CalendarDate,
    pub dishes: Seq<DishModel>,
}

pub open spec fn dish_models(v: Seq<Dish>) -> Seq<DishModel> {
    v.map_values(|d: Dish| d@)
}

impl View for Menu {
    type V = MenuModel;

    open spec fn view(&self) -> MenuModel {
        MenuModel { date: self.date, dishes: dish_models(self.dishes@) }
    }
}

/// The dishes that a panel's list items describe, in order: the items without
/// an id or a name give none.
pub open spec fn field_models(v: Seq<DishFields>) -> Seq<DishFieldsModel> {
    v.map_values(|f: DishFields| f@)
}

pub open spec fn dishes_of(items: Seq<DishFieldsModel>) -> Seq<DishModel>
    decreases items.len(),
{
    if items.len() == 0 {
        Seq::empty()
    } else {
        let rest = dishes_of(items.drop_last());
        match dish_of_fields(items.last()) {
            Some(d) => rest.push(d),
            None => rest,
        }
    }
}

/// The menu of a panel: its date where the heading resolved, and its dishes
/// where there is at least one.
pub open spec fn menu_of(date: Option<CalendarDate>, items: Seq<DishFieldsModel>) -> Option<MenuModel> {
    match date {
        Some(d) => if dishes_of(items).len() > 0 {
            Some(MenuModel { date: d, dishes: dishes_of(items) })
        } else {
            None
        },
        None => None,
    }
}

pub open spec fn menu_model_of(r: Option<Menu>) -> Option<MenuModel> {
    match r {
        Some(m) => Some(m@),
        None => None,
    }
}

/// The dates strictly increase along `r`.
#[verifier::opaque]
pub open spec fn sorted_by_date(r: Seq<Menu>) -> bool {
    forall|k: int, l: int|
        0 <= k < l < r.len() ==> (#[trigger] r[k]).date.precedes((#[trigger] r[l]).date)
}

/// Each menu of `r` is, in `s`, the first of its date.
#[verifier::opaque]
pub open spec fn keeps_firsts(s: Seq<Menu>, r: Seq<Menu>) -> bool {
    forall|k: int| 0 <= k < r.len() ==> is_first_in(s, #[trigger] r[k])
}

/// Each date of `s` is the date of some menu of `r`.
#[verifier::opaque]
pub open spec fn covers_dates(s: Seq<Menu>, r: Seq<Menu>) -> bool {
    forall|i: int| 0 <= i < s.len() ==> has_date(r, (#[trigger] s[i]).date)
}

/// `r` holds the menus of `s` sorted by date, one per date: of each date, the
/// first in the order of `s`.
pub open spec fn is_arrangement(s: Seq<Menu>, r: Seq<Menu>) -> bool {
    &&& sorted_by_date(r)
    &&& keeps_firsts(s, r)
    &&& covers_dates(s, r)
}

/// No menu before the `i`-th has its date.
pub open spec fn is_first_of_date(s: Seq<Menu>, i: int) -> bool {
    forall|j: int| 0 <= j < i ==> (#[trigger] s[j]).date != s[i].date
}

/// `m` stands in `s` as the first menu of its date.
pub open spec fn is_first_in(s: Seq<Menu>, m: Menu) -> bool {
    exists|i: int| 0 <= i < s.len() && #[trigger] s[i] == m && is_first_of_date(s, i)
}

/// Some menu of `r` is of date `d`.
pub open spec fn has_date(r: Seq<Menu>, d: CalendarDate) -> bool {
    exists|k: int| 0 <= k < r.len() && (#[trigger] r[k]).date == d
}

/// How many menus have the date of an earlier one.
pub open spec fn duplicate_count(s: Seq<Menu>) -> nat
    decreases s.len(),
{
    if s.len() == 0 {
        0
    } else {
        duplicate_count(s.drop_last()) + if is_first_of_date(s, s.len() - 1) {
            0nat
        } else {
            1nat
        }
    }
}

proof fn lemma_dishes_of_step(items: Seq<DishFieldsModel>, k: int)
    requires
        0 <= k < items.len(),
    ensures
        dishes_of(items.take(k + 1)) == match dish_of_fields(items[k]) {
            Some(d) => dishes_of(items.take(k)).push(d),
            None => dishes_of(items.take(k)),
        },
{
    assert(items.take(k + 1).drop_last() =~= items.take(k));
}

/// A panel without list items gives no menu, whatever its heading.
pub proof fn lemma_no_items_no_menu(date: Option<CalendarDate>, items: Seq<DishFieldsModel>)
    requires
        items.len() == 0,
    ensures
        menu_of(date, items) is None,
{
}

/// A list item without a meal id adds no dish, whatever its neighbours.
pub proof fn lemma_idless_item_excluded(items: Seq<DishFieldsModel>, i: int)
    requires
        0 <= i < items.len(),
        items[i].id is None,
    ensures
        dishes_of(items) == dishes_of(items.remove(i)),
    decreases items.len(),
{
    if i == items.len() - 1 {
        assert(items.remove(i) =~= items.drop_last());
    } else {
        let rest = items.remove(i);
        assert(rest.drop_last() =~= items.drop_last().remove(i));
        assert(rest.last() == items.last());
        lemma_idless_item_excluded(items.drop_last(), i);
    }
}

/// Each menu of an arrangement is one of the menus arranged.
pub proof fn lemma_arranged_from(s: Seq<Menu>, r: Seq<Menu>, k: int)
    requires
        is_arrangement(s, r),
        0 <= k < r.len(),
    ensures
        exists|i: int| 0 <= i < s.len() && s[i] == r[k],
{
    reveal(keeps_firsts);
    assert(is_first_in(s, r[k]));
}

proof fn lemma_duplicate_count_push(s: Seq<Menu>, m: Menu)
    ensures
        duplicate_count(s.push(m)) == duplicate_count(s) + if is_first_of_date(s.push(m), s.len() as int) {
            0nat
        } else {
            1nat
        },
{
    assert(s.push(m).drop_last() =~= s);
}

proof fn lemma_first_of_date_push(s: Seq<Menu>, m: Menu, i: int)
    requires
        0 <= i < s.len(),
    ensures
        is_first_of_date(s.push(m), i) == is_first_of_date(s, i),
{
    let t = s.push(m);
    if is_first_of_date(s, i) {
        assert forall|j: int| 0 <= j < i implies (#[trigger] t[j]).date != t[i].date by {
            assert(t[j] == s[j]);
        }
    } else {
        let j = choose|j: int| 0 <= j < i && (#[trigger] s[j]).date == s[i].date;
        assert(t[j] == s[j]);
    }
}

/// A menu whose date is already among the arranged ones changes nothing.
proof fn lemma_arrange_known_date(s: Seq<Menu>, r: Seq<Menu>, m: Menu, p: int)
    requires
        is_arrangement(s, r),
        0 <= p < r.len(),
        r[p].date == m.date,
    ensures
        is_arrangement(s.push(m), r),
        !is_first_of_date(s.push(m), s.len() as int),
{
    let t = s.push(m);
    assert(keeps_firsts(t, r)) by {
        reveal(keeps_firsts);
        assert forall|k: int| 0 <= k < r.len() implies is_first_in(t, #[trigger] r[k]) by {
            let i = choose|i: int| 0 <= i < s.len() && s[i] == r[k] && is_first_of_date(s, i);
            lemma_first_of_date_push(s, m, i);
            assert(t[i] == s[i]);
        }
    }
    assert(covers_dates(t, r)) by {
        reveal(covers_dates);
        assert forall|i: int| 0 <= i < t.len() implies has_date(r, (#[trigger] t[i]).date) by {
            if i < s.len() {
                assert(t[i] == s[i]);
            } else {
                assert(r[p].date == t[i].date);
            }
        }
    }
    assert(!is_first_of_date(t, s.len() as int)) by {
        reveal(keeps_firsts);
        let i = choose|i: int| 0 <= i < s.len() && s[i] == r[p] && is_first_of_date(s, i);
        assert(t[i] == s[i]);
        assert(t[s.len() as int] == m);
    }
}

/// A menu of a new date goes where the order of dates puts it.
proof fn lemma_arrange_new_date(s: Seq<Menu>, r: Seq<Menu>, m: Menu, p: int)
    requires
        is_arrangement(s, r),
        0 <= p <= r.len(),
        forall|j: int| 0 <= j < p ==> (#[trigger] r[j]).date.precedes(m.date),
        forall|j: int| p <= j < r.len() ==> m.date.precedes((#[trigger] r[j]).date),
    ensures
        is_arrangement(s.push(m), r.insert(p, m)),
        is_first_of_date(s.push(m), s.len() as int),
{
    let t = s.push(m);
    let u = r.insert(p, m);
    assert(is_first_of_date(t, s.len() as int)) by {
        reveal(covers_dates);
        assert forall|j: int| 0 <= j < s.len() implies (#[trigger] t[j]).date != t[s.len() as int].date by {
            assert(t[j] == s[j]);
            let k = choose|k: int| 0 <= k < r.len() && r[k].date == s[j].date;
            if k < p {
                assert(r[k].date.precedes(m.date));
            } else {
                assert(m.date.precedes(r[k].date));
            }
        }
    }
    assert(sorted_by_date(u)) by {
        reveal(sorted_by_date);
        assert forall|k: int, l: int| 0 <= k < l < u.len() implies (#[trigger] u[k]).date.precedes(
            (#[trigger] u[l]).date) by {
            if l < p {
                assert(u[k] == r[k] && u[l] == r[l]);
            } else if l == p {
                assert(u[k] == r[k]);
            } else if k < p {
                assert(u[k] == r[k] && u[l] == r[l - 1]);
                assert(r[k].date.precedes(m.date));
                assert(m.date.precedes(r[l - 1].date));
            } else if k == p {
                assert(u[l] == r[l - 1]);
            } else {
                assert(u[k] == r[k - 1] && u[l] == r[l - 1]);
            }
        }
    }
    {
        reveal(keeps_firsts);
        assert forall|k: int| 0 <= k < u.len() implies is_first_in(t, #[trigger] u[k]) by {
            if k == p {
                assert(u[k] == m);
                assert(t[s.len() as int] == m);
                assert(is_first_of_date(t, s.len() as int));
                assert(is_first_in(t, u[k]));
            } else {
                let kk = if k < p { k } else { k - 1 };
                assert(u[k] == r[kk]);
                let i = choose|i: int| 0 <= i < s.len() && s[i] == r[kk] && is_first_of_date(s, i);
                lemma_first_of_date_push(s, m, i);
                assert(t[i] == s[i]);
                assert(is_first_in(t, u[k]));
            }
        }
        assert(keeps_firsts(t, u));
    }
    {
        reveal(covers_dates);
        assert forall|i: int| 0 <= i < t.len() implies has_date(u, (#[trigger] t[i]).date) by {
            if i < s.len() {
                assert(t[i] == s[i]);
                let k = choose|k: int| 0 <= k < r.len() && r[k].date == s[i].date;
                if k < p {
                    assert(u[k] == r[k]);
                    assert(has_date(u, t[i].date));
                } else {
                    assert(u[k + 1] == r[k]);
                    assert(has_date(u, t[i].date));
                }
            } else {
                assert(u[p] == m);
                assert(t[i] == m);
                assert(u[p].date == t[i].date);
                assert(has_date(u, t[i].date));
            }
        }
    }
}

impl Menu {
    /// The menu of a panel whose heading gave `date` and whose list items are
    /// `items`: `None` where the date did not resolve or no item is a dish.
    pub fn assemble(date: Option<CalendarDate>, items: Vec<DishFields>) -> (r: Option<Menu>)
        ensures
            menu_model_of(r) == menu_of(date, field_models(items@)),
    {
        let ghost all = items@;
        let ghost models = field_models(items@);
        let n: usize = items.len();
        let mut rest = items;
        let mut dishes: Vec<Dish> = Vec::new();
        let mut k: usize = 0;
        while rest.len() > 0
            invariant
                k + rest@.len() == all.len(),
                all.len() == n,
                rest@ == all.skip(k as int),
                models == field_models(all),
                dish_models(dishes@) == dishes_of(models.take(k as int)),
            decreases rest@.len(),
        {
            let f = rest.remove(0);
            assert(f == all[k as int]);
            proof {
                lemma_dishes_of_step(models, k as int);
                assert(models[k as int] == f@);
            }
            let made = Dish::from_fields(f);
            match made {
                Some(d) => {
                    let ghost before = dishes@;
                    let ghost dm = d@;
                    dishes.push(d);
                    assert(dish_models(dishes@) =~= dish_models(before).push(dm));
                },
                None => {},
            }
            assert(rest@ =~= all.skip(k as int + 1));
            k = k + 1;
        }
        assert(models.take(k as int) =~= models);
        match date {
            Some(d) => if dishes.len() > 0 {
                Some(Menu { date: d, dishes })
            } else {
                None
            },
            None => None,
        }
    }
    /// Sorts menus by date and keeps, of the menus of one date, the first in
    /// the given order.
    pub fn arrange(menus: Vec<Menu>) -> (r: Vec<Menu>)
        ensures
            is_arrangement(menus@, r@),
            r@.len() + duplicate_count(menus@) == menus@.len(),
    {
        let ghost all = menus@;
        let n: usize = menus.len();
        let mut rest = menus;
        let mut out: Vec<Menu> = Vec::new();
        let mut k: usize = 0;
        assert(all.take(0) =~= Seq::<Menu>::empty());
        proof {
            reveal(sorted_by_date);
            reveal(keeps_firsts);
            reveal(covers_dates);
        }
        while rest.len() > 0
            invariant
                k + rest@.len() == n,
                all.len() == n,
                rest@ == all.skip(k as int),
                is_arrangement(all.take(k as int), out@),
                out@.len() + duplicate_count(all.take(k as int)) == k,
            decreases rest@.len(),
        {
            let m = rest.remove(0);
            assert(m == all[k as int]);
            assert(all.take(k as int + 1) =~= all.take(k as int).push(m));
            proof {
                lemma_duplicate_count_push(all.take(k as int), m);
            }
            let mut p: usize = 0;
            while p < out.len() && out[p].date.is_before(&m.date)
                invariant
                    p <= out@.len(),
                    forall|j: int| 0 <= j < p ==> (#[trigger] out@[j]).date.precedes(m.date),
                decreases out@.len() - p,
            {
                p = p + 1;
            }
            if p < out.len() && out[p].date == m.date {
                proof {
                    lemma_arrange_known_date(all.take(k as int), out@, m, p as int);
                }
            } else {
                proof {
                    let r = out@;
                    reveal(sorted_by_date);
                    assert forall|j: int| p <= j < r.len() implies m.date.precedes(
                        (#[trigger] r[j]).date) by {
                        assert(m.date.precedes(r[p as int].date));
                        if j > p {
                            assert(r[p as int].date.precedes(r[j].date));
                        }
                    }
                    lemma_arrange_new_date(all.take(k as int), out@, m, p as int);
                }
                out.insert(p, m);
            }
            assert(rest@ =~= all.skip(k as int + 1));
            k = k + 1;
        }
        assert(all.take(k as int) =~= all);
        out
    }
}

} // verus!
