//! All dishes of a set of menus, one per meal id: where two dishes share an id,
//! the later one stands.

use crate::dish::Dish;
use crate::menu::Menu;
use vstd::prelude::*;

verus! {

/// The dishes of all menus, menu after menu.
pub open spec fn all_dishes(menus: Seq<Menu>) -> Seq<Dish>
    decreases menus.len(),
{
    if menus.len() == 0 {
        Seq::empty()
    } else {
        all_dishes(menus.drop_last()) + menus.last().dishes@
    }
}

/// No dish after the `i`-th has its id.
pub open spec fn is_last_of_id(f: Seq<Dish>, i: int) -> bool {
    forall|j: int| i < j < f.len() ==> (#[trigger] f[j]).id@ != f[i].id@
}

/// `d` stands in `f` as the last dish of its id.
pub open spec fn is_last_in(f: Seq<Dish>, d: Dish) -> bool {
    exists|i: int| 0 <= i < f.len() && #[trigger] f[i] == d && is_last_of_id(f, i)
}

/// Some dish of `r` has the id `id`.
pub open spec fn has_id(r: Seq<Dish>, id: Seq<char>) -> bool {
    exists|k: int| 0 <= k < r.len() && (#[trigger] r[k]).id@ == id
}

/// No two dishes of `r` share an id.
#[verifier::opaque]
pub open spec fn ids_distinct(r: Seq<Dish>) -> bool {
    forall|a: int, b: int| 0 <= a < b < r.len() ==> (#[trigger] r[a]).id@ != (#[trigger] r[b]).id@
}

/// Each dish of `r` is the last of its id in `f`.
#[verifier::opaque]
pub open spec fn keeps_lasts(f: Seq<Dish>, r: Seq<Dish>) -> bool {
    forall|k: int| 0 <= k < r.len() ==> is_last_in(f, #[trigger] r[k])
}

/// Each id of `f` is the id of a dish of `r`.
#[verifier::opaque]
pub open spec fn covers_ids(f: Seq<Dish>, r: Seq<Dish>) -> bool {
    forall|i: int| 0 <= i < f.len() ==> has_id(r, (#[trigger] f[i]).id@)
}

/// `r` holds one dish per id of `f`: the last of that id.
pub open spec fn is_dish_index(f: Seq<Dish>, r: Seq<Dish>) -> bool {
    &&& ids_distinct(r)
    &&& keeps_lasts(f, r)
    &&& covers_ids(f, r)
}

proof fn lemma_last_of_id_push(s: Seq<Dish>, d: Dish, i: int)
    requires
        0 <= i < s.len(),
    ensures
        is_last_of_id(s.push(d), i) == (is_last_of_id(s, i) && d.id@ != s[i].id@),
{
    let t = s.push(d);
    assert(t[s.len() as int] == d);
    assert(t[i] == s[i]);
    if is_last_of_id(s, i) && d.id@ != s[i].id@ {
        assert forall|j: int| i < j < t.len() implies (#[trigger] t[j]).id@ != t[i].id@ by {
            if j < s.len() {
                assert(t[j] == s[j]);
            }
        }
    } else if !is_last_of_id(s, i) {
        let j = choose|j: int| i < j < s.len() && (#[trigger] s[j]).id@ == s[i].id@;
        assert(t[j] == s[j]);
    }
}

/// A dish whose id the index holds at `q` replaces that entry.
proof fn lemma_index_known_id(s: Seq<Dish>, r: Seq<Dish>, d: Dish, q: int)
    requires
        is_dish_index(s, r),
        0 <= q < r.len(),
        r[q].id@ == d.id@,
    ensures
        is_dish_index(s.push(d), r.update(q, d)),
{
    let t = s.push(d);
    let u = r.update(q, d);
    assert(t[s.len() as int] == d);
    {
        reveal(ids_distinct);
        assert forall|a: int, b: int| 0 <= a < b < u.len() implies (#[trigger] u[a]).id@ != (
        #[trigger] u[b]).id@ by {
            assert(r[a].id@ != r[b].id@);
        }
    }
    {
        reveal(keeps_lasts);
        reveal(ids_distinct);
        assert forall|k: int| 0 <= k < u.len() implies is_last_in(t, #[trigger] u[k]) by {
            if k == q {
                assert(is_last_of_id(t, s.len() as int));
            } else {
                assert(u[k] == r[k]);
                assert(is_last_in(s, r[k]));
                let i = choose|i: int| 0 <= i < s.len() && #[trigger] s[i] == r[k] && is_last_of_id(s, i);
                if k < q {
                    assert(r[k].id@ != r[q].id@);
                } else {
                    assert(r[q].id@ != r[k].id@);
                }
                lemma_last_of_id_push(s, d, i);
                assert(t[i] == s[i]);
            }
        }
    }
    {
        reveal(covers_ids);
        assert forall|i: int| 0 <= i < t.len() implies has_id(u, (#[trigger] t[i]).id@) by {
            if i < s.len() {
                assert(t[i] == s[i]);
                assert(has_id(r, s[i].id@));
                let k = choose|k: int| 0 <= k < r.len() && (#[trigger] r[k]).id@ == s[i].id@;
                assert(u[k].id@ == r[k].id@);
            } else {
                assert(u[q] == d);
            }
        }
    }
}

/// A dish of a new id joins the index at its end.
proof fn lemma_index_new_id(s: Seq<Dish>, r: Seq<Dish>, d: Dish)
    requires
        is_dish_index(s, r),
        forall|q: int| 0 <= q < r.len() ==> (#[trigger] r[q]).id@ != d.id@,
    ensures
        is_dish_index(s.push(d), r.push(d)),
{
    let t = s.push(d);
    let u = r.push(d);
    assert(t[s.len() as int] == d);
    assert(u[r.len() as int] == d);
    {
        reveal(ids_distinct);
        assert forall|a: int, b: int| 0 <= a < b < u.len() implies (#[trigger] u[a]).id@ != (
        #[trigger] u[b]).id@ by {
            assert(u[a] == r[a]);
            if b < r.len() {
                assert(u[b] == r[b]);
            }
        }
    }
    {
        reveal(keeps_lasts);
        assert forall|k: int| 0 <= k < u.len() implies is_last_in(t, #[trigger] u[k]) by {
            if k == r.len() {
                assert(is_last_of_id(t, s.len() as int));
            } else {
                assert(u[k] == r[k]);
                assert(is_last_in(s, r[k]));
                let i = choose|i: int| 0 <= i < s.len() && #[trigger] s[i] == r[k] && is_last_of_id(s, i);
                lemma_last_of_id_push(s, d, i);
                assert(t[i] == s[i]);
            }
        }
    }
    {
        reveal(covers_ids);
        assert forall|i: int| 0 <= i < t.len() implies has_id(u, (#[trigger] t[i]).id@) by {
            if i < s.len() {
                assert(t[i] == s[i]);
                assert(has_id(r, s[i].id@));
                let k = choose|k: int| 0 <= k < r.len() && (#[trigger] r[k]).id@ == s[i].id@;
                assert(u[k] == r[k]);
            } else {
                assert(u[r.len() as int] == d);
            }
        }
    }
}

/// The dishes of all menus, in order.
pub fn flatten(menus: Vec<Menu>) -> (r: Vec<Dish>)
    ensures
        r@ == all_dishes(menus@),
{
    let ghost all = menus@;
    let n: usize = menus.len();
    let mut rest = menus;
    let mut flat: Vec<Dish> = Vec::new();
    let mut k: usize = 0;
    assert(all.take(0) =~= Seq::<Menu>::empty());
    while rest.len() > 0
        invariant
            k + rest@.len() == n,
            all.len() == n,
            rest@ == all.skip(k as int),
            flat@ == all_dishes(all.take(k as int)),
        decreases rest@.len(),
    {
        let mut m = rest.remove(0);
        assert(m == all[k as int]);
        assert(all.take(k as int + 1).drop_last() =~= all.take(k as int));
        flat.append(&mut m.dishes);
        assert(rest@ =~= all.skip(k as int + 1));
        k = k + 1;
    }
    assert(all.take(k as int) =~= all);
    flat
}

/// One dish per id of `dishes`: the last one of that id.
pub fn index_dishes(dishes: Vec<Dish>) -> (r: Vec<Dish>)
    ensures
        is_dish_index(dishes@, r@),
{
    let ghost all = dishes@;
    let n: usize = dishes.len();
    let mut rest = dishes;
    let mut out: Vec<Dish> = Vec::new();
    let mut k: usize = 0;
    assert(all.take(0) =~= Seq::<Dish>::empty());
    proof {
        reveal(ids_distinct);
        reveal(keeps_lasts);
        reveal(covers_ids);
    }
    while rest.len() > 0
        invariant
            k + rest@.len() == n,
            all.len() == n,
            rest@ == all.skip(k as int),
            is_dish_index(all.take(k as int), out@),
        decreases rest@.len(),
    {
        let d = rest.remove(0);
        assert(d == all[k as int]);
        assert(all.take(k as int + 1) =~= all.take(k as int).push(d));
        let mut q: usize = 0;
        while q < out.len() && !(out[q].id == d.id)
            invariant
                q <= out@.len(),
                forall|j: int| 0 <= j < q ==> (#[trigger] out@[j]).id@ != d.id@,
            decreases out@.len() - q,
        {
            q = q + 1;
        }
        if q < out.len() {
            proof {
                lemma_index_known_id(all.take(k as int), out@, d, q as int);
            }
            out[q] = d;
        } else {
            proof {
                lemma_index_new_id(all.take(k as int), out@, d);
            }
            out.push(d);
        }
        assert(rest@ =~= all.skip(k as int + 1));
        k = k + 1;
    }
    assert(all.take(k as int) =~= all);
    out
}

impl Dish {
    /// All dishes of the menus, one per meal id: of the dishes that share an
    /// id, the one that comes last.
    pub fn index(menus: Vec<Menu>) -> (r: Vec<Dish>)
        ensures
            is_dish_index(all_dishes(menus@), r@),
    {
        index_dishes(flatten(menus))
    }

    /// The dish of meal id `id`, the last of that id where several share it;
    /// `None` where no dish of the menus has it.
    pub fn find(menus: Vec<Menu>, id: &str) -> (r: Option<Dish>)
        ensures
            r is None <==> !has_id(all_dishes(menus@), id@),
            r matches Some(d) ==> d.id@ == id@ && is_last_in(all_dishes(menus@), d),
    {
        let ghost f = all_dishes(menus@);
        let mut dishes = Dish::index(menus);
        let wanted = String::from_str(id);
        let mut q: usize = 0;
        while q < dishes.len() && !(dishes[q].id == wanted)
            invariant
                q <= dishes@.len(),
                wanted@ == id@,
                forall|j: int| 0 <= j < q ==> (#[trigger] dishes@[j]).id@ != id@,
            decreases dishes@.len() - q,
        {
            q = q + 1;
        }
        if q < dishes.len() {
            proof {
                reveal(keeps_lasts);
                assert(is_last_in(f, dishes@[q as int]));
                let i = choose|i: int|
                    0 <= i < f.len() && #[trigger] f[i] == dishes@[q as int] && is_last_of_id(f, i);
                assert(f[i].id@ == id@);
            }
            Some(dishes.remove(q))
        } else {
            proof {
                reveal(covers_ids);
                if has_id(f, id@) {
                    let i = choose|i: int| 0 <= i < f.len() && (#[trigger] f[i]).id@ == id@;
                    assert(has_id(dishes@, f[i].id@));
                }
            }
            None
        }
    }
}

} // verus!
