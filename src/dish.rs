//! Dishes: what one list item of a menu panel gives, and the dish built from it.

use vstd::prelude::*;

verus! {

/// The host that serves the menu pages and the dishes' emissions ratings.
pub const MASHIE_HOST: &'static str = "https://sodexo.mashie.com";

/// The address of the emissions rating found at `path` on the menu host.
pub open spec fn rating_url_of(path: Seq<char>) -> Seq<char> {
    MASHIE_HOST@ + path
}

pub fn rating_url(path: &str) -> (r: String)
    ensures
        r@ == rating_url_of(path@),
{
    let mut url = String::from_str(MASHIE_HOST);
    url.append(path);
    url
}

/// What a dish's list item holds, each part absent where the markup lacks it:
/// the meal id, the dish's name, and the path of its emissions rating.
#[derive(Clone, Debug)]
pub struct DishFields {
    pub id: Option<String>,
    pub title: Option<String>,
    pub rating_path: Option<String>,
}

/// What a list item holds, as text values.
pub struct DishFieldsModel {
    pub id: Option<Seq<char>>,
    pub title: Option<Seq<char>>,
    pub rating_path: Option<Seq<char>>,
}

impl View for DishFields {
    type V = DishFieldsModel;

    open spec fn view(&self) -> DishFieldsModel {
        DishFieldsModel {
            id: self.id.deep_view(),
            title: self.title.deep_view(),
            rating_path: self.rating_path.deep_view(),
        }
    }
}

/// A dish served on one day: its name, its meal id, and the address of its
/// emissions rating where the page gives one. A dish without that address is
/// still a dish; its emissions figure is then left unknown. The figure itself,
/// once fetched from the address, is kept by whoever fetched it.
#[derive(Clone, Debug)]
pub struct Dish {
    pub title: String,
    pub id: String,
    pub co2e_url: Option<String>,
}

/// A dish as text values.
pub struct DishModel {
    pub id: Seq<char>,
    pub title: Seq<char>,
    pub co2e_url: Option<Seq<char>>,
}

impl View for Dish {
    type V = DishModel;

    open spec fn view(&self) -> DishModel {
        DishModel { id: self.id@, title: self.title@, co2e_url: self.co2e_url.deep_view() }
    }
}

/// The dish that a list item describes: one with both an id and a name; the
/// rating's address where the item gives its path.
pub open spec fn dish_of_fields(f: DishFieldsModel) -> Option<DishModel> {
    match (f.id, f.title) {
        (Some(id), Some(title)) => Some(
            DishModel {
                id: id,
                title: title,
                co2e_url: match f.rating_path {
                    Some(p) => Some(rating_url_of(p)),
                    None => None,
                },
            },
        ),
        _ => None,
    }
}

pub open spec fn dish_model_of(r: Option<Dish>) -> Option<DishModel> {
    match r {
        Some(d) => Some(d@),
        None => None,
    }
}

impl Dish {
    /// The dish that a list item describes, or `None` where the item has no id
    /// or no name.
    pub fn from_fields(fields: DishFields) -> (r: Option<Dish>)
        ensures
            dish_model_of(r) == dish_of_fields(fields@),
    {
        let DishFields { id, title, rating_path } = fields;
        match (id, title) {
            (Some(id), Some(title)) => {
                let co2e_url = match rating_path {
                    Some(p) => Some(rating_url(p.as_str())),
                    None => None,
                };
                Some(Dish { title, id, co2e_url })
            },
            _ => None,
        }
    }
}

} // verus!
