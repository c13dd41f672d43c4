//! Reading the menu page: the selectors that find day panels and dish list
//! items, and the scrape that turns a page into menus and dishes.

use crate::calendar::{CalendarDate, Moment};
use crate::catalog::{all_dishes, has_id, is_dish_index, is_last_in};
use crate::dish::{dish_model_of, dish_of_fields, Dish, DishFields, DishFieldsModel};
use crate::heading::{normalize_date, normalized, words_of};
use crate::menu::{
    duplicate_count, field_models, is_arrangement, lemma_arranged_from, menu_model_of, menu_of, Menu, MenuModel,
};
use scraper::{ElementRef, Html, Selector};
use vstd::prelude::*;

verus! {

#[verifier::external_type_specification]
#[verifier::external_body]
pub struct ExHtml(scraper::Html);

#[verifier::external_type_specification]
#[verifier::external_body]
pub struct ExSelector(scraper::Selector);

#[verifier::external_type_specification]
#[verifier::external_body]
pub struct ExElementRef<'a>(scraper::ElementRef<'a>);

/// What `scraper::Selector::parse` gives for a selector text.
pub uninterp spec fn compiled(css: Seq<char>) -> Option<Selector>;

/// What `scraper::Html::parse_document` gives for a page's text.
pub uninterp spec fn document_of(html: Seq<char>) -> Html;

/// What `scraper::Html::select` yields for a document and a selector.
pub uninterp spec fn matches_in(doc: &Html, sel: Selector) -> Seq<ElementRef>;

/// What `scraper::ElementRef::select` yields for an element and a selector.
pub uninterp spec fn matches_within(el: ElementRef, sel: Selector) -> Seq<ElementRef>;

/// What `scraper::ElementRef::inner_html` gives for an element. With scraper's
/// `deterministic` feature, which this crate enables, an element keeps its
/// attributes in the order of the markup, so the serialised text depends on
/// the element alone.
pub uninterp spec fn inner_html_of(el: ElementRef) -> Seq<char>;

/// What `scraper::node::Element::attr` gives for an element and an attribute name.
pub uninterp spec fn attribute_of(el: ElementRef, name: Seq<char>) -> Option<Seq<char>>;

/// Relies on scraper::Selector::parse: the compiled selector, or `None` where
/// the text is not a selector; the result depends on the text alone.
#[verifier::external_body]
fn compile(css: &str) -> (r: Option<Selector>)
    ensures
        r == compiled(css@),
{
    Selector::parse(css).ok()
}

/// Relies on scraper::Html::parse_document: markup of any shape gives a
/// document, repaired where it is malformed; it depends on the text alone.
#[verifier::external_body]
pub(crate) fn parse_document(html: &str) -> (r: Html)
    ensures
        r == document_of(html@),
{
    Html::parse_document(html)
}

/// Relies on scraper::Html::select: the elements of the document that match,
/// in the order in which the parser created their nodes.
#[verifier::external_body]
pub(crate) fn select_in_document<'a>(doc: &'a Html, sel: &Selector) -> (r: Vec<ElementRef<'a>>)
    ensures
        r@ == matches_in(doc, *sel),
{
    doc.select(sel).collect()
}

/// Relies on scraper::ElementRef::select: the elements under `el` that match,
/// in the order of a traversal of its subtree.
#[verifier::external_body]
fn select_within<'a>(el: &ElementRef<'a>, sel: &Selector) -> (r: Vec<ElementRef<'a>>)
    ensures
        r@ == matches_within(*el, *sel),
{
    el.select(sel).collect()
}

/// Relies on scraper::ElementRef::inner_html: the markup inside the element,
/// its attributes written in the order of the markup (scraper's
/// `deterministic` feature).
#[verifier::external_body]
fn inner_html(el: &ElementRef) -> (r: String)
    ensures
        r@ == inner_html_of(*el),
{
    el.inner_html()
}

/// Relies on scraper::node::Element::attr: the value of the attribute `name`
/// where the element has it.
#[verifier::external_body]
fn attribute(el: &ElementRef, name: &str) -> (r: Option<String>)
    ensures
        r.deep_view() == attribute_of(*el, name@),
{
    el.value().attr(name).map(String::from)
}

/// The day panels of the menu page.
pub const PANEL_SELECTOR: &'static str = "#app-page .panel";

/// A panel's "day month" heading.
pub const DATE_SELECTOR: &'static str = ".panel-heading > .pull-right";

/// A panel's dish list items.
pub const DISH_SELECTOR: &'static str = ".list-group > .list-group-item";

/// A dish's name.
pub const DISH_NAME_SELECTOR: &'static str = ".app-daymenu-name";

/// The icon that carries a dish's meal id.
pub const DISH_ICON_SELECTOR: &'static str = ".icon-left";

/// The element that carries the path of a dish's emissions rating.
pub const DISH_RATING_SELECTOR: &'static str = ".modal .modal-content .modal-body  .well";

/// The attribute of the icon that holds the meal id.
pub const MEAL_ID_ATTRIBUTE: &'static str = "js-meal-id";

/// The attribute that holds the path of the emissions rating.
pub const RATING_ATTRIBUTE: &'static str = "js-load-rating";

/// A study set's title.
pub const SET_TITLE_SELECTOR: &'static str = ".UIHeading--one";

/// A study set's description.
pub const SET_DESCRIPTION_SELECTOR: &'static str = ".SetPageHeader-description";

/// The heading that gives a study set's number of terms.
pub const SET_TERM_COUNT_SELECTOR: &'static str = ".UIHeading.UIHeading--four";

/// A study set's author.
pub const SET_AUTHOR_SELECTOR: &'static str = ".UserLink-username";

/// The compiled selectors of the pages that this library reads, made once.
pub struct Selectors {
    pub panel: Selector,
    pub date: Selector,
    pub dish: Selector,
    pub dish_name: Selector,
    pub dish_icon: Selector,
    pub dish_rating: Selector,
    pub set_title: Selector,
    pub set_description: Selector,
    pub set_term_count: Selector,
    pub set_author: Selector,
}

impl Selectors {
    /// The selectors as their texts compile.
    pub open spec fn compiled_from_texts(self) -> bool {
        &&& Some(self.panel) == compiled(PANEL_SELECTOR@)
        &&& Some(self.date) == compiled(DATE_SELECTOR@)
        &&& Some(self.dish) == compiled(DISH_SELECTOR@)
        &&& Some(self.dish_name) == compiled(DISH_NAME_SELECTOR@)
        &&& Some(self.dish_icon) == compiled(DISH_ICON_SELECTOR@)
        &&& Some(self.dish_rating) == compiled(DISH_RATING_SELECTOR@)
        &&& Some(self.set_title) == compiled(SET_TITLE_SELECTOR@)
        &&& Some(self.set_description) == compiled(SET_DESCRIPTION_SELECTOR@)
        &&& Some(self.set_term_count) == compiled(SET_TERM_COUNT_SELECTOR@)
        &&& Some(self.set_author) == compiled(SET_AUTHOR_SELECTOR@)
    }

    /// All selectors compiled, or `None` where one of them does not compile.
    pub fn new() -> (r: Option<Selectors>)
        ensures
            r is Some <==> {
                &&& compiled(PANEL_SELECTOR@) is Some
                &&& compiled(DATE_SELECTOR@) is Some
                &&& compiled(DISH_SELECTOR@) is Some
                &&& compiled(DISH_NAME_SELECTOR@) is Some
                &&& compiled(DISH_ICON_SELECTOR@) is Some
                &&& compiled(DISH_RATING_SELECTOR@) is Some
                &&& compiled(SET_TITLE_SELECTOR@) is Some
                &&& compiled(SET_DESCRIPTION_SELECTOR@) is Some
                &&& compiled(SET_TERM_COUNT_SELECTOR@) is Some
                &&& compiled(SET_AUTHOR_SELECTOR@) is Some
            },
            r matches Some(rules) ==> rules.compiled_from_texts(),
    {
        let panel = compile(PANEL_SELECTOR)?;
        let date = compile(DATE_SELECTOR)?;
        let dish = compile(DISH_SELECTOR)?;
        let dish_name = compile(DISH_NAME_SELECTOR)?;
        let dish_icon = compile(DISH_ICON_SELECTOR)?;
        let dish_rating = compile(DISH_RATING_SELECTOR)?;
        let set_title = compile(SET_TITLE_SELECTOR)?;
        let set_description = compile(SET_DESCRIPTION_SELECTOR)?;
        let set_term_count = compile(SET_TERM_COUNT_SELECTOR)?;
        let set_author = compile(SET_AUTHOR_SELECTOR)?;
        Some(
            Selectors {
                panel,
                date,
                dish,
                dish_name,
                dish_icon,
                dish_rating,
                set_title,
                set_description,
                set_term_count,
                set_author,
            },
        )
    }
}

/// The markup inside the first of `found`, where there is one.
pub open spec fn first_html(found: Seq<ElementRef>) -> Option<Seq<char>> {
    if found.len() > 0 {
        Some(inner_html_of(found[0]))
    } else {
        None
    }
}

/// The attribute `name` of the first of `found`, where there is one.
pub open spec fn first_attr(found: Seq<ElementRef>, name: Seq<char>) -> Option<Seq<char>> {
    if found.len() > 0 {
        attribute_of(found[0], name)
    } else {
        None
    }
}

/// What the list item `item` holds.
pub open spec fn item_fields(rules: Selectors, item: ElementRef) -> DishFieldsModel {
    DishFieldsModel {
        id: first_attr(matches_within(item, rules.dish_icon), MEAL_ID_ATTRIBUTE@),
        title: first_html(matches_within(item, rules.dish_name)),
        rating_path: first_attr(matches_within(item, rules.dish_rating), RATING_ATTRIBUTE@),
    }
}

/// The date that the heading of `panel` gives at `now`; `None` where the
/// panel has no heading.
pub open spec fn panel_date(rules: Selectors, panel: ElementRef, now: Moment) -> Option<CalendarDate> {
    match first_html(matches_within(panel, rules.date)) {
        Some(text) => normalized(words_of(text), now),
        None => None,
    }
}

/// What the list items of `panel` hold, in the order of a traversal of the
/// panel.
pub open spec fn panel_items(rules: Selectors, panel: ElementRef) -> Seq<DishFieldsModel> {
    matches_within(panel, rules.dish).map_values(|item| item_fields(rules, item))
}

/// The menu of `panel`, where it gives one.
pub open spec fn panel_menu(rules: Selectors, panel: ElementRef, now: Moment) -> Option<MenuModel> {
    menu_of(panel_date(rules, panel, now), panel_items(rules, panel))
}

/// The menus that `panels` give, in order.
pub open spec fn menus_of_panels(rules: Selectors, panels: Seq<ElementRef>, now: Moment) -> Seq<MenuModel>
    decreases panels.len(),
{
    if panels.len() == 0 {
        Seq::empty()
    } else {
        let rest = menus_of_panels(rules, panels.drop_last(), now);
        match panel_menu(rules, panels.last(), now) {
            Some(m) => rest.push(m),
            None => rest,
        }
    }
}

/// The menus of a page's day panels, in the order in which the parser created
/// the panels' nodes.
pub open spec fn page_menus(rules: Selectors, html: Seq<char>, now: Moment) -> Seq<MenuModel> {
    menus_of_panels(rules, matches_in(&document_of(html), rules.panel), now)
}

pub open spec fn menu_models(v: Seq<Menu>) -> Seq<MenuModel> {
    v.map_values(|m: Menu| m@)
}

/// The markup inside the first element under `el` that `sel` matches.
pub(crate) fn first_inner_html(el: &ElementRef, sel: &Selector) -> (r: Option<String>)
    ensures
        r.deep_view() == first_html(matches_within(*el, *sel)),
{
    let found = select_within(el, sel);
    if found.len() > 0 {
        Some(inner_html(&found[0]))
    } else {
        None
    }
}

/// The markup inside the first element of the document that `sel` matches.
pub(crate) fn first_inner_html_of_document(doc: &Html, sel: &Selector) -> (r: Option<String>)
    ensures
        r.deep_view() == first_html(matches_in(doc, *sel)),
{
    let found = select_in_document(doc, sel);
    if found.len() > 0 {
        Some(inner_html(&found[0]))
    } else {
        None
    }
}

/// The attribute `name` of the first element under `el` that `sel` matches.
fn first_attribute(el: &ElementRef, sel: &Selector, name: &str) -> (r: Option<String>)
    ensures
        r.deep_view() == first_attr(matches_within(*el, *sel), name@),
{
    let found = select_within(el, sel);
    if found.len() > 0 {
        attribute(&found[0], name)
    } else {
        None
    }
}

impl DishFields {
    /// What a dish's list item holds: the meal id on its icon, its name, and
    /// the rating path in its detail dialog.
    pub fn read(rules: &Selectors, item: &ElementRef) -> (r: DishFields)
        ensures
            r@ == item_fields(*rules, *item),
    {
        DishFields {
            id: first_attribute(item, &rules.dish_icon, MEAL_ID_ATTRIBUTE),
            title: first_inner_html(item, &rules.dish_name),
            rating_path: first_attribute(item, &rules.dish_rating, RATING_ATTRIBUTE),
        }
    }
}

impl Dish {
    /// The dish of a list item; `None` where the item lacks an id or a name.
    pub fn from_element(rules: &Selectors, element: &ElementRef) -> (r: Option<Dish>)
        ensures
            dish_model_of(r) == dish_of_fields(item_fields(*rules, *element)),
    {
        Dish::from_fields(DishFields::read(rules, element))
    }

    /// All dishes of a menu page, one per meal id: where ids repeat, the dish
    /// of the latest day.
    pub fn fetch_all(rules: &Selectors, html: &str, now: &Moment) -> (r: Vec<Dish>)
        ensures
            exists|panels: Seq<Menu>, menus: Seq<Menu>|
                {
                    &&& #[trigger] menu_models(panels) == page_menus(*rules, html@, *now)
                    &&& is_arrangement(panels, menus)
                    &&& is_dish_index(#[trigger] all_dishes(menus), r@)
                },
    {
        let menus = Menu::scrape(rules, html, now);
        let ghost arranged = menus@;
        let ghost panels = choose|panels: Seq<Menu>|
            #[trigger] menu_models(panels) == page_menus(*rules, html@, *now) && is_arrangement(
                panels,
                arranged,
            );
        let r = Dish::index(menus);
        assert(is_dish_index(all_dishes(arranged), r@));
        r
    }

    /// The dish of meal id `id` on a menu page; `None` where the page has no
    /// dish of that id.
    pub fn fetch(rules: &Selectors, html: &str, now: &Moment, id: &str) -> (r: Option<Dish>)
        ensures
            exists|panels: Seq<Menu>, menus: Seq<Menu>|
                {
                    &&& #[trigger] menu_models(panels) == page_menus(*rules, html@, *now)
                    &&& is_arrangement(panels, menus)
                    &&& r is None <==> !has_id(#[trigger] all_dishes(menus), id@)
                    &&& r matches Some(d) ==> d.id@ == id@ && is_last_in(all_dishes(menus), d)
                },
    {
        let menus = Menu::scrape(rules, html, now);
        let ghost arranged = menus@;
        let ghost panels = choose|panels: Seq<Menu>|
            #[trigger] menu_models(panels) == page_menus(*rules, html@, *now) && is_arrangement(
                panels,
                arranged,
            );
        let r = Dish::find(menus, id);
        assert(r is None <==> !has_id(all_dishes(arranged), id@));
        r
    }
}

proof fn lemma_menus_of_panels_step(rules: Selectors, panels: Seq<ElementRef>, now: Moment, k: int)
    requires
        0 <= k < panels.len(),
    ensures
        menus_of_panels(rules, panels.take(k + 1), now) == match panel_menu(rules, panels[k], now) {
            Some(m) => menus_of_panels(rules, panels.take(k), now).push(m),
            None => menus_of_panels(rules, panels.take(k), now),
        },
{
    assert(panels.take(k + 1).drop_last() =~= panels.take(k));
}

impl Menu {
    /// The menu of a day panel: `None` where its heading gives no date or none
    /// of its list items is a dish.
    pub fn from_element(rules: &Selectors, element: &ElementRef, now: &Moment) -> (r: Option<
        Menu,
    >)
        ensures
            menu_model_of(r) == panel_menu(*rules, *element, *now),
            r matches Some(m) ==> m.dishes@.len() > 0 && m.date.wf(),
    {
        let date: Option<CalendarDate> = match first_inner_html(element, &rules.date) {
            Some(text) => normalize_date(text.as_str(), now),
            None => None,
        };
        let found = select_within(element, &rules.dish);
        let mut items: Vec<DishFields> = Vec::new();
        let mut i: usize = 0;
        while i < found.len()
            invariant
                i <= found@.len(),
                found@ == matches_within(*element, rules.dish),
                field_models(items@) =~= panel_items(*rules, *element).take(i as int),
            decreases found@.len() - i,
        {
            let f = DishFields::read(rules, &found[i]);
            let ghost before = items@;
            items.push(f);
            assert(field_models(items@) =~= field_models(before).push(f@));
            i = i + 1;
        }
        assert(panel_items(*rules, *element).take(i as int) =~= panel_items(*rules, *element));
        Menu::assemble(date, items)
    }

    /// The menus of a menu page, sorted by date, one per date: of the panels
    /// of one date, the first in the order of `page_menus`. As many menus as
    /// panel menus, less those whose date an earlier one already has.
    pub fn scrape(rules: &Selectors, html: &str, now: &Moment) -> (r: Vec<Menu>)
        ensures
            exists|panels: Seq<Menu>|
                {
                    &&& #[trigger] menu_models(panels) == page_menus(*rules, html@, *now)
                    &&& is_arrangement(panels, r@)
                    &&& r@.len() + duplicate_count(panels) == panels.len()
                },
            forall|k: int|
                0 <= k < r@.len() ==> (#[trigger] r@[k]).dishes@.len() > 0 && r@[k].date.wf(),
    {
        let document = parse_document(html);
        let panels = select_in_document(&document, &rules.panel);
        let mut menus: Vec<Menu> = Vec::new();
        let mut i: usize = 0;
        while i < panels.len()
            invariant
                i <= panels@.len(),
                panels@ == matches_in(&document_of(html@), rules.panel),
                menu_models(menus@) == menus_of_panels(*rules, panels@.take(i as int), *now),
                forall|k: int|
                    0 <= k < menus@.len() ==> (#[trigger] menus@[k]).dishes@.len() > 0
                        && menus@[k].date.wf(),
            decreases panels@.len() - i,
        {
            proof {
                lemma_menus_of_panels_step(*rules, panels@, *now, i as int);
            }
            match Menu::from_element(rules, &panels[i], now) {
                Some(m) => {
                    let ghost before = menus@;
                    let ghost mm = m@;
                    menus.push(m);
                    assert(menu_models(menus@) =~= menu_models(before).push(mm));
                },
                None => {},
            }
            i = i + 1;
        }
        assert(panels@.take(i as int) =~= panels@);
        let ghost before = menus@;
        let arranged = Menu::arrange(menus);
        proof {
            assert forall|k: int| 0 <= k < arranged@.len() implies (#[trigger] arranged@[k]).dishes@.len()
                > 0 && arranged@[k].date.wf() by {
                lemma_arranged_from(before, arranged@, k);
            }
            assert(menu_models(before) == page_menus(*rules, html@, *now));
            assert(is_arrangement(before, arranged@));
            assert(arranged@.len() + duplicate_count(before) == before.len());
        }
        arranged
    }
}

} // verus!
