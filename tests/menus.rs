use lunchbox::calendar::CalendarDate;
use lunchbox::dish::{rating_url, Dish, DishFields};
use lunchbox::menu::Menu;

fn date(year: i32, month: u32, day: u32) -> CalendarDate {
    CalendarDate { year, month, day }
}

fn fields(id: Option<&str>, title: Option<&str>, rating: Option<&str>) -> DishFields {
    DishFields {
        id: id.map(String::from),
        title: title.map(String::from),
        rating_path: rating.map(String::from),
    }
}

fn dish(id: &str, title: &str) -> Dish {
    Dish { title: title.to_string(), id: id.to_string(), co2e_url: None }
}

fn menu(d: CalendarDate, ids: &[&str]) -> Menu {
    Menu { date: d, dishes: ids.iter().map(|i| dish(i, "x")).collect() }
}

#[test]
fn rating_address_is_on_menu_host() {
    assert_eq!(rating_url("/rating/42"), "https://sodexo.mashie.com/rating/42");
}

#[test]
fn dish_needs_id_and_name() {
    let d = Dish::from_fields(fields(Some("m1"), Some("Fisk"), Some("/r/1"))).unwrap();
    assert_eq!(d.id, "m1");
    assert_eq!(d.title, "Fisk");
    assert_eq!(d.co2e_url.as_deref(), Some("https://sodexo.mashie.com/r/1"));
    let plain = Dish::from_fields(fields(Some("m2"), Some("Soppa"), None)).unwrap();
    assert_eq!(plain.co2e_url, None);
    assert!(Dish::from_fields(fields(None, Some("Fisk"), Some("/r/1"))).is_none());
    assert!(Dish::from_fields(fields(Some("m1"), None, Some("/r/1"))).is_none());
}

#[test]
fn panel_without_items_gives_no_menu() {
    assert!(Menu::assemble(Some(date(2024, 5, 2)), vec![]).is_none());
    assert!(Menu::assemble(None, vec![]).is_none());
}

#[test]
fn panel_without_date_gives_no_menu() {
    assert!(Menu::assemble(None, vec![fields(Some("a"), Some("A"), None)]).is_none());
}

#[test]
fn panel_with_only_unusable_items_gives_no_menu() {
    let items = vec![fields(None, Some("A"), None), fields(Some("b"), None, None)];
    assert!(Menu::assemble(Some(date(2024, 5, 2)), items).is_none());
}

#[test]
fn item_without_id_is_left_out() {
    let items = vec![
        fields(Some("a"), Some("A"), None),
        fields(None, Some("B"), Some("/r/b")),
        fields(Some("c"), Some("C"), None),
    ];
    let m = Menu::assemble(Some(date(2024, 5, 2)), items).unwrap();
    let ids: Vec<&str> = m.dishes.iter().map(|d| d.id.as_str()).collect();
    assert_eq!(ids, vec!["a", "c"]);
    assert_eq!(m.date, date(2024, 5, 2));
}

#[test]
fn arrange_sorts_and_keeps_first_of_each_date() {
    let menus = vec![
        menu(date(2024, 5, 3), &["first3"]),
        menu(date(2024, 5, 1), &["first1"]),
        menu(date(2024, 5, 3), &["second3"]),
        menu(date(2024, 5, 2), &["only2"]),
        menu(date(2024, 5, 1), &["second1"]),
    ];
    let r = Menu::arrange(menus);
    assert_eq!(r.len(), 5 - 2);
    let got: Vec<(u32, &str)> = r.iter().map(|m| (m.date.day, m.dishes[0].id.as_str())).collect();
    assert_eq!(got, vec![(1, "first1"), (2, "only2"), (3, "first3")]);
}

#[test]
fn arrange_across_years() {
    let menus = vec![menu(date(2025, 1, 2), &["b"]), menu(date(2024, 12, 30), &["a"])];
    let r = Menu::arrange(menus);
    assert_eq!(r.len(), 2);
    assert_eq!(r[0].date, date(2024, 12, 30));
    assert_eq!(r[1].date, date(2025, 1, 2));
}

#[test]
fn arrange_of_nothing_is_nothing() {
    assert!(Menu::arrange(vec![]).is_empty());
}

#[test]
fn same_date_panels_keep_first_in_order() {
    let menus = vec![menu(date(2024, 5, 6), &["a", "b"]), menu(date(2024, 5, 6), &["c", "d", "e"])];
    let r = Menu::arrange(menus);
    assert_eq!(r.len(), 1);
    assert_eq!(r[0].dishes.len(), 2);
    assert_eq!(r[0].dishes[0].id, "a");
}

#[test]
fn index_keeps_last_dish_of_each_id() {
    let mut early = menu(date(2024, 5, 1), &["a", "b"]);
    early.dishes[0].title = "old".to_string();
    let mut late = menu(date(2024, 5, 2), &["a", "c"]);
    late.dishes[0].title = "new".to_string();
    let r = Dish::index(vec![early, late]);
    assert_eq!(r.len(), 3);
    let a = r.iter().find(|d| d.id == "a").unwrap();
    assert_eq!(a.title, "new");
    assert!(r.iter().any(|d| d.id == "b"));
    assert!(r.iter().any(|d| d.id == "c"));
}

#[test]
fn find_gives_dish_or_nothing() {
    let menus = || vec![menu(date(2024, 5, 1), &["a", "b"]), menu(date(2024, 5, 2), &["c"])];
    assert_eq!(Dish::find(menus(), "c").unwrap().id, "c");
    assert_eq!(Dish::find(menus(), "a").unwrap().id, "a");
    assert!(Dish::find(menus(), "zzz").is_none());
    assert!(Dish::find(vec![], "a").is_none());
}
