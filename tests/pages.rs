use lunchbox::calendar::{CalendarDate, Moment};
use lunchbox::dish::Dish;
use lunchbox::menu::Menu;
use lunchbox::page::Selectors;
use lunchbox::quizlet::{leading_number, StudySet};
use lunchbox::search::SearchResult;

fn now() -> Moment {
    Moment { date: CalendarDate { year: 2024, month: 1, day: 10 }, second: 36000, nanosecond: 0 }
}

fn item(id: Option<&str>, name: &str, rating: Option<&str>) -> String {
    let icon = match id {
        Some(i) => format!("<i class=\"icon-left\" js-meal-id=\"{}\"></i>", i),
        None => "<i class=\"icon-left\"></i>".to_string(),
    };
    let modal = match rating {
        Some(r) => format!(
            "<div class=\"modal\"><div class=\"modal-content\"><div class=\"modal-body\"><div class=\"well\" js-load-rating=\"{}\"></div></div></div></div>",
            r
        ),
        None => String::new(),
    };
    format!("<li class=\"list-group-item\">{}<span class=\"app-daymenu-name\">{}</span>{}</li>", icon, name, modal)
}

fn panel(heading: &str, items: &[String]) -> String {
    format!(
        "<div class=\"panel\"><div class=\"panel-heading\"><span class=\"pull-right\">{}</span></div><ul class=\"list-group\">{}</ul></div>",
        heading,
        items.concat()
    )
}

fn page(panels: &[String]) -> String {
    format!("<html><body><div id=\"app-page\">{}</div></body></html>", panels.concat())
}

#[test]
fn selectors_compile() {
    assert!(Selectors::new().is_some());
}

#[test]
fn scrape_reads_and_orders_panels() {
    let rules = Selectors::new().unwrap();
    let html = page(&[
        panel("12 jan", &[item(Some("m2"), "Soppa", None)]),
        panel("11 jan", &[item(Some("m1"), "Fisk", Some("/rating/1")), item(Some("m3"), "Gröt", None)]),
    ]);
    let menus = Menu::scrape(&rules, &html, &now());
    assert_eq!(menus.len(), 2);
    assert_eq!(menus[0].date, CalendarDate { year: 2024, month: 1, day: 11 });
    assert_eq!(menus[0].dishes.len(), 2);
    assert_eq!(menus[0].dishes[0].title, "Fisk");
    assert_eq!(menus[0].dishes[0].co2e_url.as_deref(), Some("https://sodexo.mashie.com/rating/1"));
    assert_eq!(menus[1].dishes[0].id, "m2");
}

#[test]
fn past_heading_rolls_into_next_year_on_page() {
    let rules = Selectors::new().unwrap();
    let html = page(&[panel("9 jan", &[item(Some("m1"), "Fisk", None)])]);
    let menus = Menu::scrape(&rules, &html, &now());
    assert_eq!(menus[0].date, CalendarDate { year: 2025, month: 1, day: 9 });
}

#[test]
fn panel_with_no_dish_items_is_dropped() {
    let rules = Selectors::new().unwrap();
    let html = page(&[panel("12 jan", &[]), panel("13 jan", &[item(Some("m1"), "Fisk", None)])]);
    let menus = Menu::scrape(&rules, &html, &now());
    assert_eq!(menus.len(), 1);
    assert_eq!(menus[0].date.day, 13);
}

#[test]
fn panel_with_unreadable_heading_is_dropped() {
    let rules = Selectors::new().unwrap();
    let html = page(&[panel("tisdag", &[item(Some("m1"), "Fisk", None)])]);
    assert!(Menu::scrape(&rules, &html, &now()).is_empty());
}

#[test]
fn dish_item_without_meal_id_is_dropped() {
    let rules = Selectors::new().unwrap();
    let html = page(&[panel(
        "12 jan",
        &[item(Some("m1"), "Fisk", None), item(None, "Okänd", None), item(Some("m3"), "Soppa", None)],
    )]);
    let menus = Menu::scrape(&rules, &html, &now());
    let ids: Vec<&str> = menus[0].dishes.iter().map(|d| d.id.as_str()).collect();
    assert_eq!(ids, vec!["m1", "m3"]);
}

#[test]
fn two_panels_of_one_date_keep_the_first() {
    let rules = Selectors::new().unwrap();
    let html = page(&[
        panel("12 jan", &[item(Some("a"), "A", None), item(Some("b"), "B", None)]),
        panel("12 jan", &[item(Some("c"), "C", None), item(Some("d"), "D", None), item(Some("e"), "E", None)]),
    ]);
    let menus = Menu::scrape(&rules, &html, &now());
    assert_eq!(menus.len(), 1);
    assert_eq!(menus[0].dishes.len(), 2);
    assert_eq!(menus[0].dishes[0].id, "a");
}

#[test]
fn page_without_panels_gives_nothing() {
    let rules = Selectors::new().unwrap();
    assert!(Menu::scrape(&rules, "<html><body><p>stängt</p></body></html>", &now()).is_empty());
    assert!(Menu::scrape(&rules, "<<<not html", &now()).is_empty());
}

#[test]
fn fetch_finds_dish_or_reports_absence() {
    let rules = Selectors::new().unwrap();
    let html = page(&[
        panel("11 jan", &[item(Some("m1"), "Fisk", Some("/rating/1"))]),
        panel("12 jan", &[item(Some("m2"), "Soppa", None)]),
    ]);
    let d = Dish::fetch(&rules, &html, &now(), "m1").unwrap();
    assert_eq!(d.title, "Fisk");
    assert_eq!(d.co2e_url.as_deref(), Some("https://sodexo.mashie.com/rating/1"));
    assert!(Dish::fetch(&rules, &html, &now(), "m9").is_none());
    let all = Dish::fetch_all(&rules, &html, &now());
    assert_eq!(all.len(), 2);
}

#[test]
fn dish_from_element_reads_list_item() {
    let rules = Selectors::new().unwrap();
    let html = page(&[panel("11 jan", &[item(Some("m7"), "Pasta", Some("/r/7"))])]);
    let doc = scraper::Html::parse_document(&html);
    let li = doc.select(&scraper::Selector::parse("li").unwrap()).next().unwrap();
    let d = Dish::from_element(&rules, &li).unwrap();
    assert_eq!(d.id, "m7");
    assert_eq!(d.title, "Pasta");
    let div = doc.select(&scraper::Selector::parse(".panel").unwrap()).next().unwrap();
    let m = Menu::from_element(&rules, &div, &now()).unwrap();
    assert_eq!(m.dishes.len(), 1);
}

#[test]
fn search_result_url_is_on_menu_host() {
    let r = SearchResult { id: "1".into(), title: "Skolan".into(), path: "/public/app/menu/1".into() };
    assert_eq!(r.url(), "https://sodexo.mashie.com/public/app/menu/1");
}

#[test]
fn study_set_url() {
    assert_eq!(StudySet::get_url("123"), "https://quizlet.com/123/bruh");
}

#[test]
fn leading_number_reads_first_digits() {
    assert_eq!(leading_number("42 terms"), Some(42));
    assert_eq!(leading_number("Terms in this set (17)"), Some(17));
    assert_eq!(leading_number("1,234"), Some(1));
    assert_eq!(leading_number("no digits"), None);
    assert_eq!(leading_number(""), None);
    assert_eq!(leading_number("x99999999999"), None);
}

#[test]
fn study_set_from_page() {
    let rules = Selectors::new().unwrap();
    let html = "<html><body><h1 class=\"UIHeading UIHeading--one\">Glosor</h1>\
        <div class=\"SetPageHeader-description\">Vecka 3</div>\
        <h4 class=\"UIHeading UIHeading--four\">Terms in this set (25)</h4>\
        <span class=\"UserLink-username\">lärare</span></body></html>";
    let doc = scraper::Html::parse_document(html);
    let set = StudySet::extract(&rules, &doc, "55".to_string()).unwrap();
    assert_eq!(set.title, "Glosor");
    assert_eq!(set.description, "Vecka 3");
    assert_eq!(set.term_count, 25);
    assert_eq!(set.author, "lärare");
    assert_eq!(set.id, "55");
    let bare = scraper::Html::parse_document("<html><body></body></html>");
    assert!(StudySet::extract(&rules, &bare, "1".to_string()).is_none());
}

#[test]
fn study_set_description_defaults_to_empty() {
    let set = StudySet::assemble(
        "9".to_string(),
        Some("T".to_string()),
        None,
        Some("3 terms".to_string()),
        Some("A".to_string()),
    )
    .unwrap();
    assert_eq!(set.description, "");
    assert_eq!(set.term_count, 3);
    assert!(StudySet::assemble("9".to_string(), Some("T".to_string()), None, Some("none".to_string()), Some("A".to_string())).is_none());
}

#[test]
fn panel_without_heading_element_is_dropped() {
    let rules = Selectors::new().unwrap();
    let headless = "<div class=\"panel\"><ul class=\"list-group\"><li class=\"list-group-item\">\
        <i class=\"icon-left\" js-meal-id=\"m1\"></i><span class=\"app-daymenu-name\">Fisk</span></li></ul></div>";
    let html = page(&[headless.to_string(), panel("13 jan", &[item(Some("m2"), "Soppa", None)])]);
    let menus = Menu::scrape(&rules, &html, &now());
    assert_eq!(menus.len(), 1);
    assert_eq!(menus[0].dishes[0].id, "m2");
}

#[test]
fn heading_words_split_on_unicode_white_space() {
    let rules = Selectors::new().unwrap();
    let html = page(&[panel("14\u{2003}jan", &[item(Some("m1"), "Fisk", None)])]);
    let menus = Menu::scrape(&rules, &html, &now());
    assert_eq!(menus.len(), 1);
    assert_eq!(menus[0].date.day, 14);
}

#[test]
fn dish_name_markup_keeps_attribute_order() {
    let rules = Selectors::new().unwrap();
    let name = "<b class=\"veg\" id=\"d1\" title=\"t\" lang=\"sv\">Fisk</b>";
    let html = page(&[panel("12 jan", &[item(Some("m1"), name, None)])]);
    for _ in 0..8 {
        let menus = Menu::scrape(&rules, &html, &now());
        assert_eq!(menus[0].dishes[0].title, name);
    }
}
