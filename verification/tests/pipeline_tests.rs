use unicafe_menu::codec::encode_catalog;
use unicafe_menu::model::{Menu, MenuData, MenuError, MenuList, Price, PriceOptions, Restaurant};
use unicafe_menu::pipeline::{date_label, get_menu_text, menu_text};

fn restaurant(slug: &str, dates_and_dishes: &[(&str, &[&str])]) -> Restaurant {
    Restaurant {
        id: 1,
        title: String::from(slug),
        slug: String::from(slug),
        permalink: String::new(),
        address: String::new(),
        menu_data: MenuData {
            name: String::from(slug),
            id: 1,
            areacode: 1,
            menus: dates_and_dishes
                .iter()
                .map(|(date, dishes)| MenuList {
                    data: dishes
                        .iter()
                        .map(|n| Menu {
                            price: Price {
                                name: String::from("price"),
                                value: PriceOptions {
                                    student: String::from("2.80"),
                                    normal: String::from("5.00"),
                                },
                            },
                            name: String::from(*n),
                        })
                        .collect(),
                    date: String::from(*date),
                })
                .collect(),
        },
    }
}

#[test]
fn pipeline_renders_todays_menu() {
    let catalog = vec![
        restaurant("kahvila-physicum", &[("02.03.", &["Hernekeitto"])]),
        restaurant("ravintola-exactum", &[("01.03.", &["Vanha"]), ("02.03.", &["Kasvispasta"])]),
    ];
    assert_eq!(
        menu_text(&catalog, "exactum", "02.03."),
        Ok(String::from("Kasvispasta, 2\\.80\u{20ac}\n"))
    );
}

#[test]
fn pipeline_unknown_location() {
    let catalog = vec![restaurant("ravintola-exactum", &[("02.03.", &["Kasvispasta"])])];
    assert_eq!(menu_text(&catalog, "zzz", "02.03."), Err(MenuError::LocationNotFound));
}

#[test]
fn pipeline_no_menu_for_date() {
    let catalog = vec![restaurant("ravintola-exactum", &[("01.03.", &["Kasvispasta"])])];
    assert_eq!(menu_text(&catalog, "exactum", "06.03."), Err(MenuError::MenuNotFound));
}

#[test]
fn pipeline_empty_menu_falls_back() {
    let catalog = vec![restaurant("ravintola-exactum", &[("02.03.", &[])])];
    assert_eq!(menu_text(&catalog, "exactum", "02.03."), Ok(String::from("Ei ruokaa")));
}

#[test]
fn get_menu_text_runs_whole_core() {
    let catalog = vec![
        restaurant("ravintola-exactum", &[("02.03.", &["Kasvispasta"])]),
    ];
    let body = encode_catalog(&catalog);
    assert_eq!(
        get_menu_text(&body, "exactum", "02.03."),
        Ok(String::from("Kasvispasta, 2\\.80\u{20ac}\n"))
    );
    assert_eq!(get_menu_text(&body, "zzz", "02.03."), Err(MenuError::LocationNotFound));
    assert_eq!(get_menu_text("not json", "exactum", "02.03."), Err(MenuError::Fetch));
}

#[test]
fn date_label_zero_pads() {
    assert_eq!(date_label(1, 3), "01.03.");
}

#[test]
fn date_label_two_digit_day_and_month() {
    assert_eq!(date_label(24, 12), "24.12.");
}
