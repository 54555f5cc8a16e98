use unicafe_menu::model::{Menu, MenuList, Price, PriceOptions};
use unicafe_menu::render::{format_food_and_price, format_message};

fn item(name: &str, student: &str) -> Menu {
    Menu {
        price: Price {
            name: String::from("price"),
            value: PriceOptions {
                student: String::from(student),
                normal: String::from("5.00"),
            },
        },
        name: String::from(name),
    }
}

#[test]
fn render_empty_menu_is_ei_ruokaa() {
    let menu = MenuList { data: Vec::new(), date: String::from("01.03.") };
    assert_eq!(format_message(&menu), "Ei ruokaa");
}

#[test]
fn render_opening_hours_line() {
    let menu = MenuList {
        data: vec![item("RAVINTOLA AVOINNA ma-pe 10-14", "2.80")],
        date: String::from("01.03."),
    };
    let out = format_message(&menu);
    assert!(out.contains("Aukioloajat: 10\\-14"));
    assert!(!out.contains("\u{20ac}"));
}

#[test]
fn render_food_line_escapes_prices() {
    let menu = MenuList {
        data: vec![item("Kasvispasta", "2.80")],
        date: String::from("01.03."),
    };
    assert_eq!(format_message(&menu), "Kasvispasta, 2\\.80\u{20ac}\n");
}

#[test]
fn render_unescaped_line_shape() {
    let line = format_food_and_price(&item("Kasvispasta", "2.80"));
    assert_eq!(line, "Kasvispasta, 2.80\u{20ac}\n");
}

#[test]
fn render_opening_hours_unescaped_line_shape() {
    let line = format_food_and_price(&item("RAVINTOLA AVOINNA ma-pe 10-14", "2.80"));
    assert_eq!(line, "Aukioloajat: 10-14\n\n");
}

#[test]
fn render_opening_hours_splits_on_unicode_whitespace() {
    let line = format_food_and_price(&item("RAVINTOLA AVOINNA ma-pe\u{00A0}10-14", "2.80"));
    assert_eq!(line, "Aukioloajat: 10-14\n\n");
}

#[test]
fn render_concatenates_items_in_order() {
    let menu = MenuList {
        data: vec![
            item("RAVINTOLA AVOINNA ma-pe 10-14", "0"),
            item("Kasvispasta", "2.80"),
            item("Lohikeitto", "2.80"),
        ],
        date: String::from("01.03."),
    };
    assert_eq!(
        format_message(&menu),
        "Aukioloajat: 10\\-14\n\nKasvispasta, 2\\.80\u{20ac}\nLohikeitto, 2\\.80\u{20ac}\n"
    );
}
