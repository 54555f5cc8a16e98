use unicafe_menu::codec::{decode_catalog, encode_catalog};
use unicafe_menu::model::{Menu, MenuData, MenuError, MenuList, Price, PriceOptions, Restaurant};

fn sample_restaurant(id: i32, slug: &str, names: &[&str]) -> Restaurant {
    Restaurant {
        id,
        title: format!("Unicafe {}", slug),
        slug: String::from(slug),
        permalink: format!("https://example.invalid/{}", slug),
        address: String::from("Katu 1, Helsinki"),
        menu_data: MenuData {
            name: String::from(slug),
            id,
            areacode: -7,
            menus: vec![MenuList {
                data: names
                    .iter()
                    .map(|n| Menu {
                        price: Price {
                            name: String::from("price"),
                            value: PriceOptions {
                                student: String::from("2.80"),
                                normal: String::from("5.00"),
                            },
                        },
                        name: String::from(*n),
                    })
                    .collect(),
                date: String::from("01.03."),
            }],
        },
    }
}

#[test]
fn codec_round_trip_reproduces_catalog() {
    let catalog = vec![
        sample_restaurant(4, "ravintola-exactum", &["Kasvispasta", "Lohikeitto"]),
        sample_restaurant(-12, "kahvila-physicum", &[]),
    ];
    let text = encode_catalog(&catalog);
    assert_eq!(decode_catalog(&text), Ok(catalog));
}

#[test]
fn codec_round_trip_with_escaped_characters() {
    let mut catalog = vec![sample_restaurant(1, "well-kaisa-talo", &["Keitto \"special\""])];
    catalog[0].address = String::from("back\\slash and \"quotes\"");
    let text = encode_catalog(&catalog);
    assert_eq!(decode_catalog(&text), Ok(catalog));
}

#[test]
fn codec_round_trip_empty_catalog() {
    let catalog: Vec<Restaurant> = Vec::new();
    let text = encode_catalog(&catalog);
    assert_eq!(text, "[]");
    assert_eq!(decode_catalog(&text), Ok(catalog));
}

#[test]
fn codec_encodes_canonical_json() {
    let mut r = sample_restaurant(4, "x", &[]);
    r.title = String::from("T");
    r.permalink = String::from("P");
    r.address = String::from("A");
    r.menu_data.menus.clear();
    let text = encode_catalog(&vec![r]);
    assert_eq!(
        text,
        "[{\"id\":4,\"title\":\"T\",\"slug\":\"x\",\"permalink\":\"P\",\"address\":\"A\",\
         \"menuData\":{\"name\":\"x\",\"id\":4,\"areacode\":-7,\"menus\":[]}}]"
    );
}

#[test]
fn codec_rejects_malformed_text() {
    assert_eq!(decode_catalog(""), Err(MenuError::Fetch));
    assert_eq!(decode_catalog("{"), Err(MenuError::Fetch));
    assert_eq!(decode_catalog("[{\"id\":true}]"), Err(MenuError::Fetch));
    assert_eq!(decode_catalog("[]]"), Err(MenuError::Fetch));
}

#[test]
fn codec_accepts_whitespace() {
    assert_eq!(decode_catalog("[ ]"), Ok(Vec::new()));
    assert_eq!(decode_catalog(" [\n]\t"), Ok(Vec::new()));
    let mut catalog = vec![sample_restaurant(4, "x", &["Keitto"])];
    catalog[0].permalink = String::from("plain");
    catalog[0].address = String::from("plain");
    let spaced = encode_catalog(&catalog)
        .replace(":", " : ")
        .replace(",", " ,\n")
        .replace("{", "{ ")
        .replace("[", "[ ");
    assert_eq!(decode_catalog(&spaced), Ok(catalog));
}

#[test]
fn codec_ignores_unknown_fields() {
    let catalog = vec![sample_restaurant(4, "x", &[])];
    let text = encode_catalog(&catalog).replace(
        "{\"id\":4,\"title\"",
        "{\"published\":true,\"id\":4,\"opt\":[1,{\"y\":null},2.5e3],\"title\"",
    );
    assert_eq!(decode_catalog(&text), Ok(catalog));
}

#[test]
fn codec_accepts_any_field_order() {
    let catalog = vec![sample_restaurant(4, "x", &[])];
    let text = encode_catalog(&catalog);
    let header = "{\"id\":4,\"title\":\"Unicafe x\",\"slug\":\"x\"";
    assert!(text.contains(header));
    let reordered = text.replace(
        header,
        "{\"slug\":\"x\",\"title\":\"Unicafe x\",\"id\":4",
    );
    assert_eq!(decode_catalog(&reordered), Ok(catalog));
}

#[test]
fn codec_decodes_standard_escapes() {
    let catalog = vec![sample_restaurant(4, "kes\u{00e4}", &[])];
    let text = encode_catalog(&catalog).replace("kes\u{00e4}", "kes\\u00e4");
    assert_eq!(decode_catalog(&text), Ok(catalog));
    let mut tabbed = vec![sample_restaurant(4, "a", &[])];
    tabbed[0].address = String::from("line1\nline2/\tend");
    let text2 = encode_catalog(&vec![sample_restaurant(4, "a", &[])]).replace(
        "\"Katu 1, Helsinki\"",
        "\"line1\\nline2\\/\\tend\"",
    );
    assert_eq!(decode_catalog(&text2), Ok(tabbed));
}

#[test]
fn codec_rejects_duplicate_fields() {
    let catalog = vec![sample_restaurant(4, "x", &[])];
    let text = encode_catalog(&catalog).replace("{\"id\":4,", "{\"id\":4,\"id\":4,");
    assert_eq!(decode_catalog(&text), Err(MenuError::Fetch));
}

#[test]
fn codec_decodes_negative_and_boundary_ids() {
    let mut catalog = vec![sample_restaurant(i32::MAX, "a", &[])];
    catalog[0].menu_data.id = i32::MIN;
    let text = encode_catalog(&catalog);
    assert_eq!(decode_catalog(&text), Ok(catalog));
}
