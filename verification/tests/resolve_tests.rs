use unicafe_menu::model::{MenuData, MenuError, Restaurant};
use unicafe_menu::resolve::find_by_slug;

fn restaurant(slug: &str) -> Restaurant {
    Restaurant {
        id: 1,
        title: String::from(slug),
        slug: String::from(slug),
        permalink: String::new(),
        address: String::new(),
        menu_data: MenuData {
            name: String::from(slug),
            id: 1,
            areacode: 1,
            menus: Vec::new(),
        },
    }
}

#[test]
fn resolve_finds_substring_match() {
    let catalog = vec![restaurant("kahvila-physicum"), restaurant("ravintola-exactum")];
    assert_eq!(find_by_slug(&catalog, "exactum"), Ok(1));
}

#[test]
fn resolve_unknown_key_fails() {
    let catalog = vec![restaurant("kahvila-physicum"), restaurant("ravintola-exactum")];
    assert_eq!(find_by_slug(&catalog, "zzz"), Err(MenuError::LocationNotFound));
}

#[test]
fn resolve_first_match_wins() {
    let catalog = vec![
        restaurant("ravintola-exactum"),
        restaurant("kahvila-exactum"),
    ];
    assert_eq!(find_by_slug(&catalog, "exactum"), Ok(0));
}

#[test]
fn resolve_empty_catalog_fails() {
    let catalog: Vec<Restaurant> = Vec::new();
    assert_eq!(find_by_slug(&catalog, "exactum"), Err(MenuError::LocationNotFound));
}
