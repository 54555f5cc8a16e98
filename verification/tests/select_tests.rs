use unicafe_menu::model::{MenuData, MenuError, MenuList};
use unicafe_menu::select::get_menu_index_by_date;

fn menu_data(dates: &[&str]) -> MenuData {
    MenuData {
        name: String::from("Exactum"),
        id: 1,
        areacode: 1,
        menus: dates
            .iter()
            .map(|d| MenuList { data: Vec::new(), date: String::from(*d) })
            .collect(),
    }
}

#[test]
fn select_finds_matching_date() {
    let data = menu_data(&["01.03.", "02.03."]);
    assert_eq!(get_menu_index_by_date(&data, "02.03."), Ok(1));
}

#[test]
fn select_empty_menu_list_fails() {
    let data = menu_data(&[]);
    assert_eq!(get_menu_index_by_date(&data, "02.03."), Err(MenuError::MenuNotFound));
}

#[test]
fn select_no_matching_date_fails() {
    let data = menu_data(&["01.03.", "02.03."]);
    assert_eq!(get_menu_index_by_date(&data, "05.03."), Err(MenuError::MenuNotFound));
}

#[test]
fn select_date_match_is_substring_contains() {
    let data = menu_data(&["ma 01.03.2021", "ti 02.03.2021"]);
    assert_eq!(get_menu_index_by_date(&data, "02.03."), Ok(1));
}

#[test]
fn select_single_undated_menu_is_returned() {
    let data = menu_data(&[""]);
    assert_eq!(get_menu_index_by_date(&data, "02.03."), Ok(0));
}
