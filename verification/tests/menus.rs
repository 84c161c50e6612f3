use restaurant_orders::menu::{default_menus, Menu, MenuData};

#[test]
fn test_get_available_menus() {
    let menus = default_menus();
    assert!(!menus.is_empty());

    let menu_names: Vec<&str> = menus.iter().map(|m| m.name.as_str()).collect();
    assert!(menu_names.contains(&"Ramen"));
    assert!(menu_names.contains(&"Beer"));
    assert!(menu_names.contains(&"Beef rice"));
}

#[test]
fn test_menu_uniqueness() {
    let menus = default_menus();

    let mut ids: Vec<u128> = menus.iter().map(|m| m.id).collect();
    let original_len = ids.len();
    ids.sort();
    ids.dedup();
    assert_eq!(ids.len(), original_len, "All menu IDs should be unique");

    let mut names: Vec<&str> = menus.iter().map(|m| m.name.as_str()).collect();
    let original_len = names.len();
    names.sort();
    names.dedup();
    assert_eq!(names.len(), original_len, "All menu names should be unique");
}

#[test]
fn test_menu_content_validation() {
    let menus = default_menus();

    for menu in &menus {
        assert!(!menu.name.is_empty(), "Menu name should not be empty");
        assert!(menu.name.len() <= 50, "Menu name should not be too long");
    }
}

#[test]
fn test_menu_new_keeps_name() {
    let menu = Menu::new("Udon");
    assert_eq!(menu.name, "Udon");
}

#[test]
fn test_menu_data_of_menu() {
    let menu = Menu::new("Gyoza");
    let data = MenuData::of_menu(&menu);
    assert_eq!(data.id, menu.id);
    assert_eq!(data.name, menu.name);
}
