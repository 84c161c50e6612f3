use vstd::prelude::*;
use crate::ext::fresh_uuid;

verus! {

/// One entry of the immutable menu catalog, identified by a fresh random id.
#[derive(Debug)]
pub struct Menu {
    pub id: u128,
    pub name: String,
}

/// A menu item as it travels inside an order: the id of the catalog entry and
/// a copy of its display name.
#[derive(Debug)]
pub struct MenuData {
    pub id: u128,
    pub name: String,
}

impl Clone for Menu {
    fn clone(&self) -> (r: Menu)
        ensures
            r == *self,
    {
        Menu { id: self.id, name: self.name.clone() }
    }
}

impl Clone for MenuData {
    fn clone(&self) -> (r: MenuData)
        ensures
            r == *self,
    {
        MenuData { id: self.id, name: self.name.clone() }
    }
}

impl Menu {
    /// A new catalog entry under the given name, with a freshly drawn id.
    pub fn new(name: &str) -> (m: Menu)
        ensures
            m.name@ == name@,
    {
        Menu { id: fresh_uuid(), name: String::from_str(name) }
    }
}

impl MenuData {
    /// The order-side copy of a catalog entry.
    pub fn of_menu(menu: &Menu) -> (d: MenuData)
        ensures
            d.id == menu.id,
            d.name == menu.name,
    {
        MenuData { id: menu.id, name: menu.name.clone() }
    }
}

/// The fixed catalog offered to every table: three entries, created once at
/// startup, never mutated.
pub fn default_menus() -> (menus: Vec<Menu>)
    ensures
        menus@.len() == 3,
        menus@[0].name@ == "Ramen"@,
        menus@[1].name@ == "Beef rice"@,
        menus@[2].name@ == "Beer"@,
{
    let mut menus: Vec<Menu> = Vec::new();
    menus.push(Menu::new("Ramen"));
    menus.push(Menu::new("Beef rice"));
    menus.push(Menu::new("Beer"));
    menus
}

} // verus!
