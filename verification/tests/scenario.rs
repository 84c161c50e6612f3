use restaurant_orders::config::Config;
use restaurant_orders::menu::MenuData;
use restaurant_orders::order::{CreateOrderRequest, OrderError};
use restaurant_orders::service::OrderService;
use restaurant_orders::store::OrderStore;

#[test]
fn test_end_to_end_scenario() {
    let config = Config::new((1, 10)).unwrap();
    let mut service = OrderService::new(config);
    let item_a = MenuData { id: 0xa, name: String::from("ItemA") };

    let created = service
        .create_orders(CreateOrderRequest { table_id: 5, menus: vec![item_a.clone()] })
        .expect("Expected success response");
    assert_eq!(created.len(), 1);
    assert_eq!(created[0].table_id, 5);
    assert_eq!(created[0].menu.id, item_a.id);
    assert_eq!(created[0].menu.name, item_a.name);

    let rejected = service
        .create_orders(CreateOrderRequest { table_id: 11, menus: vec![item_a.clone()] });
    assert!(matches!(rejected, Err(OrderError::InvalidTable)));
    assert_eq!(service.get_table_orders(11).len(), 0);

    assert_eq!(service.get_table_orders(5).len(), 1);

    let order_id = created[0].id;
    assert!(service.delete_table_order(5, order_id).is_ok());
    assert!(service.get_table_orders(5).is_empty());

    assert!(matches!(service.get_table_order(5, order_id), Err(OrderError::NotFound)));
}

fn sample_order(id: u128, table_id: u32) -> restaurant_orders::order::Order {
    restaurant_orders::order::Order {
        id,
        table_id,
        menu: MenuData { id: 1, name: String::from("Ramen") },
        cooking_time_minutes: 10,
        created_at: 1_700_000_000_000,
    }
}

#[test]
fn test_store_append_batch_is_atomic_suffix() {
    let mut store = OrderStore::new();
    store.append(2, vec![sample_order(1, 2)]);
    store.append(2, vec![sample_order(2, 2), sample_order(3, 2)]);

    let listed = store.list(2);
    let ids: Vec<u128> = listed.iter().map(|o| o.id).collect();
    assert_eq!(ids, vec![1, 2, 3]);
}

#[test]
fn test_store_get_collapses_not_found() {
    let mut store = OrderStore::new();
    store.append(2, vec![sample_order(1, 2)]);

    assert!(store.get(2, 1).is_some());
    assert!(store.get(2, 99).is_none(), "Unknown order in a known table");
    assert!(store.get(9, 1).is_none(), "Unknown table");
}

#[test]
fn test_store_delete_keeps_relative_order() {
    let mut store = OrderStore::new();
    store.append(2, vec![sample_order(1, 2), sample_order(2, 2), sample_order(3, 2)]);

    assert!(store.delete(2, 2));
    let ids: Vec<u128> = store.list(2).iter().map(|o| o.id).collect();
    assert_eq!(ids, vec![1, 3]);

    assert!(!store.delete(2, 2), "A second delete of the same id finds nothing");
    assert!(!store.delete(7, 1), "A delete at an unknown table finds nothing");
}

#[test]
fn test_store_empty_and_missing_tables_look_alike() {
    let mut store = OrderStore::new();
    store.append(4, vec![sample_order(1, 4)]);
    assert!(store.delete(4, 1));

    assert_eq!(store.list(4).len(), 0);
    assert_eq!(store.list(5).len(), 0);
    assert!(store.get(4, 1).is_none());
    assert!(store.get(5, 1).is_none());
}
