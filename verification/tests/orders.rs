use restaurant_orders::config::Config;
use restaurant_orders::menu::MenuData;
use restaurant_orders::order::{CreateOrderRequest, OrderError};
use restaurant_orders::service::{random_cooking_time, OrderService};

fn test_service() -> OrderService {
    OrderService::new(Config::new((1, 10000)).unwrap())
}

fn test_menu() -> MenuData {
    MenuData {
        id: 0x1234_5678_9abc_def0,
        name: String::from("Test Menu"),
    }
}

#[test]
fn test_create_orders_success() {
    let mut service = test_service();
    let menu = test_menu();

    let payload = CreateOrderRequest {
        table_id: 1,
        menus: vec![menu.clone()],
    };

    match service.create_orders(payload) {
        Ok(orders) => {
            assert_eq!(orders.len(), 1);
            assert_eq!(orders[0].menu.name, menu.name);
            assert_eq!(orders[0].table_id, 1);
            assert_eq!(service.get_table_orders(1).len(), 1);
        }
        Err(_) => panic!("Expected success response"),
    }
}

#[test]
fn test_create_orders_invalid_table() {
    let mut service = test_service();
    let payload = CreateOrderRequest {
        table_id: 99999,
        menus: vec![test_menu()],
    };

    match service.create_orders(payload) {
        Ok(_) => panic!("Expected error response"),
        Err(e) => assert_eq!(e, OrderError::InvalidTable),
    }
}

#[test]
fn test_create_multiple_orders() {
    let mut service = test_service();
    let menus = vec![test_menu(), test_menu(), test_menu()];

    let payload = CreateOrderRequest { table_id: 1, menus };

    match service.create_orders(payload) {
        Ok(orders) => {
            assert_eq!(orders.len(), 3);
            assert_eq!(service.get_table_orders(1).len(), 3);
        }
        Err(_) => panic!("Expected success response"),
    }
}

#[test]
fn test_order_timestamps() {
    let mut service = test_service();
    let payload = CreateOrderRequest {
        table_id: 1,
        menus: vec![test_menu()],
    };

    let before = chrono::Utc::now().timestamp_millis();
    let result = service.create_orders(payload);
    let after = chrono::Utc::now().timestamp_millis();

    match result {
        Ok(orders) => {
            let created_at = orders[0].created_at;
            assert!(created_at >= before && created_at <= after);
        }
        Err(_) => panic!("Expected success response"),
    }
}

#[test]
fn test_create_orders_empty_menu_list() {
    let mut service = test_service();
    let payload = CreateOrderRequest {
        table_id: 1,
        menus: vec![],
    };

    match service.create_orders(payload) {
        Ok(orders) => {
            assert!(orders.is_empty());
            assert!(service.get_table_orders(1).is_empty());
        }
        Err(_) => panic!("Expected success response"),
    }
}

#[test]
fn test_random_cooking_time() {
    for _ in 0..100 {
        let cooking_time = random_cooking_time();
        assert!(cooking_time >= 5 && cooking_time <= 15);
    }
}

#[test]
fn test_delete_order_success() {
    let mut service = test_service();
    let payload = CreateOrderRequest {
        table_id: 1,
        menus: vec![test_menu()],
    };
    let orders = service.create_orders(payload).expect("Expected success response");
    let order_id = orders[0].id;

    assert!(service.delete_table_order(1, order_id).is_ok());
    assert!(service.get_table_orders(1).is_empty());
}

#[test]
fn test_delete_order_not_found() {
    let mut service = test_service();
    let result = service.delete_table_order(1, 42);
    assert_eq!(result, Err(OrderError::NotFound));
}

#[test]
fn test_delete_order_twice_not_found() {
    let mut service = test_service();
    let payload = CreateOrderRequest {
        table_id: 1,
        menus: vec![test_menu(), test_menu()],
    };
    let orders = service.create_orders(payload).expect("Expected success response");
    let order_id = orders[0].id;

    assert!(service.delete_table_order(1, order_id).is_ok());
    assert_eq!(service.delete_table_order(1, order_id), Err(OrderError::NotFound));
    let remaining = service.get_table_orders(1);
    assert_eq!(remaining.len(), 1);
    assert_eq!(remaining[0].id, orders[1].id);
}

#[test]
fn test_get_order_roundtrip() {
    let mut service = test_service();
    let payload = CreateOrderRequest {
        table_id: 3,
        menus: vec![test_menu()],
    };
    let orders = service.create_orders(payload).expect("Expected success response");
    let created = &orders[0];

    let fetched = service.get_table_order(3, created.id).expect("Expected success response");
    assert_eq!(fetched.id, created.id);
    assert_eq!(fetched.table_id, created.table_id);
    assert_eq!(fetched.menu.id, created.menu.id);
    assert_eq!(fetched.menu.name, created.menu.name);
    assert_eq!(fetched.cooking_time_minutes, created.cooking_time_minutes);
    assert_eq!(fetched.created_at, created.created_at);
}

#[test]
fn test_get_order_unknown_id_not_found() {
    let mut service = test_service();
    let payload = CreateOrderRequest {
        table_id: 3,
        menus: vec![test_menu()],
    };
    let orders = service.create_orders(payload).expect("Expected success response");
    let never_issued = orders[0].id.wrapping_add(1);

    assert!(matches!(service.get_table_order(3, never_issued), Err(OrderError::NotFound)));
    assert!(matches!(service.get_table_order(999, orders[0].id), Err(OrderError::NotFound)));
}

#[test]
fn test_interleaved_operations() {
    let mut service = test_service();
    let payload = CreateOrderRequest {
        table_id: 1,
        menus: vec![test_menu(), test_menu(), test_menu(), test_menu(), test_menu()],
    };
    let orders = service.create_orders(payload).expect("Expected success response");
    let order_id = orders[0].id;

    assert_eq!(service.get_table_orders(1).len(), 5);
    assert!(service.get_table_order(1, order_id).is_ok());
    assert!(service.delete_table_order(1, order_id).is_ok());
    assert_eq!(service.get_table_orders(1).len(), 4);
}

#[test]
fn test_serialized_creates_no_loss() {
    let mut service = test_service();
    for _ in 0..10 {
        let payload = CreateOrderRequest {
            table_id: 42,
            menus: vec![test_menu()],
        };
        service.create_orders(payload).expect("Expected success response");
    }
    let orders = service.get_table_orders(42);
    assert_eq!(orders.len(), 10);
    let mut ids: Vec<u128> = orders.iter().map(|o| o.id).collect();
    ids.sort();
    ids.dedup();
    assert_eq!(ids.len(), 10, "No order id should occur twice");
}

#[test]
fn test_creates_do_not_touch_other_tables() {
    let mut service = test_service();
    let payload = CreateOrderRequest {
        table_id: 1,
        menus: vec![test_menu()],
    };
    service.create_orders(payload).expect("Expected success response");
    let payload = CreateOrderRequest {
        table_id: 2,
        menus: vec![test_menu(), test_menu()],
    };
    service.create_orders(payload).expect("Expected success response");

    assert_eq!(service.get_table_orders(1).len(), 1);
    assert_eq!(service.get_table_orders(2).len(), 2);
    assert!(service.get_table_orders(3).is_empty());
}
