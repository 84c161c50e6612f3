use restaurant_orders::config::Config;
use restaurant_orders::menu::MenuData;
use restaurant_orders::order::CreateOrderRequest;
use restaurant_orders::service::OrderService;
use restaurant_orders::workload::{
    add_target, draw_table, handle_empty_order, select_menus, specific_operation, ApiResponse,
    FollowUp,
};

fn catalog() -> Vec<MenuData> {
    vec![
        MenuData { id: 1, name: String::from("Ramen") },
        MenuData { id: 2, name: String::from("Beef rice") },
        MenuData { id: 3, name: String::from("Beer") },
    ]
}

#[test]
fn test_handle_empty_order_creates_small_batch() {
    for _ in 0..100 {
        match handle_empty_order() {
            FollowUp::Create { menu_count } => {
                assert!((1..=3).contains(&menu_count));
            }
            _ => panic!("An empty table must lead to a create"),
        }
    }
}

#[test]
fn test_specific_operation_uses_fetched_orders() {
    let mut service = OrderService::new(Config::new((1, 10)).unwrap());
    let payload = CreateOrderRequest {
        table_id: 4,
        menus: catalog(),
    };
    service.create_orders(payload).expect("Expected success response");
    let orders = service.get_table_orders(4);
    let known: Vec<u128> = orders.iter().map(|o| o.id).collect();

    for _ in 0..100 {
        match specific_operation(&orders) {
            FollowUp::Create { menu_count } => assert!((1..=2).contains(&menu_count)),
            FollowUp::Delete { order_id } => assert!(known.contains(&order_id)),
            FollowUp::Fetch { order_id } => assert!(known.contains(&order_id)),
            FollowUp::Skip => panic!("A non-empty list leaves something to do"),
        }
    }
}

#[test]
fn test_specific_operation_on_empty_list() {
    let orders = Vec::new();
    for _ in 0..50 {
        match specific_operation(&orders) {
            FollowUp::Create { menu_count } => assert!((1..=2).contains(&menu_count)),
            FollowUp::Skip => {}
            _ => panic!("An empty list offers nothing to delete or fetch"),
        }
    }
}

#[test]
fn test_add_target_keeps_targets_distinct() {
    let mut targets: Vec<u32> = Vec::new();
    add_target(&mut targets, 3);
    add_target(&mut targets, 5);
    add_target(&mut targets, 3);
    add_target(&mut targets, 5);
    add_target(&mut targets, 8);
    assert_eq!(targets, vec![3, 5, 8]);
}

#[test]
fn test_target_selection_fills_up() {
    let mut targets: Vec<u32> = Vec::new();
    while targets.len() != 4 {
        let drawn = draw_table(1, 10);
        add_target(&mut targets, drawn);
    }
    assert_eq!(targets.len(), 4);
    for &t in &targets {
        assert!((1..=10).contains(&t));
    }
    let mut sorted = targets.clone();
    sorted.sort();
    sorted.dedup();
    assert_eq!(sorted.len(), 4);
}

#[test]
fn test_draw_table_in_range() {
    for _ in 0..100 {
        let t = draw_table(2, 9);
        assert!((2..=9).contains(&t));
    }
    assert_eq!(draw_table(6, 6), 6);
}

#[test]
fn test_select_menus_with_replacement() {
    let available = catalog();
    let chosen = select_menus(&available, 7);
    assert_eq!(chosen.len(), 7);
    let known: Vec<u128> = available.iter().map(|m| m.id).collect();
    for item in &chosen {
        assert!(known.contains(&item.id));
    }
    assert!(select_menus(&available, 0).is_empty());
}

#[test]
fn test_api_response_success() {
    let r = ApiResponse::success(vec![1u32, 2, 3]);
    assert_eq!(r.status, "success");
    assert_eq!(r.data, vec![1, 2, 3]);
}
