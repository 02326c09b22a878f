use inventory_ledger::inventory::Inventory;
use inventory_ledger::product::Category;
use inventory_ledger::product::Error;
use inventory_ledger::product::Product;
use inventory_ledger::product::ProductPayload;
use inventory_ledger::product::StockPayload;
use inventory_ledger::product::validate_product_payload;
use inventory_ledger::product::validate_stock_payload;

fn payload(name: &str, quantity: u32, category: Category) -> ProductPayload {
    ProductPayload { name: name.to_string(), quantity, category }
}

#[test]
fn add_product_ids_strictly_increasing() {
    let mut inv = Inventory::new();
    let a = inv.add_product(payload("Muffin", 10, Category::Bakery), 1).unwrap();
    let b = inv.add_product(payload("Eclair", 4, Category::Cake), 2).unwrap();
    let c = inv.add_product(payload("Biscotti", 7, Category::Cookies), 3).unwrap();
    assert_eq!(a.id, 0);
    assert_eq!(b.id, 1);
    assert_eq!(c.id, 2);
    assert!(a.id < b.id && b.id < c.id);
}

#[test]
fn add_product_empty_name_rejected() {
    let mut inv = Inventory::new();
    let r = inv.add_product(payload("", 5, Category::Bakery), 1);
    assert!(matches!(r, Err(Error::InvalidOperation { .. })));
    assert!(inv.list_all_products().is_empty());
}

#[test]
fn add_product_whitespace_name_rejected() {
    let mut inv = Inventory::new();
    let r = inv.add_product(payload(" \t\n  ", 5, Category::Bakery), 1);
    assert!(matches!(r, Err(Error::InvalidOperation { .. })));
    assert!(inv.list_all_products().is_empty());
}

#[test]
fn add_product_zero_quantity_rejected() {
    let mut inv = Inventory::new();
    let r = inv.add_product(payload("Muffin", 0, Category::Bakery), 1);
    assert!(matches!(r, Err(Error::InvalidOperation { .. })));
    assert!(inv.list_all_products().is_empty());
}

#[test]
fn add_product_sets_fields() {
    let mut inv = Inventory::new();
    let p = inv.add_product(payload("Muffin", 10, Category::Bakery), 42).unwrap();
    assert_eq!(p.name, "Muffin");
    assert_eq!(p.category, Category::Bakery);
    assert_eq!(p.quantity, 10);
    assert_eq!(p.created_at, 42);
    assert_eq!(p.updated_at, None);
}

#[test]
fn update_product_nonexistent_not_found() {
    let mut inv = Inventory::new();
    let r = inv.update_product(7, payload("Muffin", 3, Category::Cake), 1);
    assert!(matches!(r, Err(Error::NotFound { .. })));
}

#[test]
fn update_product_invalid_payload_rejected_before_lookup() {
    let mut inv = Inventory::new();
    let r = inv.update_product(7, payload("  ", 3, Category::Cake), 1);
    assert!(matches!(r, Err(Error::InvalidOperation { .. })));
}

#[test]
fn update_product_preserves_id_and_created_at() {
    let mut inv = Inventory::new();
    let p = inv.add_product(payload("Muffin", 10, Category::Bakery), 100).unwrap();
    let q = inv.update_product(p.id, payload("Scone", 6, Category::Cookies), 200).unwrap();
    assert_eq!(q.id, p.id);
    assert_eq!(q.created_at, 100);
    assert_eq!(q.updated_at, Some(200));
    assert_eq!(q.name, "Scone");
    assert_eq!(q.category, Category::Cookies);
    assert_eq!(q.quantity, 6);
    let stored = inv.get_product(p.id).unwrap();
    assert_eq!(stored, q);
}

#[test]
fn add_quantity_increases_by_exact_amount() {
    let mut inv = Inventory::new();
    let p = inv.add_product(payload("Muffin", 10, Category::Bakery), 1).unwrap();
    let q = inv.add_quantity(p.id, StockPayload { amount: 5 }, 2).unwrap();
    assert_eq!(q.quantity, 15);
    assert_eq!(q.updated_at, Some(2));
    assert_eq!(inv.get_stock(p.id).unwrap(), 15);
}

#[test]
fn add_quantity_works_from_zero() {
    let mut inv = Inventory::new();
    let p = inv.add_product(payload("Muffin", 4, Category::Bakery), 1).unwrap();
    inv.offload_quantity(p.id, StockPayload { amount: 4 }, 2).unwrap();
    assert_eq!(inv.get_stock(p.id).unwrap(), 0);
    let q = inv.add_quantity(p.id, StockPayload { amount: 9 }, 3).unwrap();
    assert_eq!(q.quantity, 9);
}

#[test]
fn add_quantity_zero_amount_rejected() {
    let mut inv = Inventory::new();
    let p = inv.add_product(payload("Muffin", 4, Category::Bakery), 1).unwrap();
    let r = inv.add_quantity(p.id, StockPayload { amount: 0 }, 2);
    assert!(matches!(r, Err(Error::InvalidOperation { .. })));
    assert_eq!(inv.get_stock(p.id).unwrap(), 4);
}

#[test]
fn add_quantity_nonexistent_not_found() {
    let mut inv = Inventory::new();
    let r = inv.add_quantity(3, StockPayload { amount: 2 }, 1);
    assert!(matches!(r, Err(Error::NotFound { .. })));
}

#[test]
fn offload_more_than_available_fails_and_leaves_quantity() {
    let mut inv = Inventory::new();
    let p = inv.add_product(payload("Muffin", 10, Category::Bakery), 1).unwrap();
    let r = inv.offload_quantity(p.id, StockPayload { amount: 11 }, 2);
    assert!(matches!(r, Err(Error::InvalidOperation { .. })));
    assert_eq!(inv.get_stock(p.id).unwrap(), 10);
    let stored = inv.get_product(p.id).unwrap();
    assert_eq!(stored.updated_at, None);
}

#[test]
fn offload_on_zero_quantity_fails_for_any_amount() {
    let mut inv = Inventory::new();
    let p = inv.add_product(payload("Muffin", 5, Category::Bakery), 1).unwrap();
    inv.offload_quantity(p.id, StockPayload { amount: 5 }, 2).unwrap();
    assert_eq!(inv.get_stock(p.id).unwrap(), 0);
    let r1 = inv.offload_quantity(p.id, StockPayload { amount: 1 }, 3);
    assert!(matches!(r1, Err(Error::InvalidOperation { .. })));
    let r2 = inv.offload_quantity(p.id, StockPayload { amount: 1000 }, 4);
    assert!(matches!(r2, Err(Error::InvalidOperation { .. })));
    assert_eq!(inv.get_stock(p.id).unwrap(), 0);
}

#[test]
fn offload_zero_amount_rejected() {
    let mut inv = Inventory::new();
    let p = inv.add_product(payload("Muffin", 5, Category::Bakery), 1).unwrap();
    let r = inv.offload_quantity(p.id, StockPayload { amount: 0 }, 2);
    assert!(matches!(r, Err(Error::InvalidOperation { .. })));
}

#[test]
fn offload_nonexistent_not_found() {
    let mut inv = Inventory::new();
    let r = inv.offload_quantity(9, StockPayload { amount: 1 }, 1);
    assert!(matches!(r, Err(Error::NotFound { .. })));
}

#[test]
fn remove_then_get_not_found() {
    let mut inv = Inventory::new();
    let p = inv.add_product(payload("Muffin", 5, Category::Bakery), 1).unwrap();
    let removed = inv.remove_product(p.id).unwrap();
    assert_eq!(removed, p);
    let r = inv.get_product(p.id);
    assert!(matches!(r, Err(Error::NotFound { .. })));
    let s = inv.get_stock(p.id);
    assert!(matches!(s, Err(Error::NotFound { .. })));
}

#[test]
fn remove_nonexistent_not_found() {
    let mut inv = Inventory::new();
    let r = inv.remove_product(0);
    assert!(matches!(r, Err(Error::NotFound { .. })));
}

#[test]
fn clear_empties_store_but_keeps_counter() {
    let mut inv = Inventory::new();
    inv.add_product(payload("Muffin", 5, Category::Bakery), 1).unwrap();
    inv.add_product(payload("Eclair", 2, Category::Cake), 2).unwrap();
    inv.clear_all_products();
    assert!(inv.list_all_products().is_empty());
    let p = inv.add_product(payload("Scone", 3, Category::Bakery), 3).unwrap();
    assert_eq!(p.id, 2);
}

#[test]
fn search_by_category_is_filtered_scan_in_order() {
    let mut inv = Inventory::new();
    inv.add_product(payload("Muffin", 5, Category::Bakery), 1).unwrap();
    inv.add_product(payload("Eclair", 2, Category::Cake), 2).unwrap();
    inv.add_product(payload("Biscotti", 7, Category::Cookies), 3).unwrap();
    inv.add_product(payload("Gateau", 1, Category::Cake), 4).unwrap();
    let all = inv.list_all_products();
    let cakes = inv.search_by_category(Category::Cake);
    let expected: Vec<Product> =
        all.iter().filter(|p| p.category == Category::Cake).cloned().collect();
    assert_eq!(cakes, expected);
    assert_eq!(cakes.len(), 2);
    assert_eq!(cakes[0].name, "Eclair");
    assert_eq!(cakes[1].name, "Gateau");
}

#[test]
fn search_by_category_empty_result() {
    let mut inv = Inventory::new();
    inv.add_product(payload("Muffin", 5, Category::Bakery), 1).unwrap();
    assert!(inv.search_by_category(Category::Cookies).is_empty());
}

#[test]
fn list_all_products_in_ascending_id_order() {
    let mut inv = Inventory::new();
    inv.add_product(payload("Muffin", 5, Category::Bakery), 1).unwrap();
    inv.add_product(payload("Eclair", 2, Category::Cake), 2).unwrap();
    inv.add_product(payload("Biscotti", 7, Category::Cookies), 3).unwrap();
    let all = inv.list_all_products();
    assert_eq!(all.len(), 3);
    assert_eq!(all[0].id, 0);
    assert_eq!(all[1].id, 1);
    assert_eq!(all[2].id, 2);
}

#[test]
fn muffin_scenario() {
    let mut inv = Inventory::new();
    let p = inv.add_product(payload("Muffin", 10, Category::Bakery), 1).unwrap();
    assert_eq!(p.id, 0);
    let q = inv.add_quantity(0, StockPayload { amount: 5 }, 2).unwrap();
    assert_eq!(q.quantity, 15);
    let r1 = inv.offload_quantity(0, StockPayload { amount: 20 }, 3);
    assert!(matches!(r1, Err(Error::InvalidOperation { .. })));
    let q2 = inv.offload_quantity(0, StockPayload { amount: 15 }, 4).unwrap();
    assert_eq!(q2.quantity, 0);
    let r2 = inv.offload_quantity(0, StockPayload { amount: 1 }, 5);
    assert!(matches!(r2, Err(Error::InvalidOperation { .. })));
}

#[test]
fn validate_product_payload_cases() {
    assert!(validate_product_payload(&payload("Muffin", 1, Category::Bakery)).is_ok());
    assert!(matches!(
        validate_product_payload(&payload("", 1, Category::Bakery)),
        Err(Error::InvalidOperation { .. })
    ));
    assert!(matches!(
        validate_product_payload(&payload("   ", 1, Category::Bakery)),
        Err(Error::InvalidOperation { .. })
    ));
    assert!(matches!(
        validate_product_payload(&payload("Muffin", 0, Category::Bakery)),
        Err(Error::InvalidOperation { .. })
    ));
}

#[test]
fn validate_stock_payload_cases() {
    assert!(validate_stock_payload(&StockPayload { amount: 1 }).is_ok());
    assert!(matches!(
        validate_stock_payload(&StockPayload { amount: 0 }),
        Err(Error::InvalidOperation { .. })
    ));
}

#[test]
fn generate_unique_id_advances_counter_only() {
    let mut inv = Inventory::new();
    inv.add_product(payload("Muffin", 5, Category::Bakery), 1).unwrap();
    let a = inv.generate_unique_id().unwrap();
    let b = inv.generate_unique_id().unwrap();
    assert_eq!(a, 1);
    assert_eq!(b, 2);
    assert_eq!(inv.list_all_products().len(), 1);
}

#[test]
fn get_product_returns_stored_record() {
    let mut inv = Inventory::new();
    let p = inv.add_product(payload("Muffin", 5, Category::Bakery), 9).unwrap();
    assert_eq!(inv._get_product(p.id), Some(p.clone()));
    assert_eq!(inv._get_product(77), None);
    assert_eq!(inv.get_product(p.id).unwrap(), p);
}

#[test]
fn do_insert_replaces_or_inserts_in_order() {
    let mut inv = Inventory::new();
    inv.add_product(payload("Muffin", 5, Category::Bakery), 1).unwrap();
    let middle = inv.add_product(payload("Eclair", 2, Category::Cake), 2).unwrap();
    inv.add_product(payload("Biscotti", 7, Category::Cookies), 3).unwrap();
    inv.remove_product(middle.id).unwrap();
    inv.do_insert(&middle);
    let all = inv.list_all_products();
    assert_eq!(all.len(), 3);
    assert_eq!(all[0].id, 0);
    assert_eq!(all[1].id, 1);
    assert_eq!(all[2].id, 2);
    let replacement = Product { quantity: 99, ..middle.clone() };
    inv.do_insert(&replacement);
    assert_eq!(inv.get_stock(middle.id).unwrap(), 99);
    assert_eq!(inv.list_all_products().len(), 3);
}

#[test]
fn category_default_is_bakery() {
    assert_eq!(Category::default(), Category::Bakery);
}

#[test]
fn product_duplicate_is_equal() {
    let mut inv = Inventory::new();
    let p = inv.add_product(payload("Muffin", 5, Category::Bakery), 9).unwrap();
    assert_eq!(p.duplicate(), p);
}
