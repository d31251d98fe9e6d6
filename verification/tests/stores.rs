use harvest::inventory::{Category, Inventory, InventoryError, Item};
use harvest::logs::{parse_level, LogAnalyzer, LogLevel};

fn item(id: i32, name: &str, category: Category, quantity: i32, price: i32) -> Item {
    Item { id, name: name.to_string(), category, quantity, price }
}

#[test]
fn inventory_adds_and_finds() {
    let mut inv = Inventory::new();
    assert_eq!(inv.len(), 0);
    assert_eq!(inv.add_item(item(1, "Phone", Category::Electronics, 5, 1000)), Ok(()));
    assert_eq!(inv.add_item(item(2, "Shirt", Category::Clothing, 3, 20)), Ok(()));
    assert_eq!(inv.add_item(item(3, "Bread", Category::Groceries, 2, 10)), Ok(()));
    assert_eq!(inv.len(), 3);
    let first = inv.get(0).unwrap();
    assert_eq!((first.id, first.name.as_str(), first.quantity, first.price), (1, "Phone", 5, 1000));
    assert!(inv.get(3).is_none());
    let found = inv.get_item_by_id(2).unwrap();
    assert_eq!(found.name, "Shirt");
    assert_eq!(found.category, Category::Clothing);
    assert_eq!(inv.get_item_by_id(99).err(), Some(InventoryError::ItemNotFound));
}

#[test]
fn inventory_refuses_duplicate_ids() {
    let mut inv = Inventory::new();
    assert_eq!(inv.add_item(item(1, "Phone", Category::Electronics, 5, 1000)), Ok(()));
    assert_eq!(
        inv.add_item(item(1, "Laptop", Category::Electronics, 2, 1500)),
        Err(InventoryError::DuplicateItemId)
    );
    assert_eq!(inv.len(), 1);
    assert_eq!(inv.get_item_by_id(1).unwrap().name, "Phone");
}

#[test]
fn inventory_error_messages() {
    assert_eq!(InventoryError::DuplicateItemId.message(), "Item with the same ID already exists.");
    assert_eq!(InventoryError::ItemNotFound.message(), "Item not found in the inventory.");
}

#[test]
fn inventory_categorizes_in_order() {
    let mut inv = Inventory::new();
    inv.add_item(item(1, "Phone", Category::Electronics, 5, 1000)).unwrap();
    inv.add_item(item(2, "Apple", Category::Groceries, 10, 2)).unwrap();
    inv.add_item(item(3, "T-Shirt", Category::Clothing, 20, 15)).unwrap();
    inv.add_item(item(4, "Laptop", Category::Electronics, 1, 2000)).unwrap();
    let (electronics, groceries, clothing) = inv.categorize_items();
    assert_eq!(electronics.iter().map(|i| i.id).collect::<Vec<_>>(), vec![1, 4]);
    assert_eq!(groceries.iter().map(|i| i.id).collect::<Vec<_>>(), vec![2]);
    assert_eq!(clothing.iter().map(|i| i.id).collect::<Vec<_>>(), vec![3]);
    let empty = Inventory::new();
    let (e, g, c) = empty.categorize_items();
    assert!(e.is_empty() && g.is_empty() && c.is_empty());
}

#[test]
fn log_line_parses() {
    let entry = LogAnalyzer::parse_log_line("2024-01-01T00:00:00|ERROR|auth|login failed").unwrap();
    assert_eq!(entry.timestamp, "2024-01-01T00:00:00");
    assert_eq!(entry.level, LogLevel::Error);
    assert_eq!(entry.service, "auth");
    assert_eq!(entry.message, "login failed");
    let blank = LogAnalyzer::parse_log_line("|INFO||").unwrap();
    assert_eq!(blank.timestamp, "");
    assert_eq!(blank.service, "");
    assert_eq!(blank.message, "");
}

#[test]
fn log_line_rejects() {
    assert!(LogAnalyzer::parse_log_line("").is_none());
    assert!(LogAnalyzer::parse_log_line("a|INFO|b").is_none());
    assert!(LogAnalyzer::parse_log_line("a|INFO|b|c|d").is_none());
    assert!(LogAnalyzer::parse_log_line("a|info|b|c").is_none());
    assert!(LogAnalyzer::parse_log_line("a|DEBUG|b|c").is_none());
    assert!(LogAnalyzer::parse_log_line("a| INFO|b|c").is_none());
}

#[test]
fn log_levels() {
    assert_eq!(parse_level("INFO"), Some(LogLevel::Info));
    assert_eq!(parse_level("WARNING"), Some(LogLevel::Warning));
    assert_eq!(parse_level("ERROR"), Some(LogLevel::Error));
    assert_eq!(parse_level("CRITICAL"), Some(LogLevel::Critical));
    assert_eq!(parse_level("WARN"), None);
    assert_eq!(parse_level(""), None);
}

#[test]
fn log_report_counts() {
    let lines: Vec<String> = [
        "t1|INFO|web|started",
        "garbage",
        "t2|ERROR|db|down",
        "t3|INFO|db|up",
        "t4|CRITICAL|web|crash",
        "t5|INFO|web|again",
        "t6|TRACE|web|skipped",
    ]
    .iter()
    .map(|s| s.to_string())
    .collect();
    let analyzer = LogAnalyzer::from_lines(&lines);
    assert_eq!(analyzer.len(), 5);
    assert_eq!(analyzer.get(1).unwrap().message, "down");
    assert!(analyzer.get(5).is_none());
    let report = analyzer.generate_report();
    assert_eq!(report.total_entries, 5);
    let mut levels = report.level_counts.clone();
    levels.sort_by_key(|p| p.1);
    assert_eq!(levels, vec![(LogLevel::Error, 1), (LogLevel::Critical, 1), (LogLevel::Info, 3)]);
    assert_eq!(report.service_counts, vec![("web".to_string(), 3), ("db".to_string(), 2)]);
    assert_eq!(report.unique_services, vec!["web".to_string(), "db".to_string()]);
}

#[test]
fn log_report_of_nothing() {
    let analyzer = LogAnalyzer::from_lines(&Vec::new());
    let report = analyzer.generate_report();
    assert_eq!(report.total_entries, 0);
    assert!(report.level_counts.is_empty());
    assert!(report.service_counts.is_empty());
    assert!(report.unique_services.is_empty());
}
