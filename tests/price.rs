use store_crawler::price::{max_price, normalize, parse_price, price_of_lowered, PurchaseOption};

fn shown(text: &str) -> PurchaseOption {
    PurchaseOption::new(false, Some(text.to_string()))
}

#[test]
fn free_text_costs_nothing() {
    assert_eq!(parse_price("Free"), 0);
    assert_eq!(normalize(&vec![shown("Free")]), Some(0));
    assert_eq!(parse_price("Free to Play"), 0);
    assert_eq!(parse_price("Download Demo"), 0);
    assert_eq!(parse_price("Play with Firefly"), 0);
}

#[test]
fn comma_decimal_with_euro_sign() {
    assert_eq!(parse_price("19,99€"), 1999);
    assert_eq!(normalize(&vec![shown("19,99€")]), Some(1999));
}

#[test]
fn no_option_means_no_price() {
    assert_eq!(normalize(&vec![]), None);
    assert_eq!(max_price(&vec![]), None);
}

#[test]
fn dlc_option_costs_nothing() {
    let dlc = PurchaseOption::new(true, Some("4,99€".to_string()));
    assert_eq!(normalize(&vec![dlc]), Some(0));
}

#[test]
fn greatest_option_wins() {
    assert_eq!(normalize(&vec![shown("12.50"), shown("9.99")]), Some(1250));
    assert_eq!(max_price(&vec![999, 1250, 3]), Some(1250));
}

#[test]
fn option_without_text_costs_nothing() {
    let bare = PurchaseOption::new(false, None);
    assert_eq!(normalize(&vec![bare]), Some(0));
}

#[test]
fn text_is_lowered_before_it_is_read() {
    assert_eq!(parse_price("3 DEMO"), 0);
    assert_eq!(price_of_lowered("3 DEMO"), 300);
    assert_eq!(parse_price("DEMO"), 0);
}

#[test]
fn separators_and_annotations() {
    assert_eq!(parse_price("1.234,56€"), 123456);
    assert_eq!(parse_price("1,234"), 123400);
    assert_eq!(parse_price("0,5€"), 50);
    assert_eq!(parse_price("5"), 500);
    assert_eq!(parse_price("19.99 USD"), 1999);
    assert_eq!(parse_price("19,--€"), 1900);
    assert_eq!(parse_price("  12,00€"), 1200);
    assert_eq!(parse_price("9,99€ until tomorrow 5"), 999);
    assert_eq!(parse_price("$7.25"), 725);
}

#[test]
fn unreadable_price_counts_as_zero() {
    assert_eq!(parse_price("coming soon"), 0);
    assert_eq!(parse_price("Coming 2025"), 0);
    assert_eq!(parse_price("-20%"), 0);
    assert_eq!(parse_price("12abc"), 0);
    assert_eq!(parse_price(""), 0);
    assert_eq!(parse_price("€12"), 0);
    assert_eq!(parse_price("99999999999999999999"), 0);
}

#[test]
fn dlc_marker_is_recognised() {
    let o = PurchaseOption::from_element(Some("dlc_purchase_action"), Some("4,99€".to_string()));
    assert!(o.is_dlc);
    let o = PurchaseOption::from_element(Some("game_area_purchase"), None);
    assert!(!o.is_dlc);
    let o = PurchaseOption::from_element(None, None);
    assert!(!o.is_dlc);
}
