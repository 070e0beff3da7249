use store_crawler::extract::page_facts;
use store_crawler::page::evaluate_page;

const PAGE: &str = r#"<html><body>
<div class="apphub_AppName"> Portal </div>
<a class="app_tag"> Puzzle </a><a class="app_tag">Sci-fi</a><div class="app_tag"> + </div>
<div class="game_purchase_action"><div class="price"> 9,75€ </div></div>
<div class="game_purchase_action"><div class="price">19,50€</div></div>
<div class="game_purchase_action" id="dlc_purchase_action"><div class="price">49,99€</div></div>
<a href="https://store.steampowered.com/app/620/Portal_2/">Portal 2</a>
<a href="https://example.com/">elsewhere</a>
<a>no target</a>
<a href="https://store.steampowered.com/app/10/">Ten</a>
</body></html>"#;

#[test]
fn reads_a_product_page() {
    let facts = page_facts(PAGE);
    assert_eq!(facts.name.as_deref(), Some("Portal"));
    assert_eq!(facts.tags, vec!["Puzzle", "Sci-fi", "+"]);
    assert_eq!(facts.options.len(), 3);
    assert_eq!(facts.options[0].price_text.as_deref(), Some("9,75€"));
    assert!(!facts.options[1].is_dlc);
    assert!(facts.options[2].is_dlc);
    assert_eq!(facts.links.len(), 3);

    let report = evaluate_page(400, facts);
    let app = report.app.unwrap();
    assert_eq!(app.name, "Portal");
    assert_eq!(app.tags, vec!["Puzzle", "Sci-fi"]);
    assert_eq!(app.price, 1950);
    assert_eq!(report.links, vec![620, 10]);
}

#[test]
fn page_without_purchase_options_is_skipped() {
    let facts = page_facts(r#"<div class="apphub_AppName">Tool</div><a href="https://store.steampowered.com/app/78/">next</a>"#);
    assert!(facts.options.is_empty());
    let report = evaluate_page(77, facts);
    assert!(report.app.is_none());
    assert_eq!(report.links, vec![78]);
}

#[test]
fn page_without_name_is_skipped() {
    let facts = page_facts(r#"<div class="game_purchase_action"><div class="price">Free</div></div>"#);
    assert_eq!(facts.name, None);
    assert!(evaluate_page(5, facts).app.is_none());
}
