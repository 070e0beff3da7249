use store_crawler::links::{app_id_of_link, app_id_of_path, page_for_app};

#[test]
fn page_address_of_a_product() {
    assert_eq!(page_for_app(400), "https://store.steampowered.com/app/400/");
    assert_eq!(page_for_app(0), "https://store.steampowered.com/app/0/");
    assert_eq!(page_for_app(4294967295), "https://store.steampowered.com/app/4294967295/");
}

#[test]
fn product_links_name_their_product() {
    assert_eq!(app_id_of_link("https://store.steampowered.com/app/620/Portal_2/"), Some(620));
    assert_eq!(app_id_of_link("https://store.steampowered.com/app/10/"), Some(10));
    assert_eq!(app_id_of_link("https://store.steampowered.com/app/70"), Some(70));
}

#[test]
fn other_links_name_nothing() {
    assert_eq!(app_id_of_link("https://store.steampowered.com/bundle/620/"), None);
    assert_eq!(app_id_of_link("https://example.com/app/620/"), None);
    assert_eq!(app_id_of_link("https://store.steampowered.com/app/abc/"), None);
    assert_eq!(app_id_of_link("https://store.steampowered.com/app/"), None);
    assert_eq!(app_id_of_link("https://store.steampowered.com/app/4294967296/"), None);
}

#[test]
fn second_path_segment_is_read() {
    assert_eq!(app_id_of_path("/app/10/"), Some(10));
    assert_eq!(app_id_of_path("/app/+7"), Some(7));
    assert_eq!(app_id_of_path("/app"), None);
    assert_eq!(app_id_of_path("app/10/"), None);
    assert_eq!(app_id_of_path("/app//"), None);
}
