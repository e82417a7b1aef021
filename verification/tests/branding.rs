use jellyswarrm_proxy::branding::{asks_next_server, handle_branding, BrandingAnswer};
use jellyswarrm_proxy::models::Server;

fn server(name: &str) -> Server {
    Server {
        id: 1,
        name: name.to_string(),
        url: format!("http://{}.local/", name),
        priority: 1,
        created_at: 0,
        updated_at: 0,
    }
}

#[test]
fn the_login_page_links_to_the_servers() {
    let config = handle_branding(&vec![server("a"), server("b")], Vec::new());
    assert_eq!(
        config.login_disclaimer,
        "Jellyswarrm proxying to the following servers: \
         <a href=\"http://a.local/\" target=\"_blank\" rel=\"noopener noreferrer\">a</a>, \
         <a href=\"http://b.local/\" target=\"_blank\" rel=\"noopener noreferrer\">b</a>"
    );
    assert_eq!(config.custom_css, "");
    assert!(!config.splashscreen_enabled);
}

#[test]
fn the_login_page_says_where_there_are_no_servers() {
    let config = handle_branding(&Vec::new(), Vec::new());
    assert_eq!(
        config.login_disclaimer,
        "Jellyswarrm proxying to the following servers: No servers configured."
    );
}

#[test]
fn the_style_is_that_of_the_first_reachable_server() {
    let css = |text: &str| BrandingAnswer::Branding(Some(text.to_string()));
    let servers = vec![server("a"), server("b"), server("c")];
    let config = handle_branding(
        &servers,
        vec![BrandingAnswer::Unreachable, css("body {}"), css("other")],
    );
    assert_eq!(config.custom_css, "body {}");
    let plain = handle_branding(&servers, vec![BrandingAnswer::Branding(None), css("other")]);
    assert_eq!(plain.custom_css, "");
    assert!(asks_next_server(&BrandingAnswer::Unreachable));
    assert!(!asks_next_server(&BrandingAnswer::Branding(None)));
}
