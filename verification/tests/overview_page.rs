use demonlist::overview::{thumbnail, try_thumbnail, OverviewPage};

fn empty_page() -> OverviewPage {
    OverviewPage { demon_overview: Vec::new() }
}

#[test]
fn title_and_description() {
    let page = empty_page();
    assert_eq!(page.title(), "Geometry Dash Demonlist");
    assert_eq!(page.description(), "The official pointercrate Demonlist!");
}

#[test]
fn scripts_and_stylesheets() {
    let page = empty_page();

    let scripts = page.additional_scripts();
    assert_eq!(scripts.len(), 3);
    assert_eq!(scripts[0].src, "/static/js/modules/formv2.js");
    assert_eq!(scripts[1].src, "/static/js/modules/demonlistv2.js");
    assert_eq!(scripts[2].src, "/static/js/demonlist.v2.2.js");
    assert!(scripts.iter().all(|s| s.module));

    assert_eq!(
        page.additional_stylesheets(),
        vec!["/static/css/demonlist.v2.1.css".to_string(), "/static/css/sidebar.css".to_string()]
    );
}

#[test]
fn thumbnail_uses_video_id() {
    assert_eq!(
        thumbnail("https://www.youtube.com/watch?v=zebrafish"),
        "https://i.ytimg.com/vi/zebrafish/mqdefault.jpg"
    );
}

#[test]
fn thumbnail_finds_video_id_among_other_parameters() {
    assert_eq!(
        thumbnail("https://www.youtube.com/watch?t=42&v=abc123&list=x"),
        "https://i.ytimg.com/vi/abc123/mqdefault.jpg"
    );
}

#[test]
fn thumbnail_defaults_without_video_id() {
    assert_eq!(
        thumbnail("https://www.youtube.com/watch?t=42"),
        "https://i.ytimg.com/vi/dQw4w9WgXcQ/mqdefault.jpg"
    );
}

#[test]
fn try_thumbnail_rejects_malformed_links_only() {
    assert_eq!(try_thumbnail("not a url"), None);
    assert_eq!(
        try_thumbnail("https://www.youtube.com/watch?v=zebrafish"),
        Some("https://i.ytimg.com/vi/zebrafish/mqdefault.jpg".to_string())
    );
}
