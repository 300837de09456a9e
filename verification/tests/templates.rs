use auralis::templates::{
    all_partial_names, clean_partial_name, embedded_catalog, embedded_partial_names, get_partial,
    PartialCatalog,
};

fn built_in() -> PartialCatalog {
    let names = embedded_partial_names();
    let markup: Vec<String> = names
        .iter()
        .map(|n| format!("<section id=\"{n}\"></section>"))
        .collect();
    embedded_catalog(&markup)
}

#[test]
fn test_embedded_partials_loaded() {
    let catalog = built_in();
    assert!(get_partial(&catalog, "home").is_some());
    assert!(get_partial(&catalog, "library").is_some());
    assert!(get_partial(&catalog, "library.html").is_some());
    assert!(get_partial(&catalog, "/partials/library.html").is_some());
    assert!(get_partial(&catalog, "nav").is_some());
    assert!(get_partial(&catalog, "settings").is_some());
    assert!(get_partial(&catalog, "sync").is_some());
}

#[test]
fn partial_names_are_cleaned_of_paths_and_suffixes() {
    assert_eq!(clean_partial_name("/partials/library.html"), "library");
    assert_eq!(clean_partial_name("//partials/partials/x.html.html"), "x");
    assert_eq!(clean_partial_name("home"), "home");
    assert_eq!(clean_partial_name(".html"), "");
}

#[test]
fn disk_partials_override_built_in_ones() {
    let mut catalog = built_in();
    catalog.insert("home", "<p>dev copy</p>");
    catalog.insert("extra", "<p>new</p>");
    assert_eq!(get_partial(&catalog, "home").as_deref(), Some("<p>dev copy</p>"));
    assert_eq!(get_partial(&catalog, "/partials/extra.html").as_deref(), Some("<p>new</p>"));
    assert_eq!(get_partial(&catalog, "missing"), None);
    let names = all_partial_names(&catalog);
    assert_eq!(names.len(), 12);
    assert_eq!(names.iter().filter(|n| n.as_str() == "home").count(), 1);
}

#[test]
fn a_raw_name_is_tried_when_the_clean_one_is_missing() {
    let mut catalog = PartialCatalog::new();
    catalog.insert("odd.html", "<b>odd</b>");
    assert_eq!(get_partial(&catalog, "odd.html").as_deref(), Some("<b>odd</b>"));
    assert_eq!(catalog.get("odd"), None);
}

#[test]
fn a_catalog_lists_each_name_once_in_insertion_order() {
    let mut catalog = PartialCatalog::new();
    assert!(catalog.all_names().is_empty());
    catalog.insert("nav", "<nav></nav>");
    catalog.insert("home", "<p>home</p>");
    catalog.insert("nav", "<nav>again</nav>");
    assert_eq!(catalog.all_names(), vec!["nav".to_string(), "home".to_string()]);
    assert_eq!(catalog.get("nav").as_deref(), Some("<nav>again</nav>"));
    assert_eq!(catalog.get("missing"), None);
}

#[test]
fn every_built_in_partial_is_served_under_each_of_its_names() {
    let mut catalog = built_in();
    catalog.insert("home", "<p>from disk</p>");
    let listed = all_partial_names(&catalog);
    for n in embedded_partial_names() {
        let bare = get_partial(&catalog, &n);
        assert!(bare.is_some(), "{n}");
        assert_eq!(get_partial(&catalog, &format!("{n}.html")), bare);
        assert_eq!(get_partial(&catalog, &format!("/partials/{n}.html")), bare);
        assert!(listed.contains(&n));
    }
    assert_eq!(embedded_partial_names().len(), 11);
}
