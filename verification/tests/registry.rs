use ruget::{Dependency, Range, SearchQuery};

#[test]
fn query_asks_for_nothing_else() {
    let query = SearchQuery::from_query("json parser");
    assert_eq!(query.query.as_deref(), Some("json parser"));
    assert!(query.skip.is_none());
    assert!(query.take.is_none());
    assert!(query.prerelease.is_none());
    assert!(query.package_type.is_none());
}

#[test]
fn dependencies_sort_by_id() {
    let dep = |id: &str| Dependency { id: id.into(), range: Some(Range::any()) };
    assert_eq!(dep("Alpha").sign(&dep("Beta")), -1);
    assert_eq!(dep("beta").sign(&dep("Beta")), 1);
    assert_eq!(dep("Beta").sign(&dep("Beta")), 0);
    assert_eq!(dep("Bet").sign(&dep("Beta")), -1);
    assert_eq!(dep("é").sign(&dep("z")), 1);
}

use ruget::{
    CatalogEntry, IndexResource, NuGetEndpoints, RegistrationIndex, RegistrationLeaf,
    RegistrationPage, Version,
};

fn resource(id: &str, restype: &str) -> IndexResource {
    IndexResource { id: id.into(), restype: restype.into(), comment: None }
}

#[test]
fn endpoints_are_found_by_type() {
    let resources = vec![
        resource("https://a/search", "SearchQueryService/3.5.0"),
        resource("https://a/flat", "PackageBaseAddress/3.0.0"),
        resource("https://b/search", "SearchQueryService/3.5.0"),
        resource("https://a/reg", "RegistrationsBaseUrl/3.6.0"),
    ];
    assert_eq!(
        NuGetEndpoints::find_endpoint(&resources, "SearchQueryService/3.5.0").as_deref(),
        Some("https://a/search")
    );
    assert_eq!(NuGetEndpoints::find_endpoint(&resources, "Catalog/3.0.0"), None);
    assert_eq!(NuGetEndpoints::find_endpoint(&resources, "searchqueryservice/3.5.0"), None);
    let endpoints = NuGetEndpoints::from_resources(resources);
    assert_eq!(endpoints.search.as_deref(), Some("https://a/search"));
    assert_eq!(endpoints.package_content.as_deref(), Some("https://a/flat"));
    assert_eq!(endpoints.registration.as_deref(), Some("https://a/reg"));
    assert!(endpoints.publish.is_none());
    assert!(endpoints.catalog.is_none());
    assert!(endpoints.signatures.is_none());
    assert!(endpoints.autocomplete.is_none());
    assert!(endpoints.symbol_publish.is_none());
}

fn leaf(version: &str) -> RegistrationLeaf {
    RegistrationLeaf {
        catalog_entry: CatalogEntry {
            id: "demo".into(),
            version: Version::parse(version).unwrap(),
            authors: None,
            dependency_groups: None,
            deprecation: None,
            description: None,
            icon_url: None,
            license_url: None,
            license_expression: None,
            listed: None,
            project_url: None,
            published: None,
            require_license_acceptance: None,
            tags: None,
            title: None,
            summary: None,
            vulnerabilities: None,
        },
        package_content: format!("https://a/flat/demo/{}/demo.nupkg", version),
    }
}

fn page(lower: &str, upper: &str, versions: Option<&[&str]>) -> RegistrationPage {
    RegistrationPage {
        id: format!("https://a/reg/demo/{}", lower),
        parent: None,
        count: versions.map_or(0, |list| list.len()),
        items: versions.map(|list| list.iter().map(|v| leaf(v)).collect()),
        lower: Version::parse(lower).unwrap(),
        upper: Version::parse(upper).unwrap(),
    }
}

#[test]
fn pages_cover_their_versions() {
    let first = page("1.0.0", "1.9.0", Some(&["1.0.0", "1.2.0+x", "1.2.0", "1.9.0"]));
    let v = |text: &str| Version::parse(text).unwrap();
    assert!(first.covers(&v("1.0.0")));
    assert!(first.covers(&v("1.9.0")));
    assert!(first.covers(&v("1.5.0-beta")));
    assert!(!first.covers(&v("1.0.0-rc")));
    assert!(!first.covers(&v("1.9.0.1")));
    assert_eq!(first.find(&v("1.2.0")), Some(1));
    assert_eq!(first.find(&v("1.9.0")), Some(3));
    assert_eq!(first.find(&v("1.5.0")), None);
    assert_eq!(page("2.0.0", "2.5.0", None).find(&v("2.0.0")), None);
    let index = RegistrationIndex {
        count: 3,
        items: vec![first, page("2.0.0", "2.5.0", None), page("2.5.0", "3.0.0", None)],
    };
    assert_eq!(index.next_page(&v("2.5.0"), 0), Some(1));
    assert_eq!(index.next_page(&v("2.5.0"), 2), Some(2));
    assert_eq!(index.next_page(&v("2.5.0"), 3), None);
    assert_eq!(index.next_page(&v("0.1.0"), 0), None);
    assert_eq!(index.next_page(&v("1.0.0"), 7), None);
}
