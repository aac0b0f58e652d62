use rnm::catalog::{anchor_version, parse_version, filter_versions, listing_of, parse_listing, summarize, RemoteListing};
use rnm::store::Manager;
use rnm::version::{sort_descending, SemanticVersion};

fn v(a: u64, b: u64, c: u64) -> SemanticVersion {
    SemanticVersion::new(a, b, c)
}

#[test]
fn anchor_texts_parse_to_versions() {
    assert_eq!(anchor_version("v18.15.0/"), Some(v(18, 15, 0)));
    assert_eq!(anchor_version("v0.1.100/"), Some(v(0, 1, 100)));
    assert_eq!(anchor_version("v20.1.2"), Some(v(20, 1, 2)));
    assert_eq!(anchor_version("v1.2.3//"), Some(v(1, 2, 3)));
}

#[test]
fn malformed_anchors_are_dropped() {
    assert_eq!(anchor_version("../"), None);
    assert_eq!(anchor_version("latest/"), None);
    assert_eq!(anchor_version("18.15.0/"), None);
    assert_eq!(anchor_version("v18.15/"), None);
    assert_eq!(anchor_version("v01.2.3/"), None);
    assert_eq!(anchor_version("v1.2.3-rc.1/"), None);
    assert_eq!(anchor_version(""), None);
    assert_eq!(anchor_version("v"), None);
    assert_eq!(anchor_version("v18.x/"), None);
    assert_eq!(anchor_version("v1.2.3+build/"), None);
    assert_eq!(anchor_version(" v1.2.3/"), None);
}

#[test]
fn listing_html_yields_linked_versions() {
    let html = "<html><body><pre><a href=\"../\">../</a>\n<a href=\"latest/\">latest/</a>\n\
                <a href=\"v16.0.0/\">v16.0.0/</a>\n<a href=\"v18.15.0/\">v18.15.0/</a>\n\
                <a href=\"index.json\">index.json</a>\n<a href=\"v20.1.2/\">v20.1.2/</a></pre></body></html>";
    let vs = parse_listing(html).unwrap();
    assert_eq!(vs, vec![v(16, 0, 0), v(18, 15, 0), v(20, 1, 2)]);
}

#[test]
fn descending_sort_of_three() {
    let mut vs = vec![v(18, 15, 0), v(16, 0, 0), v(20, 1, 2)];
    sort_descending(&mut vs);
    assert_eq!(vs, vec![v(20, 1, 2), v(18, 15, 0), v(16, 0, 0)]);
}

#[test]
fn descending_sort_by_all_fields() {
    let mut vs = vec![v(1, 2, 3), v(1, 10, 0), v(1, 2, 10), v(0, 99, 99), v(1, 2, 3)];
    sort_descending(&mut vs);
    assert_eq!(vs, vec![v(1, 10, 0), v(1, 2, 10), v(1, 2, 3), v(1, 2, 3), v(0, 99, 99)]);
    let mut empty: Vec<SemanticVersion> = vec![];
    sort_descending(&mut empty);
    assert!(empty.is_empty());
}

#[test]
fn order_is_strict() {
    assert!(v(2, 0, 0).is_newer_than(&v(1, 9, 9)));
    assert!(!v(1, 9, 9).is_newer_than(&v(2, 0, 0)));
    assert!(!v(1, 2, 3).is_newer_than(&v(1, 2, 3)));
    assert!(v(1, 2, 4).is_newer_than(&v(1, 2, 3)));
}

#[test]
fn version_text_renders_fields() {
    assert_eq!(v(18, 15, 0).to_text(), "18.15.0");
    assert_eq!(v(0, 0, 0).to_tag(), "v0.0.0");
    assert_eq!(v(u64::MAX, 10, 7).to_text(), "18446744073709551615.10.7");
}

fn sample() -> Vec<SemanticVersion> {
    vec![v(20, 1, 2), v(18, 15, 0), v(18, 15, 1), v(18, 14, 0), v(16, 0, 0), v(1, 18, 0)]
}

#[test]
fn filter_by_major() {
    assert_eq!(filter_versions(&sample(), "18"), vec![v(18, 15, 0), v(18, 15, 1), v(18, 14, 0)]);
}

#[test]
fn filter_by_major_minor() {
    assert_eq!(filter_versions(&sample(), "18.15"), vec![v(18, 15, 0), v(18, 15, 1)]);
}

#[test]
fn filter_by_full_version() {
    assert_eq!(filter_versions(&sample(), "18.15.0"), vec![v(18, 15, 0)]);
}

#[test]
fn filter_is_exact_not_prefix() {
    assert!(filter_versions(&sample(), "1").len() == 1);
    assert!(filter_versions(&sample(), "018").is_empty());
    assert!(filter_versions(&sample(), "18.15.0.1").is_empty());
    assert!(filter_versions(&sample(), "").is_empty());
}

#[test]
fn empty_match_is_explicit() {
    match listing_of(&sample(), Some("99")) {
        RemoteListing::NoMatch(f) => assert_eq!(f, "99"),
        other => panic!("expected no match, got {:?}", other),
    }
    match listing_of(&sample(), Some("16")) {
        RemoteListing::Matches(m) => assert_eq!(m, vec![v(16, 0, 0)]),
        other => panic!("expected matches, got {:?}", other),
    }
}

#[test]
fn summary_keeps_three_majors_and_five_each() {
    let mut vs = Vec::new();
    for major in [14u64, 16, 18, 20, 22] {
        for patch in (0..7u64).rev() {
            vs.push(v(major, 0, patch));
        }
    }
    vs.push(v(18, 1, 0));
    sort_descending(&mut vs);
    let groups = summarize(&vs);
    assert_eq!(groups.len(), 3);
    assert_eq!(groups.iter().map(|g| g.major).collect::<Vec<_>>(), vec![22, 20, 18]);
    assert_eq!(groups[0].shown, vec![v(22, 0, 6), v(22, 0, 5), v(22, 0, 4), v(22, 0, 3), v(22, 0, 2)]);
    assert_eq!(groups[0].omitted, 2);
    assert_eq!(groups[2].shown[0], v(18, 1, 0));
    assert_eq!(groups[2].omitted, 3);
}

#[test]
fn summary_without_truncation() {
    let vs = vec![v(3, 0, 1), v(3, 0, 0), v(1, 0, 0)];
    let groups = summarize(&vs);
    assert_eq!(groups.len(), 2);
    assert_eq!(groups[0].major, 3);
    assert_eq!(groups[0].shown, vec![v(3, 0, 1), v(3, 0, 0)]);
    assert_eq!(groups[0].omitted, 0);
    assert_eq!(groups[1].shown, vec![v(1, 0, 0)]);
    assert!(summarize(&vec![]).is_empty());
}

#[test]
fn list_remote_sorts_and_filters() {
    let m = Manager::with_home(Some("/home/ann"), None, true).unwrap();
    let html = "<a>v16.0.0/</a><a>v18.15.0/</a><a>v20.1.2/</a><a>v18.1.0/</a>";
    match m.list_remote(html, Some("18")).unwrap() {
        RemoteListing::Matches(vs) => assert_eq!(vs, vec![v(18, 15, 0), v(18, 1, 0)]),
        other => panic!("expected matches, got {:?}", other),
    }
    match m.list_remote(html, None).unwrap() {
        RemoteListing::Groups(g) => {
            assert_eq!(g.iter().map(|x| x.major).collect::<Vec<_>>(), vec![20, 18, 16]);
            assert_eq!(g[1].shown, vec![v(18, 15, 0), v(18, 1, 0)]);
        }
        other => panic!("expected groups, got {:?}", other),
    }
}

#[test]
fn version_text_parses_exactly() {
    assert_eq!(parse_version("18.15.0"), Some(v(18, 15, 0)));
    assert_eq!(parse_version("0.0.0"), Some(v(0, 0, 0)));
    assert_eq!(parse_version("18.015.0"), None);
    assert_eq!(parse_version("18.15"), None);
    assert_eq!(parse_version("18.15.0-rc.1"), None);
    assert_eq!(parse_version("18446744073709551616.0.0"), None);
}

#[test]
fn malformed_anchors_do_not_change_listing() {
    let clean = "<a>v16.0.0/</a><a>v18.15.0/</a>";
    let noisy = "<a>../</a><a>v16.0.0/</a><a>latest/</a><a>v18.x/</a><a>v18.15.0/</a><a>index.tab</a>";
    assert_eq!(parse_listing(clean).unwrap(), parse_listing(noisy).unwrap());
}
