use nh3::defaults::default_policy;
use nh3::Cleaner;
use nh3::TokenFilter;

#[test]
fn script_removed_with_content() {
    assert_eq!(nh3::clean("<script>alert(1)</script>"), "");
}

#[test]
fn event_handler_stripped() {
    assert_eq!(
        nh3::clean("<b><img src='' onerror='alert(1)'>XSS?</b>"),
        "<b><img src=\"\">XSS?</b>"
    );
}

#[test]
fn javascript_href_dropped_rel_inserted() {
    let mut p = default_policy();
    p.url_schemes = vec!["http".to_string(), "https".to_string()];
    let cleaner = Cleaner::new(p).unwrap();
    assert_eq!(
        cleaner.clean("<a href=\"javascript:evil()\">x</a>"),
        "<a rel=\"noopener noreferrer\">x</a>"
    );
}

#[test]
fn class_allowlist_and_filter() {
    let mut p = default_policy();
    p.allowed_classes = vec![nh3::policy::TagClasses {
        tag: "a".to_string(),
        classes: vec!["mention".to_string()],
    }];
    let cleaner = Cleaner::new(p).unwrap();
    let f = TokenFilter {
        tag: "a".to_string(),
        attr: "class".to_string(),
        token: "mention".to_string(),
    };
    assert_eq!(
        cleaner.clean_with_filter("<a class=\"mention unwanted\">@foo</a>", &f),
        "<a class=\"mention\" rel=\"noopener noreferrer\">@foo</a>"
    );
}

#[test]
fn clean_text_exact_escapes() {
    assert_eq!(
        nh3::clean_text("Robert\"); abuse();//"),
        "Robert&quot;);&#32;abuse();&#47;&#47;"
    );
}

#[test]
fn is_html_detection() {
    assert!(!nh3::is_html("plain text"));
    assert!(nh3::is_html("<p>html!</p>"));
}

#[test]
fn unknown_tag_unwrapped() {
    assert_eq!(nh3::clean("<unknown>hi"), "hi");
}

#[test]
fn filter_can_drop_an_admitted_attribute() {
    let mut p = default_policy();
    p.allowed_classes = vec![nh3::policy::TagClasses {
        tag: "a".to_string(),
        classes: vec!["mention".to_string()],
    }];
    let cleaner = Cleaner::new(p).unwrap();
    let f = TokenFilter {
        tag: "a".to_string(),
        attr: "class".to_string(),
        token: "mention".to_string(),
    };
    // No allowed token survives class filtering, so the hook sees an
    // empty value and drops the attribute.
    assert_eq!(
        cleaner.clean_with_filter("<a class=\"x y\">t</a>", &f),
        "<a rel=\"noopener noreferrer\">t</a>"
    );
}

#[test]
fn filter_leaves_other_attributes_alone() {
    let cleaner = Cleaner::new(default_policy()).unwrap();
    let f = TokenFilter {
        tag: "a".to_string(),
        attr: "class".to_string(),
        token: "mention".to_string(),
    };
    assert_eq!(
        cleaner.clean_with_filter("<img src=\"/a.png\" alt=\"pic\">", &f),
        "<img src=\"/a.png\" alt=\"pic\">"
    );
}
