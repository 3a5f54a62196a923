use nh3::classes::filter_class_exec;
use nh3::css::filter_style_exec;
use nh3::defaults::default_policy;
use nh3::policy::ForcedAttr;
use nh3::policy::TagAttrs;
use nh3::policy::TagAttrValues;
use nh3::policy::TagClasses;
use nh3::Cleaner;
use nh3::PolicyError;

fn strings(xs: &[&str]) -> Vec<String> {
    xs.iter().map(|x| x.to_string()).collect()
}

#[test]
fn class_filter_keeps_allowed_in_order() {
    let allowed = strings(&["a", "b", "c"]);
    assert_eq!(filter_class_exec(&allowed, "c x a  b"), "c a b");
    assert_eq!(filter_class_exec(&allowed, "x y"), "");
    assert_eq!(filter_class_exec(&allowed, ""), "");
    assert_eq!(filter_class_exec(&allowed, "  a\t b\n"), "a b");
}

#[test]
fn style_filter_keeps_allowed_declarations() {
    let allowed = strings(&["color", "margin-left"]);
    assert_eq!(
        filter_style_exec(&allowed, "color: red; position: fixed"),
        "color:red"
    );
    assert_eq!(
        filter_style_exec(&allowed, "margin-left:2px;color:blue"),
        "margin-left:2px; color:blue"
    );
    assert_eq!(filter_style_exec(&allowed, "@media x { color: red }"), "");
    assert_eq!(filter_style_exec(&allowed, "color: { nested }"), "");
    assert_eq!(filter_style_exec(&allowed, "color"), "");
    assert_eq!(filter_style_exec(&allowed, ""), "");
}

#[test]
fn style_filter_is_idempotent_on_examples() {
    let allowed = strings(&["color", "width"]);
    for input in ["color:red; junk; width: 3px", "a:b", "; ; color:x"] {
        let once = filter_style_exec(&allowed, input);
        let twice = filter_style_exec(&allowed, &once);
        assert_eq!(once, twice);
    }
}

#[test]
fn url_scheme_checks_through_clean() {
    // Allowed scheme kept, relative kept, disallowed scheme dropped.
    assert_eq!(
        nh3::clean("<a href=\"https://example.com/\">x</a>"),
        "<a href=\"https://example.com/\" rel=\"noopener noreferrer\">x</a>"
    );
    assert_eq!(
        nh3::clean("<a href=\"/relative/path\">x</a>"),
        "<a href=\"/relative/path\" rel=\"noopener noreferrer\">x</a>"
    );
    assert_eq!(
        nh3::clean("<a href=\"javascript:alert(1)\">x</a>"),
        "<a rel=\"noopener noreferrer\">x</a>"
    );
}

#[test]
fn generic_attribute_prefixes_admit_families() {
    let mut p = default_policy();
    p.generic_attribute_prefixes = strings(&["data-"]);
    let cleaner = Cleaner::new(p).unwrap();
    assert_eq!(
        cleaner.clean("<b data-x=\"1\" other=\"2\">t</b>"),
        "<b data-x=\"1\">t</b>"
    );
}

#[test]
fn tag_attribute_values_restrict_literals() {
    let mut p = default_policy();
    p.tag_attributes.push(TagAttrs {
        tag: "b".to_string(),
        attrs: strings(&["dir"]),
    });
    p.tag_attribute_values = vec![TagAttrValues {
        tag: "b".to_string(),
        attr: "dir".to_string(),
        values: strings(&["ltr", "rtl"]),
    }];
    let cleaner = Cleaner::new(p).unwrap();
    assert_eq!(cleaner.clean("<b dir=\"ltr\">t</b>"), "<b dir=\"ltr\">t</b>");
    assert_eq!(cleaner.clean("<b dir=\"LTR\">t</b>"), "<b>t</b>");
    assert_eq!(cleaner.clean("<b dir=\"x\">t</b>"), "<b>t</b>");
}

#[test]
fn set_tag_attribute_values_forces() {
    let mut p = default_policy();
    p.set_tag_attribute_values = vec![ForcedAttr {
        tag: "img".to_string(),
        attr: "loading".to_string(),
        value: "lazy".to_string(),
    }];
    let cleaner = Cleaner::new(p).unwrap();
    // Added when absent, and an input value never survives.
    assert_eq!(
        cleaner.clean("<img src=\"/a.png\">"),
        "<img src=\"/a.png\" loading=\"lazy\">"
    );
    assert_eq!(
        cleaner.clean("<img loading=\"eager\" src=\"/a.png\">"),
        "<img src=\"/a.png\" loading=\"lazy\">"
    );
}

#[test]
fn comments_stripped_or_kept() {
    assert_eq!(nh3::clean("a<!-- b -->c"), "ac");
    let mut p = default_policy();
    p.strip_comments = false;
    let cleaner = Cleaner::new(p).unwrap();
    assert_eq!(cleaner.clean("a<!-- b -->c"), "a<!-- b -->c");
}

#[test]
fn clean_content_tags_drop_whole_subtree() {
    let mut p = default_policy();
    p.tags.retain(|t| t != "table");
    p.tag_attributes.retain(|e| e.tag != "table");
    p.clean_content_tags.push("table".to_string());
    let cleaner = Cleaner::new(p).unwrap();
    assert_eq!(
        cleaner.clean("x<table><tr><td><b>deep</b></td></tr></table>y"),
        "xy"
    );
}

#[test]
fn unwrapping_promotes_children() {
    assert_eq!(nh3::clean("<unknown><b>kept</b> text</unknown>"), "<b>kept</b> text");
    assert_eq!(nh3::clean("<form><p>inner</p></form>"), "<p>inner</p>");
}

#[test]
fn policy_error_variants() {
    let mut p = default_policy();
    p.generic_attributes.push("rel".to_string());
    assert_eq!(Cleaner::new(p).unwrap_err(), PolicyError::RelConflict);

    let mut p = default_policy();
    p.allowed_classes = vec![TagClasses {
        tag: "a".to_string(),
        classes: strings(&["m"]),
    }];
    p.tag_attributes.push(TagAttrs {
        tag: "a".to_string(),
        attrs: strings(&["class"]),
    });
    assert_eq!(Cleaner::new(p).unwrap_err(), PolicyError::ClassConflict);

    let mut p = default_policy();
    p.clean_content_tags.push("b".to_string());
    assert_eq!(
        Cleaner::new(p).unwrap_err(),
        PolicyError::CleanContentConflict
    );

    let mut p = default_policy();
    p.clean_content_tags.retain(|t| t != "style");
    p.tags.push("style".to_string());
    p.filter_style_properties = Some(strings(&["color"]));
    assert_eq!(Cleaner::new(p).unwrap_err(), PolicyError::StyleConflict);

    // And a conflict-free change is accepted.
    let mut p = default_policy();
    p.link_rel = None;
    assert!(Cleaner::new(p).is_ok());
}

#[test]
fn style_attribute_filtering_through_clean() {
    let mut p = default_policy();
    p.tag_attributes.push(TagAttrs {
        tag: "span".to_string(),
        attrs: strings(&["style"]),
    });
    p.filter_style_properties = Some(strings(&["color"]));
    let cleaner = Cleaner::new(p).unwrap();
    assert_eq!(
        cleaner.clean("<span style=\"color: red; position: fixed\">t</span>"),
        "<span style=\"color:red\">t</span>"
    );
}

#[test]
fn clean_is_idempotent_on_examples() {
    let inputs = [
        "<a href=\"https://e/\" class=\"x\">t</a><script>bad()</script>",
        "<unknown><b onerror=\"x\">t</b></unknown><!-- c -->",
        "plain & <i>italic</i>",
    ];
    for input in inputs {
        let once = nh3::clean(input);
        let twice = nh3::clean(&once);
        assert_eq!(once, twice);
    }
}

#[test]
fn defaults_exposed() {
    let tags = nh3::defaults::default_tags();
    assert!(tags.iter().any(|t| t == "a"));
    assert!(!tags.iter().any(|t| t == "script"));
    let schemes = nh3::defaults::default_url_schemes();
    assert!(schemes.iter().any(|s| s == "https"));
    assert!(!schemes.iter().any(|s| s == "javascript"));
    let attrs = nh3::defaults::default_tag_attributes();
    assert!(attrs
        .iter()
        .any(|e| e.tag == "img" && e.attrs.iter().any(|a| a == "src")));
}

#[test]
fn clean_text_escapes_every_special_character() {
    assert_eq!(
        nh3::clean_text("<>\"'`/&= \t\n\r"),
        "&lt;&gt;&quot;&apos;&grave;&#47;&amp;&#61;&#32;&#9;&#10;&#13;"
    );
    assert_eq!(nh3::clean_text("plain"), "plain");
    assert_eq!(nh3::clean_text(""), "");
}

#[test]
fn is_html_on_odd_inputs() {
    assert!(nh3::is_html("Vec::<u8>::new()"));
    assert!(nh3::is_html("<g>"));
    assert!(!nh3::is_html("1 < 2 is true"));
}

#[test]
fn class_attribute_with_no_surviving_tokens_stays_empty() {
    // Without a hook the attribute survives with an empty value, as the
    // wrapped sanitizers do; a hook may drop it instead.
    let mut p = default_policy();
    p.allowed_classes = vec![TagClasses {
        tag: "a".to_string(),
        classes: strings(&["mention"]),
    }];
    let cleaner = Cleaner::new(p).unwrap();
    assert_eq!(
        cleaner.clean("<a class=\"x y\">t</a>"),
        "<a class=\"\" rel=\"noopener noreferrer\">t</a>"
    );
}

#[test]
fn style_attribute_with_no_surviving_declarations_is_dropped() {
    let mut p = default_policy();
    p.tag_attributes.push(TagAttrs {
        tag: "span".to_string(),
        attrs: strings(&["style"]),
    });
    p.filter_style_properties = Some(strings(&["color"]));
    let cleaner = Cleaner::new(p).unwrap();
    assert_eq!(
        cleaner.clean("<span style=\"position: fixed\">t</span>"),
        "<span>t</span>"
    );
    assert_eq!(cleaner.clean("<span style=\"\">t</span>"), "<span>t</span>");
}

#[test]
fn style_filter_admits_quoted_and_url_values() {
    let allowed = strings(&["font-family", "background"]);
    assert_eq!(
        filter_style_exec(&allowed, "font-family: \"Arial\", sans-serif"),
        "font-family:\"Arial\", sans-serif"
    );
    assert_eq!(
        filter_style_exec(&allowed, "background: url('/img.png') no-repeat"),
        "background:url('/img.png') no-repeat"
    );
    // An unterminated string fails closed, as does a `;` inside quotes:
    // splitting does not look into quotes, so the pieces are malformed.
    assert_eq!(filter_style_exec(&allowed, "font-family: \"Arial"), "");
    assert_eq!(filter_style_exec(&allowed, "background: url(\"a;b\")"), "");
}
