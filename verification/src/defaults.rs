//! The default allowlists: the conservative base policy of formatting
//! tags, their attributes and safe URL schemes that callers extend or
//! replace when building their own [`Policy`](crate::policy::Policy).
//! Comments are stripped and links get `rel="noopener noreferrer"`.

use vstd::prelude::*;

use crate::policy::Policy;
use crate::policy::SPolicy;
use crate::policy::STagAttrs;
use crate::policy::TagAttrs;
use vstd::string::StringExecFns;

verus! {

broadcast use vstd::seq::group_seq_axioms, vstd::std_specs::vec::group_vec_axioms,
    vstd::string::group_string_axioms;

/// A string holding the same characters as the slice.
fn s(x: &str) -> (r: String)
    ensures
        r@ == x@,
{
    x.to_owned()
}

/// The tags the default policy keeps.
pub open spec fn default_tags_spec() -> Seq<Seq<char>> {
    seq![
        "a"@, "abbr"@, "acronym"@, "area"@, "article"@, "aside"@, "b"@, "bdi"@,
        "bdo"@, "blockquote"@, "br"@, "caption"@, "center"@, "cite"@, "code"@, "col"@,
        "colgroup"@, "data"@, "dd"@, "del"@, "details"@, "dfn"@, "div"@, "dl"@,
        "dt"@, "em"@, "figcaption"@, "figure"@, "footer"@, "h1"@, "h2"@, "h3"@,
        "h4"@, "h5"@, "h6"@, "header"@, "hgroup"@, "hr"@, "i"@, "img"@,
        "ins"@, "kbd"@, "li"@, "map"@, "mark"@, "nav"@, "ol"@, "p"@,
        "pre"@, "q"@, "rp"@, "rt"@, "rtc"@, "ruby"@, "s"@, "samp"@,
        "small"@, "span"@, "strike"@, "strong"@, "sub"@, "summary"@, "sup"@, "table"@,
        "tbody"@, "td"@, "th"@, "thead"@, "time"@, "tr"@, "tt"@, "u"@,
        "ul"@, "var"@, "wbr"@,
    ]
}

/// The tags the default policy deletes with their whole subtree.
pub open spec fn default_clean_content_tags_spec() -> Seq<Seq<char>> {
    seq![
        "script"@, "style"@,
    ]
}

/// The attributes the default policy allows on every tag.
pub open spec fn default_generic_attributes_spec() -> Seq<Seq<char>> {
    seq![
        "lang"@, "title"@,
    ]
}

/// The per-tag attribute allowlist of the default policy.
pub open spec fn default_tag_attributes_spec() -> Seq<STagAttrs> {
    seq![
        STagAttrs { tag: "a"@, attrs: seq!["href"@, "hreflang"@] },
        STagAttrs { tag: "bdo"@, attrs: seq!["dir"@] },
        STagAttrs { tag: "blockquote"@, attrs: seq!["cite"@] },
        STagAttrs { tag: "col"@, attrs: seq!["align"@, "char"@, "charoff"@, "span"@] },
        STagAttrs { tag: "colgroup"@, attrs: seq!["align"@, "char"@, "charoff"@, "span"@] },
        STagAttrs { tag: "del"@, attrs: seq!["cite"@, "datetime"@] },
        STagAttrs { tag: "hr"@, attrs: seq!["align"@, "size"@, "width"@] },
        STagAttrs { tag: "img"@, attrs: seq!["align"@, "alt"@, "height"@, "src"@, "width"@] },
        STagAttrs { tag: "ins"@, attrs: seq!["cite"@, "datetime"@] },
        STagAttrs { tag: "ol"@, attrs: seq!["start"@] },
        STagAttrs { tag: "q"@, attrs: seq!["cite"@] },
        STagAttrs { tag: "table"@, attrs: seq!["align"@, "char"@, "charoff"@, "summary"@] },
        STagAttrs { tag: "tbody"@, attrs: seq!["align"@, "char"@, "charoff"@] },
        STagAttrs { tag: "td"@, attrs: seq!["align"@, "char"@, "charoff"@, "colspan"@, "headers"@, "rowspan"@] },
        STagAttrs { tag: "tfoot"@, attrs: seq!["align"@, "char"@, "charoff"@] },
        STagAttrs { tag: "th"@, attrs: seq!["align"@, "char"@, "charoff"@, "colspan"@, "headers"@, "rowspan"@, "scope"@] },
        STagAttrs { tag: "thead"@, attrs: seq!["align"@, "char"@, "charoff"@] },
        STagAttrs { tag: "tr"@, attrs: seq!["align"@, "char"@, "charoff"@] },
    ]
}

/// The URL schemes the default policy permits.
pub open spec fn default_url_schemes_spec() -> Seq<Seq<char>> {
    seq![
        "bitcoin"@, "ftp"@, "ftps"@, "geo"@, "http"@, "https"@, "im"@, "irc"@,
        "ircs"@, "magnet"@, "mailto"@, "mms"@, "mx"@, "news"@, "nntp"@, "openpgp4fpr"@,
        "sip"@, "sms"@, "smsto"@, "ssh"@, "tel"@, "url"@, "webcal"@, "wtai"@,
        "xmpp"@,
    ]
}

/// The whole default policy.
pub open spec fn default_spolicy() -> SPolicy {
    SPolicy {
        tags: default_tags_spec(),
        clean_content_tags: default_clean_content_tags_spec(),
        tag_attributes: default_tag_attributes_spec(),
        generic_attributes: default_generic_attributes_spec(),
        generic_attribute_prefixes: Seq::empty(),
        tag_attribute_values: Seq::empty(),
        set_tag_attribute_values: Seq::empty(),
        url_schemes: default_url_schemes_spec(),
        allowed_classes: Seq::empty(),
        filter_style_properties: None,
        strip_comments: true,
        link_rel: Some("noopener noreferrer"@),
    }
}

/// The tags the default policy keeps.
#[verifier::rlimit(60)]
pub fn default_tags() -> (r: Vec<String>)
    ensures
        r.deep_view() == default_tags_spec(),
{
    let mut r: Vec<String> = Vec::new();
    r.push(s("a"));
    r.push(s("abbr"));
    r.push(s("acronym"));
    r.push(s("area"));
    r.push(s("article"));
    r.push(s("aside"));
    r.push(s("b"));
    r.push(s("bdi"));
    r.push(s("bdo"));
    r.push(s("blockquote"));
    r.push(s("br"));
    r.push(s("caption"));
    r.push(s("center"));
    r.push(s("cite"));
    r.push(s("code"));
    r.push(s("col"));
    r.push(s("colgroup"));
    r.push(s("data"));
    r.push(s("dd"));
    r.push(s("del"));
    r.push(s("details"));
    r.push(s("dfn"));
    r.push(s("div"));
    r.push(s("dl"));
    r.push(s("dt"));
    r.push(s("em"));
    r.push(s("figcaption"));
    r.push(s("figure"));
    r.push(s("footer"));
    r.push(s("h1"));
    r.push(s("h2"));
    r.push(s("h3"));
    r.push(s("h4"));
    r.push(s("h5"));
    r.push(s("h6"));
    r.push(s("header"));
    r.push(s("hgroup"));
    r.push(s("hr"));
    r.push(s("i"));
    r.push(s("img"));
    r.push(s("ins"));
    r.push(s("kbd"));
    r.push(s("li"));
    r.push(s("map"));
    r.push(s("mark"));
    r.push(s("nav"));
    r.push(s("ol"));
    r.push(s("p"));
    r.push(s("pre"));
    r.push(s("q"));
    r.push(s("rp"));
    r.push(s("rt"));
    r.push(s("rtc"));
    r.push(s("ruby"));
    r.push(s("s"));
    r.push(s("samp"));
    r.push(s("small"));
    r.push(s("span"));
    r.push(s("strike"));
    r.push(s("strong"));
    r.push(s("sub"));
    r.push(s("summary"));
    r.push(s("sup"));
    r.push(s("table"));
    r.push(s("tbody"));
    r.push(s("td"));
    r.push(s("th"));
    r.push(s("thead"));
    r.push(s("time"));
    r.push(s("tr"));
    r.push(s("tt"));
    r.push(s("u"));
    r.push(s("ul"));
    r.push(s("var"));
    r.push(s("wbr"));
    assert(r.deep_view() =~~= default_tags_spec());
    r
}

/// The tags the default policy deletes with their whole subtree.
pub fn default_clean_content_tags() -> (r: Vec<String>)
    ensures
        r.deep_view() == default_clean_content_tags_spec(),
{
    let mut r: Vec<String> = Vec::new();
    r.push(s("script"));
    r.push(s("style"));
    assert(r.deep_view() =~~= default_clean_content_tags_spec());
    r
}

/// The attributes the default policy allows on every tag.
pub fn default_generic_attributes() -> (r: Vec<String>)
    ensures
        r.deep_view() == default_generic_attributes_spec(),
{
    let mut r: Vec<String> = Vec::new();
    r.push(s("lang"));
    r.push(s("title"));
    assert(r.deep_view() =~~= default_generic_attributes_spec());
    r
}

/// The URL schemes the default policy permits.
#[verifier::rlimit(60)]
pub fn default_url_schemes() -> (r: Vec<String>)
    ensures
        r.deep_view() == default_url_schemes_spec(),
{
    let mut r: Vec<String> = Vec::new();
    r.push(s("bitcoin"));
    r.push(s("ftp"));
    r.push(s("ftps"));
    r.push(s("geo"));
    r.push(s("http"));
    r.push(s("https"));
    r.push(s("im"));
    r.push(s("irc"));
    r.push(s("ircs"));
    r.push(s("magnet"));
    r.push(s("mailto"));
    r.push(s("mms"));
    r.push(s("mx"));
    r.push(s("news"));
    r.push(s("nntp"));
    r.push(s("openpgp4fpr"));
    r.push(s("sip"));
    r.push(s("sms"));
    r.push(s("smsto"));
    r.push(s("ssh"));
    r.push(s("tel"));
    r.push(s("url"));
    r.push(s("webcal"));
    r.push(s("wtai"));
    r.push(s("xmpp"));
    assert(r.deep_view() =~~= default_url_schemes_spec());
    r
}

/// The per-tag attribute allowlist of the default policy.
#[verifier::rlimit(100)]
pub fn default_tag_attributes() -> (r: Vec<TagAttrs>)
    ensures
        r.deep_view() == default_tag_attributes_spec(),
{
    let mut r: Vec<TagAttrs> = Vec::new();
    let mut e0: Vec<String> = Vec::new();
    e0.push(s("href"));
    e0.push(s("hreflang"));
    assert(e0.deep_view() =~~= default_tag_attributes_spec()[0].attrs);
    r.push(TagAttrs { tag: s("a"), attrs: e0 });
    let mut e1: Vec<String> = Vec::new();
    e1.push(s("dir"));
    assert(e1.deep_view() =~~= default_tag_attributes_spec()[1].attrs);
    r.push(TagAttrs { tag: s("bdo"), attrs: e1 });
    let mut e2: Vec<String> = Vec::new();
    e2.push(s("cite"));
    assert(e2.deep_view() =~~= default_tag_attributes_spec()[2].attrs);
    r.push(TagAttrs { tag: s("blockquote"), attrs: e2 });
    let mut e3: Vec<String> = Vec::new();
    e3.push(s("align"));
    e3.push(s("char"));
    e3.push(s("charoff"));
    e3.push(s("span"));
    assert(e3.deep_view() =~~= default_tag_attributes_spec()[3].attrs);
    r.push(TagAttrs { tag: s("col"), attrs: e3 });
    let mut e4: Vec<String> = Vec::new();
    e4.push(s("align"));
    e4.push(s("char"));
    e4.push(s("charoff"));
    e4.push(s("span"));
    assert(e4.deep_view() =~~= default_tag_attributes_spec()[4].attrs);
    r.push(TagAttrs { tag: s("colgroup"), attrs: e4 });
    let mut e5: Vec<String> = Vec::new();
    e5.push(s("cite"));
    e5.push(s("datetime"));
    assert(e5.deep_view() =~~= default_tag_attributes_spec()[5].attrs);
    r.push(TagAttrs { tag: s("del"), attrs: e5 });
    let mut e6: Vec<String> = Vec::new();
    e6.push(s("align"));
    e6.push(s("size"));
    e6.push(s("width"));
    assert(e6.deep_view() =~~= default_tag_attributes_spec()[6].attrs);
    r.push(TagAttrs { tag: s("hr"), attrs: e6 });
    let mut e7: Vec<String> = Vec::new();
    e7.push(s("align"));
    e7.push(s("alt"));
    e7.push(s("height"));
    e7.push(s("src"));
    e7.push(s("width"));
    assert(e7.deep_view() =~~= default_tag_attributes_spec()[7].attrs);
    r.push(TagAttrs { tag: s("img"), attrs: e7 });
    let mut e8: Vec<String> = Vec::new();
    e8.push(s("cite"));
    e8.push(s("datetime"));
    assert(e8.deep_view() =~~= default_tag_attributes_spec()[8].attrs);
    r.push(TagAttrs { tag: s("ins"), attrs: e8 });
    let mut e9: Vec<String> = Vec::new();
    e9.push(s("start"));
    assert(e9.deep_view() =~~= default_tag_attributes_spec()[9].attrs);
    r.push(TagAttrs { tag: s("ol"), attrs: e9 });
    let mut e10: Vec<String> = Vec::new();
    e10.push(s("cite"));
    assert(e10.deep_view() =~~= default_tag_attributes_spec()[10].attrs);
    r.push(TagAttrs { tag: s("q"), attrs: e10 });
    let mut e11: Vec<String> = Vec::new();
    e11.push(s("align"));
    e11.push(s("char"));
    e11.push(s("charoff"));
    e11.push(s("summary"));
    assert(e11.deep_view() =~~= default_tag_attributes_spec()[11].attrs);
    r.push(TagAttrs { tag: s("table"), attrs: e11 });
    let mut e12: Vec<String> = Vec::new();
    e12.push(s("align"));
    e12.push(s("char"));
    e12.push(s("charoff"));
    assert(e12.deep_view() =~~= default_tag_attributes_spec()[12].attrs);
    r.push(TagAttrs { tag: s("tbody"), attrs: e12 });
    let mut e13: Vec<String> = Vec::new();
    e13.push(s("align"));
    e13.push(s("char"));
    e13.push(s("charoff"));
    e13.push(s("colspan"));
    e13.push(s("headers"));
    e13.push(s("rowspan"));
    assert(e13.deep_view() =~~= default_tag_attributes_spec()[13].attrs);
    r.push(TagAttrs { tag: s("td"), attrs: e13 });
    let mut e14: Vec<String> = Vec::new();
    e14.push(s("align"));
    e14.push(s("char"));
    e14.push(s("charoff"));
    assert(e14.deep_view() =~~= default_tag_attributes_spec()[14].attrs);
    r.push(TagAttrs { tag: s("tfoot"), attrs: e14 });
    let mut e15: Vec<String> = Vec::new();
    e15.push(s("align"));
    e15.push(s("char"));
    e15.push(s("charoff"));
    e15.push(s("colspan"));
    e15.push(s("headers"));
    e15.push(s("rowspan"));
    e15.push(s("scope"));
    assert(e15.deep_view() =~~= default_tag_attributes_spec()[15].attrs);
    r.push(TagAttrs { tag: s("th"), attrs: e15 });
    let mut e16: Vec<String> = Vec::new();
    e16.push(s("align"));
    e16.push(s("char"));
    e16.push(s("charoff"));
    assert(e16.deep_view() =~~= default_tag_attributes_spec()[16].attrs);
    r.push(TagAttrs { tag: s("thead"), attrs: e16 });
    let mut e17: Vec<String> = Vec::new();
    e17.push(s("align"));
    e17.push(s("char"));
    e17.push(s("charoff"));
    assert(e17.deep_view() =~~= default_tag_attributes_spec()[17].attrs);
    r.push(TagAttrs { tag: s("tr"), attrs: e17 });
    assert(r.deep_view() =~~= default_tag_attributes_spec());
    r
}

/// The whole default policy: the conservative base configuration.
pub fn default_policy() -> (r: Policy)
    ensures
        r@ == default_spolicy(),
{
    let r = Policy {
        tags: default_tags(),
        clean_content_tags: default_clean_content_tags(),
        tag_attributes: default_tag_attributes(),
        generic_attributes: default_generic_attributes(),
        generic_attribute_prefixes: Vec::new(),
        tag_attribute_values: Vec::new(),
        set_tag_attribute_values: Vec::new(),
        url_schemes: default_url_schemes(),
        allowed_classes: Vec::new(),
        filter_style_properties: None,
        strip_comments: true,
        link_rel: Some(s("noopener noreferrer")),
    };
    assert(r@.generic_attribute_prefixes =~~= Seq::<Seq<char>>::empty());
    assert(r@.tag_attribute_values =~~= default_spolicy().tag_attribute_values);
    assert(r@.set_tag_attribute_values =~~= default_spolicy().set_tag_attribute_values);
    assert(r@.allowed_classes =~~= default_spolicy().allowed_classes);
    assert(r@ == default_spolicy());
    r
}

/// The default policy is well formed: it has none of the conflicts that
/// construction refuses.
#[verifier::rlimit(100)]
pub proof fn lemma_default_policy_wf()
    ensures
        default_spolicy().wf(),
{
    reveal_strlit("a");
    reveal_strlit("abbr");
    reveal_strlit("acronym");
    reveal_strlit("align");
    reveal_strlit("alt");
    reveal_strlit("area");
    reveal_strlit("article");
    reveal_strlit("aside");
    reveal_strlit("b");
    reveal_strlit("bdi");
    reveal_strlit("bdo");
    reveal_strlit("blockquote");
    reveal_strlit("br");
    reveal_strlit("caption");
    reveal_strlit("center");
    reveal_strlit("char");
    reveal_strlit("charoff");
    reveal_strlit("cite");
    reveal_strlit("code");
    reveal_strlit("col");
    reveal_strlit("colgroup");
    reveal_strlit("colspan");
    reveal_strlit("data");
    reveal_strlit("datetime");
    reveal_strlit("dd");
    reveal_strlit("del");
    reveal_strlit("details");
    reveal_strlit("dfn");
    reveal_strlit("dir");
    reveal_strlit("div");
    reveal_strlit("dl");
    reveal_strlit("dt");
    reveal_strlit("em");
    reveal_strlit("figcaption");
    reveal_strlit("figure");
    reveal_strlit("footer");
    reveal_strlit("h1");
    reveal_strlit("h2");
    reveal_strlit("h3");
    reveal_strlit("h4");
    reveal_strlit("h5");
    reveal_strlit("h6");
    reveal_strlit("header");
    reveal_strlit("headers");
    reveal_strlit("height");
    reveal_strlit("hgroup");
    reveal_strlit("hr");
    reveal_strlit("href");
    reveal_strlit("hreflang");
    reveal_strlit("i");
    reveal_strlit("img");
    reveal_strlit("ins");
    reveal_strlit("kbd");
    reveal_strlit("lang");
    reveal_strlit("li");
    reveal_strlit("map");
    reveal_strlit("mark");
    reveal_strlit("nav");
    reveal_strlit("ol");
    reveal_strlit("p");
    reveal_strlit("pre");
    reveal_strlit("q");
    reveal_strlit("rel");
    reveal_strlit("rowspan");
    reveal_strlit("rp");
    reveal_strlit("rt");
    reveal_strlit("rtc");
    reveal_strlit("ruby");
    reveal_strlit("s");
    reveal_strlit("samp");
    reveal_strlit("scope");
    reveal_strlit("script");
    reveal_strlit("size");
    reveal_strlit("small");
    reveal_strlit("span");
    reveal_strlit("src");
    reveal_strlit("start");
    reveal_strlit("strike");
    reveal_strlit("strong");
    reveal_strlit("style");
    reveal_strlit("sub");
    reveal_strlit("summary");
    reveal_strlit("sup");
    reveal_strlit("table");
    reveal_strlit("tbody");
    reveal_strlit("td");
    reveal_strlit("tfoot");
    reveal_strlit("th");
    reveal_strlit("thead");
    reveal_strlit("time");
    reveal_strlit("title");
    reveal_strlit("tr");
    reveal_strlit("tt");
    reveal_strlit("u");
    reveal_strlit("ul");
    reveal_strlit("var");
    reveal_strlit("wbr");
    reveal_strlit("width");
    assert("a"@.len() == 1 && "abbr"@.len() == 4 && "acronym"@.len() == 7 && "align"@.len() == 5);
    assert("alt"@.len() == 3 && "area"@.len() == 4 && "article"@.len() == 7 && "aside"@.len() == 5);
    assert("b"@.len() == 1 && "bdi"@.len() == 3 && "bdo"@.len() == 3 && "blockquote"@.len() == 10);
    assert("br"@.len() == 2 && "caption"@.len() == 7 && "center"@.len() == 6 && "char"@.len() == 4);
    assert("charoff"@.len() == 7 && "cite"@.len() == 4 && "code"@.len() == 4 && "col"@.len() == 3);
    assert("colgroup"@.len() == 8 && "colspan"@.len() == 7 && "data"@.len() == 4 && "datetime"@.len() == 8);
    assert("dd"@.len() == 2 && "del"@.len() == 3 && "details"@.len() == 7 && "dfn"@.len() == 3);
    assert("dir"@.len() == 3 && "div"@.len() == 3 && "dl"@.len() == 2 && "dt"@.len() == 2);
    assert("em"@.len() == 2 && "figcaption"@.len() == 10 && "figure"@.len() == 6 && "footer"@.len() == 6);
    assert("h1"@.len() == 2 && "h2"@.len() == 2 && "h3"@.len() == 2 && "h4"@.len() == 2);
    assert("h5"@.len() == 2 && "h6"@.len() == 2 && "header"@.len() == 6 && "headers"@.len() == 7);
    assert("height"@.len() == 6 && "hgroup"@.len() == 6 && "hr"@.len() == 2 && "href"@.len() == 4);
    assert("hreflang"@.len() == 8 && "i"@.len() == 1 && "img"@.len() == 3 && "ins"@.len() == 3);
    assert("kbd"@.len() == 3 && "lang"@.len() == 4 && "li"@.len() == 2 && "map"@.len() == 3);
    assert("mark"@.len() == 4 && "nav"@.len() == 3 && "ol"@.len() == 2 && "p"@.len() == 1);
    assert("pre"@.len() == 3 && "q"@.len() == 1 && "rel"@.len() == 3 && "rowspan"@.len() == 7);
    assert("rp"@.len() == 2 && "rt"@.len() == 2 && "rtc"@.len() == 3 && "ruby"@.len() == 4);
    assert("s"@.len() == 1 && "samp"@.len() == 4 && "scope"@.len() == 5 && "script"@.len() == 6);
    assert("size"@.len() == 4 && "small"@.len() == 5 && "span"@.len() == 4 && "src"@.len() == 3);
    assert("start"@.len() == 5 && "strike"@.len() == 6 && "strong"@.len() == 6 && "style"@.len() == 5);
    assert("sub"@.len() == 3 && "summary"@.len() == 7 && "sup"@.len() == 3 && "table"@.len() == 5);
    assert("tbody"@.len() == 5 && "td"@.len() == 2 && "tfoot"@.len() == 5 && "th"@.len() == 2);
    assert("thead"@.len() == 5 && "time"@.len() == 4 && "title"@.len() == 5 && "tr"@.len() == 2);
    assert("tt"@.len() == 2 && "u"@.len() == 1 && "ul"@.len() == 2 && "var"@.len() == 3);
    assert("wbr"@.len() == 3 && "width"@.len() == 5);
    assert("script"@[1] == 'c');
    assert("strike"@[1] == 't');
    assert("strong"@[1] == 't');
    assert("script"@[0] == 's');
    assert("header"@[0] == 'h');
    assert("figure"@[0] == 'f');
    assert("footer"@[0] == 'f');
    assert("height"@[0] == 'h');
    assert("center"@[0] == 'c');
    assert("hgroup"@[0] == 'h');
    assert("style"@[2] == 'y');
    assert("start"@[2] == 'a');
    assert("style"@[0] == 's');
    assert("tbody"@[0] == 't');
    assert("style"@[1] == 't');
    assert("scope"@[1] == 'c');
    assert("thead"@[0] == 't');
    assert("aside"@[0] == 'a');
    assert("width"@[0] == 'w');
    assert("table"@[0] == 't');
    assert("tfoot"@[0] == 't');
    assert("align"@[0] == 'a');
    assert("small"@[1] == 'm');
    assert("rel"@[0] == 'r');
    assert("sup"@[0] == 's');
    assert("nav"@[0] == 'n');
    assert("bdi"@[0] == 'b');
    assert("col"@[0] == 'c');
    assert("dfn"@[0] == 'd');
    assert("wbr"@[0] == 'w');
    assert("rel"@[1] == 'e');
    assert("rtc"@[1] == 't');
    assert("var"@[0] == 'v');
    assert("src"@[0] == 's');
    assert("dir"@[0] == 'd');
    assert("pre"@[0] == 'p');
    assert("alt"@[0] == 'a');
    assert("div"@[0] == 'd');
    assert("bdo"@[0] == 'b');
    assert("kbd"@[0] == 'k');
    assert("del"@[0] == 'd');
    assert("sub"@[0] == 's');
    assert("img"@[0] == 'i');
    assert("map"@[0] == 'm');
    assert("ins"@[0] == 'i');
    let p = default_spolicy();
    assert forall|i: int| 0 <= i < p.generic_attributes.len() implies (
    #[trigger] p.generic_attributes[i]) != "rel"@ by {
        assert(p.generic_attributes[0] == "lang"@);
        assert(p.generic_attributes[1] == "title"@);
    }
    assert(!p.generic_attributes.contains("rel"@));
    assert forall|i: int| 0 <= i < p.tag_attributes.len() implies !(
    #[trigger] p.tag_attributes[i]).attrs.contains("rel"@) && p.tag_attributes[i].tag != "script"@
        && p.tag_attributes[i].tag != "style"@ by {
        assert forall|j: int| 0 <= j < p.tag_attributes[i].attrs.len() implies (
        #[trigger] p.tag_attributes[i].attrs[j]) != "rel"@ by {}
    }
    assert(!p.tag_attr_listed("a"@, "rel"@));
    assert(p.rel_ok());
    assert(p.class_ok());
    assert forall|i: int| 0 <= i < p.tags.len() implies (#[trigger] p.tags[i]) != "script"@
        && p.tags[i] != "style"@ by {}
    assert(!p.tags.contains("script"@));
    assert(!p.tags.contains("style"@));
    assert(!p.tag_attrs_has_tag("script"@));
    assert(!p.tag_attrs_has_tag("style"@));
    assert forall|i: int| 0 <= i < p.clean_content_tags.len() implies !p.tags.contains(
        #[trigger] p.clean_content_tags[i],
    ) && !p.tag_attrs_has_tag(p.clean_content_tags[i]) by {
        assert(p.clean_content_tags[i] == "script"@ || p.clean_content_tags[i] == "style"@);
    }
    assert(p.clean_content_ok());
    assert(p.style_ok());
}

/// The default policy meets the idempotence premises: nothing is forced
/// but the link `rel`, whose name the allowlists do not admit, and no
/// literal-value allowlist constrains a rewritten attribute.
pub proof fn lemma_default_policy_stable()
    ensures
        crate::laws::forced_not_admitted(default_spolicy()),
        crate::laws::forced_distinct(default_spolicy()),
        crate::laws::no_values_on_rewritten(default_spolicy()),
{
    lemma_default_policy_wf();
    let p = default_spolicy();
    reveal_strlit("rel");
    reveal_strlit("class");
    assert("rel"@.len() == 3 && "class"@.len() == 5);
    assert(!p.attr_name_allowed("a"@, "rel"@));
    assert forall|tag: Seq<char>| #[trigger] p.tag_allowed(tag) implies (p.classes_for(tag) is Some
        ==> p.values_for(tag, "class"@) is None) && (p.filter_style_properties is Some
        ==> p.values_for(tag, "style"@) is None) by {
        assert(p.tag_attribute_values.len() == 0);
        assert(p.values_for(tag, "class"@) is None);
        assert(p.values_for(tag, "style"@) is None);
    }
}

/// Sanitizing with the default policy is idempotent at the tree level:
/// walking a walked forest changes nothing.
pub proof fn lemma_default_clean_idempotent(ns: Seq<crate::node::SNode>)
    ensures
        crate::walker::clean_nodes(
            default_spolicy(),
            crate::filter::identity_hook(),
            crate::walker::clean_nodes(
                default_spolicy(),
                crate::filter::identity_hook(),
                ns,
            ),
        ) == crate::walker::clean_nodes(
            default_spolicy(),
            crate::filter::identity_hook(),
            ns,
        ),
{
    lemma_default_policy_wf();
    lemma_default_policy_stable();
    crate::laws::lemma_sanitize_idempotent_no_hook(default_spolicy(), ns);
}

} // verus!
