//! The sanitization policy: closed-world allowlists that decide which
//! elements, attributes, attribute values, class tokens and style
//! properties survive.
//!
//! A [`Policy`] is plain data; its mathematical model is [`SPolicy`], over
//! sequences of characters. Lookup is first-match over the entry lists, so
//! a policy with duplicate keys still has one deterministic meaning.

use vstd::prelude::*;

use crate::strutil::contains_string;
use crate::strutil::str_starts_with;

verus! {

broadcast use vstd::seq::group_seq_axioms, vstd::std_specs::vec::group_vec_axioms;

/// The attribute names allowed on one tag.
#[derive(Debug, Clone, PartialEq, Eq)]
pub struct TagAttrs {
    pub tag: String,
    pub attrs: Vec<String>,
}

/// The literal values allowed for one attribute of one tag.
#[derive(Debug, Clone, PartialEq, Eq)]
pub struct TagAttrValues {
    pub tag: String,
    pub attr: String,
    pub values: Vec<String>,
}

/// An attribute forced to a fixed value on one tag.
#[derive(Debug, Clone, PartialEq, Eq)]
pub struct ForcedAttr {
    pub tag: String,
    pub attr: String,
    pub value: String,
}

/// The class tokens allowed on one tag.
#[derive(Debug, Clone, PartialEq, Eq)]
pub struct TagClasses {
    pub tag: String,
    pub classes: Vec<String>,
}

/// Model of [`TagAttrs`].
pub struct STagAttrs {
    pub tag: Seq<char>,
    pub attrs: Seq<Seq<char>>,
}

/// Model of [`TagAttrValues`].
pub struct STagAttrValues {
    pub tag: Seq<char>,
    pub attr: Seq<char>,
    pub values: Seq<Seq<char>>,
}

/// Model of [`ForcedAttr`].
pub struct SForcedAttr {
    pub tag: Seq<char>,
    pub attr: Seq<char>,
    pub value: Seq<char>,
}

/// Model of [`TagClasses`].
pub struct STagClasses {
    pub tag: Seq<char>,
    pub classes: Seq<Seq<char>>,
}

impl View for TagAttrs {
    type V = STagAttrs;

    open spec fn view(&self) -> STagAttrs {
        STagAttrs { tag: self.tag@, attrs: self.attrs.deep_view() }
    }
}

impl DeepView for TagAttrs {
    type V = STagAttrs;

    open spec fn deep_view(&self) -> STagAttrs {
        self.view()
    }
}

impl View for TagAttrValues {
    type V = STagAttrValues;

    open spec fn view(&self) -> STagAttrValues {
        STagAttrValues { tag: self.tag@, attr: self.attr@, values: self.values.deep_view() }
    }
}

impl DeepView for TagAttrValues {
    type V = STagAttrValues;

    open spec fn deep_view(&self) -> STagAttrValues {
        self.view()
    }
}

impl View for ForcedAttr {
    type V = SForcedAttr;

    open spec fn view(&self) -> SForcedAttr {
        SForcedAttr { tag: self.tag@, attr: self.attr@, value: self.value@ }
    }
}

impl DeepView for ForcedAttr {
    type V = SForcedAttr;

    open spec fn deep_view(&self) -> SForcedAttr {
        self.view()
    }
}

impl View for TagClasses {
    type V = STagClasses;

    open spec fn view(&self) -> STagClasses {
        STagClasses { tag: self.tag@, classes: self.classes.deep_view() }
    }
}

impl DeepView for TagClasses {
    type V = STagClasses;

    open spec fn deep_view(&self) -> STagClasses {
        self.view()
    }
}

/// A sanitization policy. All sets are closed-world allowlists: absence
/// means deny.
#[derive(Debug, Clone, PartialEq, Eq)]
pub struct Policy {
    /// Tags that are kept. A tag absent from here is unwrapped (children
    /// promoted), unless it is in `clean_content_tags`.
    pub tags: Vec<String>,
    /// Tags removed together with their whole subtree.
    pub clean_content_tags: Vec<String>,
    /// Per-tag attribute allowlist.
    pub tag_attributes: Vec<TagAttrs>,
    /// Attributes allowed on every tag.
    pub generic_attributes: Vec<String>,
    /// Name prefixes allowed on every tag (covers families such as `data-`).
    pub generic_attribute_prefixes: Vec<String>,
    /// Per-tag, per-attribute allowed literal values.
    pub tag_attribute_values: Vec<TagAttrValues>,
    /// Per-tag attributes forced to a fixed value, added if absent.
    pub set_tag_attribute_values: Vec<ForcedAttr>,
    /// URL schemes permitted on URL-bearing attributes.
    pub url_schemes: Vec<String>,
    /// Per-tag allowed `class` tokens.
    pub allowed_classes: Vec<TagClasses>,
    /// When present, `style` attribute declarations are kept only for these
    /// property names.
    pub filter_style_properties: Option<Vec<String>>,
    /// Whether comment nodes are deleted.
    pub strip_comments: bool,
    /// When present, this value is forced onto the `rel` attribute of `a`
    /// elements.
    pub link_rel: Option<String>,
}

/// Model of [`Policy`].
pub struct SPolicy {
    pub tags: Seq<Seq<char>>,
    pub clean_content_tags: Seq<Seq<char>>,
    pub tag_attributes: Seq<STagAttrs>,
    pub generic_attributes: Seq<Seq<char>>,
    pub generic_attribute_prefixes: Seq<Seq<char>>,
    pub tag_attribute_values: Seq<STagAttrValues>,
    pub set_tag_attribute_values: Seq<SForcedAttr>,
    pub url_schemes: Seq<Seq<char>>,
    pub allowed_classes: Seq<STagClasses>,
    pub filter_style_properties: Option<Seq<Seq<char>>>,
    pub strip_comments: bool,
    pub link_rel: Option<Seq<char>>,
}

impl View for Policy {
    type V = SPolicy;

    open spec fn view(&self) -> SPolicy {
        SPolicy {
            tags: self.tags.deep_view(),
            clean_content_tags: self.clean_content_tags.deep_view(),
            tag_attributes: self.tag_attributes.deep_view(),
            generic_attributes: self.generic_attributes.deep_view(),
            generic_attribute_prefixes: self.generic_attribute_prefixes.deep_view(),
            tag_attribute_values: self.tag_attribute_values.deep_view(),
            set_tag_attribute_values: self.set_tag_attribute_values.deep_view(),
            url_schemes: self.url_schemes.deep_view(),
            allowed_classes: self.allowed_classes.deep_view(),
            filter_style_properties: self.filter_style_properties.deep_view(),
            strip_comments: self.strip_comments,
            link_rel: self.link_rel.deep_view(),
        }
    }
}

/// First entry of `entries` for `tag`, if any: the allowed class tokens.
pub open spec fn lookup_classes_spec(entries: Seq<STagClasses>, tag: Seq<char>) -> Option<
    Seq<Seq<char>>,
>
    decreases entries,
{
    if entries.len() == 0 {
        None
    } else if entries[0].tag == tag {
        Some(entries[0].classes)
    } else {
        lookup_classes_spec(entries.drop_first(), tag)
    }
}

/// First entry of `entries` for `(tag, attr)`, if any: the allowed values.
pub open spec fn lookup_attr_values_spec(
    entries: Seq<STagAttrValues>,
    tag: Seq<char>,
    attr: Seq<char>,
) -> Option<Seq<Seq<char>>>
    decreases entries,
{
    if entries.len() == 0 {
        None
    } else if entries[0].tag == tag && entries[0].attr == attr {
        Some(entries[0].values)
    } else {
        lookup_attr_values_spec(entries.drop_first(), tag, attr)
    }
}

impl SPolicy {
    /// Whether elements with this tag are kept.
    pub open spec fn tag_allowed(self, tag: Seq<char>) -> bool {
        self.tags.contains(tag)
    }

    /// Whether elements with this tag are deleted with their whole subtree
    /// when the tag is not allowed.
    pub open spec fn is_clean_content(self, tag: Seq<char>) -> bool {
        self.clean_content_tags.contains(tag)
    }

    /// Whether `attr` is in the tag-specific allowlist of `tag`.
    pub open spec fn tag_attr_listed(self, tag: Seq<char>, attr: Seq<char>) -> bool {
        exists|i: int|
            0 <= i < self.tag_attributes.len() && self.tag_attributes[i].tag == tag
                && self.tag_attributes[i].attrs.contains(attr)
    }

    /// Whether some allowed generic prefix starts `attr`.
    pub open spec fn prefix_allowed(self, attr: Seq<char>) -> bool {
        exists|i: int|
            0 <= i < self.generic_attribute_prefixes.len()
                && self.generic_attribute_prefixes[i].is_prefix_of(attr)
    }

    /// The allowed class tokens for `tag`, if class filtering applies to it.
    pub open spec fn classes_for(self, tag: Seq<char>) -> Option<Seq<Seq<char>>> {
        lookup_classes_spec(self.allowed_classes, tag)
    }

    /// The allowed literal values for `(tag, attr)`, if restricted.
    pub open spec fn values_for(self, tag: Seq<char>, attr: Seq<char>) -> Option<Seq<Seq<char>>> {
        lookup_attr_values_spec(self.tag_attribute_values, tag, attr)
    }

    /// Whether an attribute name survives the name allowlist on `tag`:
    /// listed for the tag, generic, admitted by a generic prefix, or the
    /// `class` attribute of a tag with class filtering.
    pub open spec fn attr_name_allowed(self, tag: Seq<char>, attr: Seq<char>) -> bool {
        ||| self.tag_attr_listed(tag, attr)
        ||| self.generic_attributes.contains(attr)
        ||| self.prefix_allowed(attr)
        ||| (attr == "class"@ && self.classes_for(tag) is Some)
    }
}

impl Policy {
    /// Whether elements with this tag are kept.
    pub fn tag_allowed(&self, tag: &String) -> (r: bool)
        ensures
            r == self@.tag_allowed(tag@),
    {
        contains_string(&self.tags, tag)
    }

    /// Whether this tag is deleted with its whole subtree when disallowed.
    pub fn is_clean_content(&self, tag: &String) -> (r: bool)
        ensures
            r == self@.is_clean_content(tag@),
    {
        contains_string(&self.clean_content_tags, tag)
    }

    /// Whether `attr` is in the tag-specific allowlist of `tag`.
    fn tag_attr_listed(&self, tag: &String, attr: &String) -> (r: bool)
        ensures
            r == self@.tag_attr_listed(tag@, attr@),
    {
        let mut i: usize = 0;
        while i < self.tag_attributes.len()
            invariant
                i <= self.tag_attributes.len(),
                forall|j: int|
                    0 <= j < i ==> !(self@.tag_attributes[j].tag == tag@
                        && self@.tag_attributes[j].attrs.contains(attr@)),
            decreases self.tag_attributes.len() - i,
        {
            assert(self@.tag_attributes[i as int] == self.tag_attributes@[i as int]@);
            let entry = &self.tag_attributes[i];
            if entry.tag.eq(tag) && contains_string(&entry.attrs, attr) {
                return true;
            }
            i = i + 1;
        }
        false
    }

    /// Whether some allowed generic prefix starts `attr`.
    fn prefix_allowed(&self, attr: &String) -> (r: bool)
        ensures
            r == self@.prefix_allowed(attr@),
    {
        let mut i: usize = 0;
        while i < self.generic_attribute_prefixes.len()
            invariant
                i <= self.generic_attribute_prefixes.len(),
                forall|j: int|
                    0 <= j < i ==> !self@.generic_attribute_prefixes[j].is_prefix_of(attr@),
            decreases self.generic_attribute_prefixes.len() - i,
        {
            assert(self@.generic_attribute_prefixes[i as int]
                == self.generic_attribute_prefixes@[i as int]@);
            if str_starts_with(attr.as_str(), self.generic_attribute_prefixes[i].as_str()) {
                return true;
            }
            i = i + 1;
        }
        false
    }

    /// The allowed class tokens for `tag`, if class filtering applies to it.
    pub fn classes_for(&self, tag: &String) -> (r: Option<&Vec<String>>)
        ensures
            match r {
                Some(cs) => self@.classes_for(tag@) == Some(cs.deep_view()),
                None => self@.classes_for(tag@) is None,
            },
    {
        assert(self@.allowed_classes.skip(0) =~= self@.allowed_classes);
        let mut i: usize = 0;
        while i < self.allowed_classes.len()
            invariant
                i <= self.allowed_classes.len(),
                lookup_classes_spec(self@.allowed_classes, tag@) == lookup_classes_spec(
                    self@.allowed_classes.skip(i as int),
                    tag@,
                ),
                forall|j: int| 0 <= j < i ==> self@.allowed_classes[j].tag != tag@,
            decreases self.allowed_classes.len() - i,
        {
            assert(self@.allowed_classes[i as int] == self.allowed_classes@[i as int]@);
            let entry = &self.allowed_classes[i];
            if entry.tag.eq(tag) {
                assert(self@.allowed_classes.skip(i as int)[0] == self@.allowed_classes[i as int]);
                return Some(&entry.classes);
            }
            assert(self@.allowed_classes.skip(i as int).drop_first() =~= self@.allowed_classes.skip(
                i + 1,
            ));
            assert(self@.allowed_classes.skip(i as int)[0] == self@.allowed_classes[i as int]);
            i = i + 1;
        }
        assert(self@.allowed_classes.skip(i as int).len() == 0);
        None
    }

    /// The allowed literal values for `(tag, attr)`, if restricted.
    pub fn values_for(&self, tag: &String, attr: &String) -> (r: Option<&Vec<String>>)
        ensures
            match r {
                Some(vs) => self@.values_for(tag@, attr@) == Some(vs.deep_view()),
                None => self@.values_for(tag@, attr@) is None,
            },
    {
        assert(self@.tag_attribute_values.skip(0) =~= self@.tag_attribute_values);
        let mut i: usize = 0;
        while i < self.tag_attribute_values.len()
            invariant
                i <= self.tag_attribute_values.len(),
                lookup_attr_values_spec(self@.tag_attribute_values, tag@, attr@)
                    == lookup_attr_values_spec(
                    self@.tag_attribute_values.skip(i as int),
                    tag@,
                    attr@,
                ),
            decreases self.tag_attribute_values.len() - i,
        {
            assert(self@.tag_attribute_values[i as int] == self.tag_attribute_values@[i as int]@);
            let entry = &self.tag_attribute_values[i];
            assert(self@.tag_attribute_values.skip(i as int)[0]
                == self@.tag_attribute_values[i as int]);
            if entry.tag.eq(tag) && entry.attr.eq(attr) {
                return Some(&entry.values);
            }
            assert(self@.tag_attribute_values.skip(i as int).drop_first()
                =~= self@.tag_attribute_values.skip(i + 1));
            i = i + 1;
        }
        assert(self@.tag_attribute_values.skip(i as int).len() == 0);
        None
    }

    /// Whether an attribute name survives the name allowlist on `tag`.
    pub fn attr_name_allowed(&self, tag: &String, attr: &String) -> (r: bool)
        ensures
            r == self@.attr_name_allowed(tag@, attr@),
    {
        if self.tag_attr_listed(tag, attr) {
            return true;
        }
        if contains_string(&self.generic_attributes, attr) {
            return true;
        }
        if self.prefix_allowed(attr) {
            return true;
        }
        if crate::strutil::str_eq(attr.as_str(), "class") {
            if let Some(_) = self.classes_for(tag) {
                return true;
            }
        }
        false
    }
}

} // verus!
