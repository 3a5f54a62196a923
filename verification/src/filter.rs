//! The attribute filter hook: an optional caller-supplied rewrite step,
//! consulted once per attribute after all static policy checks have
//! passed. It can only further restrict or rewrite an attribute that the
//! policy already admitted; it can never re-admit one.

use vstd::prelude::*;

use crate::classes::split_ws;
use crate::classes::split_ws_exec;
use crate::strutil::str_eq;

verus! {

broadcast use vstd::seq::group_seq_axioms, vstd::std_specs::vec::group_vec_axioms;

/// The mathematical shape of a hook: from tag name, attribute name and
/// value to a replacement value, or nothing to drop the attribute.
pub type SHook = spec_fn(Seq<char>, Seq<char>, Seq<char>) -> Option<Seq<char>>;

/// The hook that leaves every attribute unchanged.
pub open spec fn identity_hook() -> SHook {
    |t: Seq<char>, a: Seq<char>, v: Seq<char>| Some(v)
}

/// A per-attribute rewrite hook. Each implementation computes one fixed
/// mathematical function of the tag name, attribute name and value.
pub trait AttrFilter {
    /// The function this hook computes.
    spec fn hook(&self) -> SHook;

    /// Rewrite one attribute value, or drop the attribute.
    fn filter(&self, tag: &str, attr: &str, value: &str) -> (r: Option<String>)
        ensures
            match r {
                Some(s) => self.hook()(tag@, attr@, value@) == Some(s@),
                None => self.hook()(tag@, attr@, value@) is None,
            },
    ;
}

/// The hook that rewrites nothing: sanitizing with it applies the static
/// policy alone.
pub struct NoFilter {}

impl AttrFilter for NoFilter {
    open spec fn hook(&self) -> SHook {
        identity_hook()
    }

    fn filter(&self, tag: &str, attr: &str, value: &str) -> (r: Option<String>) {
        Some(value.to_owned())
    }
}

/// A hook that pins one attribute of one tag to a single token: where tag
/// and attribute match, the value is replaced by the token when the token
/// is among the value's whitespace-separated tokens, and the attribute is
/// dropped otherwise; every other attribute passes unchanged.
pub struct TokenFilter {
    pub tag: String,
    pub attr: String,
    pub token: String,
}

impl AttrFilter for TokenFilter {
    open spec fn hook(&self) -> SHook {
        |t: Seq<char>, a: Seq<char>, v: Seq<char>|
            if t == self.tag@ && a == self.attr@ {
                if split_ws(v).contains(self.token@) {
                    Some(self.token@)
                } else {
                    None
                }
            } else {
                Some(v)
            }
    }

    fn filter(&self, tag: &str, attr: &str, value: &str) -> (r: Option<String>) {
        if str_eq(tag, self.tag.as_str()) && str_eq(attr, self.attr.as_str()) {
            let ts = split_ws_exec(value);
            if crate::strutil::contains_string(&ts, &self.token) {
                proof {
                    let ts_dv = ts.deep_view();
                    assert(ts_dv.contains(self.token@) == split_ws(value@).contains(self.token@));
                }
                Some(self.token.clone())
            } else {
                None
            }
        } else {
            Some(value.to_owned())
        }
    }
}

} // verus!
