//! Escaping of plain text for safe inclusion in HTML content: every
//! character with meaning to the HTML parser — markup delimiters, quotes,
//! entity starters, and the characters that could end an unquoted
//! attribute value — is replaced by an entity or numeric character
//! reference; all other characters pass through verbatim.

use vstd::prelude::*;

use crate::strutil::chars_of;
use vstd::string::StringExecFns;

verus! {

broadcast use vstd::seq::group_seq_axioms, vstd::std_specs::vec::group_vec_axioms;

/// The replacement for one character.
pub open spec fn escape_char(c: char) -> Seq<char> {
    if c == '<' {
        "&lt;"@
    } else if c == '>' {
        "&gt;"@
    } else if c == '"' {
        "&quot;"@
    } else if c == '\'' {
        "&apos;"@
    } else if c == '`' {
        "&grave;"@
    } else if c == '/' {
        "&#47;"@
    } else if c == '&' {
        "&amp;"@
    } else if c == '=' {
        "&#61;"@
    } else if c == ' ' {
        "&#32;"@
    } else if c == '\t' {
        "&#9;"@
    } else if c == '\n' {
        "&#10;"@
    } else if c == '\u{c}' {
        "&#12;"@
    } else if c == '\r' {
        "&#13;"@
    } else if c == '\u{0}' {
        "&#65533;"@
    } else {
        seq![c]
    }
}

/// The escaped form of a text: each character's replacement, in order.
pub open spec fn escape_text(s: Seq<char>) -> Seq<char>
    decreases s.len(),
{
    if s.len() == 0 {
        Seq::empty()
    } else {
        escape_char(s[0]) + escape_text(s.drop_first())
    }
}

/// Turn an arbitrary string into unformatted HTML text: every character
/// with special meaning to the HTML parser is escaped. A pure one-way
/// transform with no policy; not a sanitizer.
pub fn clean_text(src: &str) -> (r: String)
    ensures
        r@ == escape_text(src@),
{
    let cs = chars_of(src);
    let mut r = String::new();
    let mut i: usize = 0;
    assert(src@.skip(0) =~= src@);
    while i < cs.len()
        invariant
            i <= cs.len(),
            cs@ == src@,
            escape_text(src@) == r@ + escape_text(src@.skip(i as int)),
        decreases cs.len() - i,
    {
        let ghost rest = src@.skip(i as int);
        assert(rest[0] == src@[i as int]);
        assert(rest.drop_first() =~= src@.skip(i + 1));
        let c = cs[i];
        let ghost old_r = r@;
        if c == '<' {
            r.append("&lt;");
        } else if c == '>' {
            r.append("&gt;");
        } else if c == '"' {
            r.append("&quot;");
        } else if c == '\'' {
            r.append("&apos;");
        } else if c == '`' {
            r.append("&grave;");
        } else if c == '/' {
            r.append("&#47;");
        } else if c == '&' {
            r.append("&amp;");
        } else if c == '=' {
            r.append("&#61;");
        } else if c == ' ' {
            r.append("&#32;");
        } else if c == '\t' {
            r.append("&#9;");
        } else if c == '\n' {
            r.append("&#10;");
        } else if c == '\u{c}' {
            r.append("&#12;");
        } else if c == '\r' {
            r.append("&#13;");
        } else if c == '\u{0}' {
            r.append("&#65533;");
        } else {
            crate::strutil::push_char(&mut r, c);
            assert(r@ =~= old_r + seq![c]);
        }
        assert(r@ == old_r + escape_char(rest[0]));
        i = i + 1;
    }
    assert(src@.skip(i as int).len() == 0);
    assert(r@ =~= escape_text(src@));
    r
}

} // verus!
