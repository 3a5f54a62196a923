//! Filtering of `style` attribute values.
//!
//! The value is read as a CSS declaration list: pieces separated by `;`,
//! each `property: value`. A declaration survives when its property name
//! is a well-formed identifier on the allowlist and its value is plain:
//! non-empty, free of `;` and braces everywhere (a `;` even inside a
//! quoted string is refused, since splitting does not look into quotes),
//! with any quoted strings properly closed. Anything else — at-rules,
//! nested blocks, malformed declarations — is dropped, erring on the side
//! of removal. Surviving declarations are re-serialized in their original
//! order, separated by `; `.

use vstd::prelude::*;

use crate::classes::is_ascii_ws;
use crate::strutil::contains_string;
use crate::strutil::string_of;

verus! {

broadcast use vstd::seq::group_seq_axioms, vstd::std_specs::vec::group_vec_axioms;

/// One CSS declaration: a property name and a value.
pub struct SDecl {
    pub name: Seq<char>,
    pub value: Seq<char>,
}

/// The pending piece `cur` followed by `rest`, split on `;`.
pub open spec fn split_semi_pending(cur: Seq<char>, rest: Seq<char>) -> Seq<Seq<char>>
    decreases rest.len(),
{
    if rest.len() == 0 {
        seq![cur]
    } else if rest[0] == ';' {
        seq![cur] + split_semi_pending(Seq::empty(), rest.drop_first())
    } else {
        split_semi_pending(cur.push(rest[0]), rest.drop_first())
    }
}

/// The `;`-separated pieces of a string, empty pieces kept.
pub open spec fn split_semi(s: Seq<char>) -> Seq<Seq<char>> {
    split_semi_pending(Seq::empty(), s)
}

/// The string without leading ASCII whitespace.
pub open spec fn trim_start(s: Seq<char>) -> Seq<char>
    decreases s.len(),
{
    if s.len() > 0 && is_ascii_ws(s[0]) {
        trim_start(s.drop_first())
    } else {
        s
    }
}

/// The string without trailing ASCII whitespace.
pub open spec fn trim_end(s: Seq<char>) -> Seq<char>
    decreases s.len(),
{
    if s.len() > 0 && is_ascii_ws(s.last()) {
        trim_end(s.drop_last())
    } else {
        s
    }
}

/// The string without leading or trailing ASCII whitespace.
pub open spec fn trim(s: Seq<char>) -> Seq<char> {
    trim_end(trim_start(s))
}

/// The position of the first `:`, if any.
pub open spec fn find_colon(s: Seq<char>) -> Option<int>
    decreases s.len(),
{
    if s.len() == 0 {
        None
    } else if s[0] == ':' {
        Some(0)
    } else {
        match find_colon(s.drop_first()) {
            Some(k) => Some(k + 1),
            None => None,
        }
    }
}

/// A character a CSS identifier may hold.
pub open spec fn ident_char(c: char) -> bool {
    ('a' <= c && c <= 'z') || ('A' <= c && c <= 'Z') || ('0' <= c && c <= '9') || c == '-' || c
        == '_'
}

/// A well-formed property name: non-empty, identifier characters only.
/// At-rules fail this (`@` is no identifier character), as does any name
/// holding a brace, quote or other punctuation.
pub open spec fn valid_name(s: Seq<char>) -> bool {
    s.len() > 0 && forall|i: int| 0 <= i < s.len() ==> ident_char(#[trigger] s[i])
}

/// A character a plain declaration value may hold: anything but the
/// separator and braces.
pub open spec fn value_char_ok(c: char) -> bool {
    c != ';' && c != '{' && c != '}'
}

/// Quoting state while reading a declaration value.
pub enum QuoteState {
    Outside,
    InDouble,
    InSingle,
}

/// The quoting state after one more character.
pub open spec fn quote_step(st: QuoteState, c: char) -> QuoteState {
    match st {
        QuoteState::Outside => if c == '"' {
            QuoteState::InDouble
        } else if c == '\'' {
            QuoteState::InSingle
        } else {
            QuoteState::Outside
        },
        QuoteState::InDouble => if c == '"' {
            QuoteState::Outside
        } else {
            QuoteState::InDouble
        },
        QuoteState::InSingle => if c == '\'' {
            QuoteState::Outside
        } else {
            QuoteState::InSingle
        },
    }
}

/// The quoting state after reading the whole string.
pub open spec fn quote_state_after(st: QuoteState, s: Seq<char>) -> QuoteState
    decreases s.len(),
{
    if s.len() == 0 {
        st
    } else {
        quote_state_after(quote_step(st, s[0]), s.drop_first())
    }
}

/// Whether every quoted string in the value is properly closed.
pub open spec fn quotes_balanced(s: Seq<char>) -> bool {
    quote_state_after(QuoteState::Outside, s) == QuoteState::Outside
}

/// A plain declaration value: non-empty, free of separators and braces,
/// its quoted strings closed. Nested blocks and unterminated strings
/// fail this.
pub open spec fn valid_value(s: Seq<char>) -> bool {
    s.len() > 0 && quotes_balanced(s) && forall|i: int|
        0 <= i < s.len() ==> value_char_ok(#[trigger] s[i])
}

/// The declaration one `;`-separated piece holds, if it is well formed.
pub open spec fn parse_decl(seg: Seq<char>) -> Option<SDecl> {
    let t = trim(seg);
    match find_colon(t) {
        None => None,
        Some(k) => {
            let name = trim_end(t.take(k));
            let value = trim(t.skip(k + 1));
            if valid_name(name) && valid_value(value) {
                Some(SDecl { name, value })
            } else {
                None
            }
        },
    }
}

/// The well-formed declarations of the pieces whose names are allowed,
/// in order.
pub open spec fn filter_decls(segs: Seq<Seq<char>>, allowed: Seq<Seq<char>>) -> Seq<SDecl>
    decreases segs.len(),
{
    if segs.len() == 0 {
        Seq::empty()
    } else {
        (match parse_decl(segs[0]) {
            Some(d) => if allowed.contains(d.name) {
                seq![d]
            } else {
                Seq::<SDecl>::empty()
            },
            None => Seq::<SDecl>::empty(),
        }) + filter_decls(segs.drop_first(), allowed)
    }
}

/// One rendered declaration: `name:value`.
pub open spec fn render_decl(d: SDecl) -> Seq<char> {
    d.name + seq![':'] + d.value
}

/// The declarations after the first, each preceded by `; `.
pub open spec fn render_rest(ds: Seq<SDecl>) -> Seq<char>
    decreases ds.len(),
{
    if ds.len() == 0 {
        Seq::empty()
    } else {
        seq![';', ' '] + render_decl(ds[0]) + render_rest(ds.drop_first())
    }
}

/// The declarations re-serialized in order, separated by `; `.
pub open spec fn render_decls(ds: Seq<SDecl>) -> Seq<char> {
    if ds.len() == 0 {
        Seq::empty()
    } else {
        render_decl(ds[0]) + render_rest(ds.drop_first())
    }
}

/// The filtered form of a `style` value: its well-formed declarations
/// with allowed property names, re-serialized.
pub open spec fn filter_style_value(allowed: Seq<Seq<char>>, value: Seq<char>) -> Seq<char> {
    render_decls(filter_decls(split_semi(value), allowed))
}

/// The `;`-separated pieces of a character vector.
fn split_semi_exec(cs: &Vec<char>) -> (r: Vec<Vec<char>>)
    ensures
        r.deep_view() == split_semi(cs@),
{
    let mut done: Vec<Vec<char>> = Vec::new();
    let mut cur: Vec<char> = Vec::new();
    let mut i: usize = 0;
    assert(cs@.skip(0) =~= cs@);
    while i < cs.len()
        invariant
            i <= cs.len(),
            split_semi(cs@) == done.deep_view() + split_semi_pending(cur@, cs@.skip(i as int)),
        decreases cs.len() - i,
    {
        let ghost rest = cs@.skip(i as int);
        let ghost old_done = done.deep_view();
        let ghost old_cur = cur@;
        assert(rest[0] == cs@[i as int]);
        assert(rest.drop_first() =~= cs@.skip(i + 1));
        if cs[i] == ';' {
            done.push(cur);
            cur = Vec::new();
            assert(done.deep_view() =~~= old_done + seq![old_cur]);
            assert(cur@ =~= Seq::<char>::empty());
            assert(done.deep_view() + split_semi_pending(cur@, cs@.skip(i + 1)) =~~= old_done
                + split_semi_pending(old_cur, rest));
        } else {
            cur.push(cs[i]);
            assert(split_semi_pending(old_cur, rest) == split_semi_pending(
                cur@,
                cs@.skip(i + 1),
            ));
        }
        i = i + 1;
    }
    assert(cs@.skip(i as int).len() == 0);
    let ghost old_done = done.deep_view();
    let ghost last_cur = cur@;
    done.push(cur);
    assert(done.deep_view() =~~= old_done + seq![last_cur]);
    assert(done.deep_view() =~~= split_semi(cs@));
    done
}

/// Whether a character is ASCII whitespace.
fn is_ws(c: char) -> (r: bool)
    ensures
        r == is_ascii_ws(c),
{
    c == ' ' || c == '\t' || c == '\n' || c == '\u{c}' || c == '\r'
}

/// The trimmed form of a character vector.
fn trim_exec(cs: &Vec<char>) -> (r: Vec<char>)
    ensures
        r@ == trim(cs@),
{
    let mut start: usize = 0;
    assert(cs@.skip(0) =~= cs@);
    while start < cs.len() && is_ws(cs[start])
        invariant
            start <= cs.len(),
            trim_start(cs@) == trim_start(cs@.skip(start as int)),
        decreases cs.len() - start,
    {
        assert(cs@.skip(start as int)[0] == cs@[start as int]);
        assert(cs@.skip(start as int).drop_first() =~= cs@.skip(start + 1));
        start = start + 1;
    }
    let ghost st = cs@.skip(start as int);
    assert(start < cs.len() ==> st[0] == cs@[start as int]);
    assert(trim_start(st) == st);
    assert(st == cs@.subrange(start as int, cs@.len() as int)) by {
        assert(st =~= cs@.subrange(start as int, cs@.len() as int));
    }
    let mut end: usize = cs.len();
    while end > start && is_ws(cs[end - 1])
        invariant
            start <= end <= cs.len(),
            trim_end(cs@.subrange(start as int, cs@.len() as int)) == trim_end(
                cs@.subrange(start as int, end as int),
            ),
        decreases end,
    {
        assert(cs@.subrange(start as int, end as int).drop_last() =~= cs@.subrange(
            start as int,
            end as int - 1,
        ));
        assert(cs@.subrange(start as int, end as int).last() == cs@[end as int - 1]);
        end = end - 1;
    }
    let ghost fin = cs@.subrange(start as int, end as int);
    assert(end > start ==> fin.last() == cs@[end as int - 1]);
    assert(trim_end(fin) == fin);
    let r = vstd::slice::slice_to_vec(vstd::slice::slice_subrange(cs.as_slice(), start, end));
    assert(r@ == trim(cs@));
    r
}

/// `find_colon` points inside the string, at a colon, past any earlier
/// position known colon-free.
proof fn lemma_find_colon_bounds(s: Seq<char>)
    ensures
        find_colon(s) matches Some(k) ==> 0 <= k < s.len() && s[k] == ':',
    decreases s.len(),
{
    if s.len() > 0 && s[0] != ':' {
        lemma_find_colon_bounds(s.drop_first());
    }
}

/// The position of the first `:` in a character vector, if any.
fn find_colon_exec(cs: &Vec<char>) -> (r: Option<usize>)
    ensures
        match r {
            Some(k) => find_colon(cs@) == Some(k as int),
            None => find_colon(cs@) is None,
        },
{
    let mut i: usize = 0;
    assert(cs@.skip(0) =~= cs@);
    while i < cs.len()
        invariant
            i <= cs.len(),
            find_colon(cs@.skip(i as int)) matches Some(k) ==> find_colon(cs@) == Some(
                k + i as int,
            ),
            find_colon(cs@.skip(i as int)) is None ==> find_colon(cs@) is None,
        decreases cs.len() - i,
    {
        let ghost rest = cs@.skip(i as int);
        assert(rest[0] == cs@[i as int]);
        assert(rest.drop_first() =~= cs@.skip(i + 1));
        if cs[i] == ':' {
            assert(find_colon(rest) == Some(0int));
            return Some(i);
        }
        i = i + 1;
    }
    assert(cs@.skip(i as int).len() == 0);
    None
}

/// Whether every character of a vector may stand in a property name,
/// and the vector is non-empty.
fn valid_name_exec(cs: &Vec<char>) -> (r: bool)
    ensures
        r == valid_name(cs@),
{
    if cs.len() == 0 {
        return false;
    }
    let mut i: usize = 0;
    while i < cs.len()
        invariant
            i <= cs.len(),
            cs@.len() > 0,
            forall|j: int| 0 <= j < i ==> ident_char(#[trigger] cs@[j]),
        decreases cs.len() - i,
    {
        let c = cs[i];
        let ok = ('a' <= c && c <= 'z') || ('A' <= c && c <= 'Z') || ('0' <= c && c <= '9') || c
            == '-' || c == '_';
        if !ok {
            return false;
        }
        i = i + 1;
    }
    true
}

/// Whether every character of a vector may stand in a plain value,
/// and the vector is non-empty.
fn valid_value_exec(cs: &Vec<char>) -> (r: bool)
    ensures
        r == valid_value(cs@),
{
    if cs.len() == 0 {
        return false;
    }
    let mut st = QuoteState::Outside;
    let mut i: usize = 0;
    assert(cs@.skip(0) =~= cs@);
    while i < cs.len()
        invariant
            i <= cs.len(),
            cs@.len() > 0,
            forall|j: int| 0 <= j < i ==> value_char_ok(#[trigger] cs@[j]),
            quote_state_after(QuoteState::Outside, cs@) == quote_state_after(
                st,
                cs@.skip(i as int),
            ),
        decreases cs.len() - i,
    {
        let ghost rest = cs@.skip(i as int);
        assert(rest[0] == cs@[i as int]);
        assert(rest.drop_first() =~= cs@.skip(i + 1));
        let c = cs[i];
        if c == ';' || c == '{' || c == '}' {
            return false;
        }
        st = match st {
            QuoteState::Outside => if c == '"' {
                QuoteState::InDouble
            } else if c == '\'' {
                QuoteState::InSingle
            } else {
                QuoteState::Outside
            },
            QuoteState::InDouble => if c == '"' {
                QuoteState::Outside
            } else {
                QuoteState::InDouble
            },
            QuoteState::InSingle => if c == '\'' {
                QuoteState::Outside
            } else {
                QuoteState::InSingle
            },
        };
        i = i + 1;
    }
    assert(cs@.skip(i as int).len() == 0);
    match st {
        QuoteState::Outside => true,
        QuoteState::InDouble => false,
        QuoteState::InSingle => false,
    }
}

/// The trailing-whitespace-free form of a character vector.
fn trim_end_exec(cs: &Vec<char>) -> (r: Vec<char>)
    ensures
        r@ == trim_end(cs@),
{
    let mut end: usize = cs.len();
    assert(cs@.subrange(0, cs@.len() as int) =~= cs@);
    while end > 0 && is_ws(cs[end - 1])
        invariant
            end <= cs.len(),
            trim_end(cs@) == trim_end(cs@.subrange(0, end as int)),
        decreases end,
    {
        assert(cs@.subrange(0, end as int).drop_last() =~= cs@.subrange(0, end as int - 1));
        assert(cs@.subrange(0, end as int).last() == cs@[end as int - 1]);
        end = end - 1;
    }
    let ghost fin = cs@.subrange(0, end as int);
    assert(trim_end(fin) == fin);
    vstd::slice::slice_to_vec(vstd::slice::slice_subrange(cs.as_slice(), 0, end))
}

/// The declaration one piece holds, if it is well formed: name and value.
fn parse_decl_exec(seg: &Vec<char>) -> (r: Option<(Vec<char>, Vec<char>)>)
    ensures
        match r {
            Some(p) => parse_decl(seg@) == Some(SDecl { name: p.0@, value: p.1@ }),
            None => parse_decl(seg@) is None,
        },
{
    let t = trim_exec(seg);
    match find_colon_exec(&t) {
        None => None,
        Some(k) => {
            proof {
                lemma_find_colon_bounds(t@);
            }
            assert(0 <= k < t@.len());
            let tlen = t.len();
            assert(k < tlen);
            let before = vstd::slice::slice_to_vec(vstd::slice::slice_subrange(t.as_slice(), 0, k));
            let name = trim_end_exec(&before);
            let after = vstd::slice::slice_to_vec(
                vstd::slice::slice_subrange(t.as_slice(), k + 1, tlen),
            );
            let value = trim_exec(&after);
            assert(before@ =~= trim(seg@).take(k as int));
            assert(after@ =~= trim(seg@).skip(k as int + 1));
            if valid_name_exec(&name) && valid_value_exec(&value) {
                Some((name, value))
            } else {
                None
            }
        },
    }
}

/// The filtered form of a `style` value.
pub fn filter_style_exec(allowed: &Vec<String>, value: &str) -> (r: String)
    ensures
        r@ == filter_style_value(allowed.deep_view(), value@),
{
    let cs = crate::strutil::chars_of(value);
    let segs = split_semi_exec(&cs);
    let mut out: Vec<char> = Vec::new();
    let mut any: bool = false;
    let mut i: usize = 0;
    let ghost all = filter_decls(segs.deep_view(), allowed.deep_view());
    assert(segs.deep_view().skip(0) =~= segs.deep_view());
    while i < segs.len()
        invariant
            i <= segs.len(),
            all == filter_decls(segs.deep_view(), allowed.deep_view()),
            !any ==> out@.len() == 0 && all == filter_decls(
                segs.deep_view().skip(i as int),
                allowed.deep_view(),
            ),
            any ==> render_decls(all) == out@ + render_rest(
                filter_decls(segs.deep_view().skip(i as int), allowed.deep_view()),
            ),
        decreases segs.len() - i,
    {
        let ghost rest = segs.deep_view().skip(i as int);
        assert(rest[0] == segs.deep_view()[i as int]);
        assert(rest.drop_first() =~= segs.deep_view().skip(i + 1));
        assert(segs.deep_view()[i as int] == segs@[i as int]@);
        let ghost kept_rest = filter_decls(rest, allowed.deep_view());
        let ghost kept_next = filter_decls(segs.deep_view().skip(i + 1), allowed.deep_view());
        match parse_decl_exec(&segs[i]) {
            Some(p) => {
                let (name, val) = p;
                let name_s = string_of(&name);
                if contains_string(allowed, &name_s) {
                    let ghost d = SDecl { name: name@, value: val@ };
                    let ghost old_out = out@;
                    assert(kept_rest == seq![d] + kept_next);
                    assert(kept_rest[0] == d);
                    assert(kept_rest.drop_first() =~= kept_next);
                    if any {
                        out.push(';');
                        out.push(' ');
                    }
                    let mut j: usize = 0;
                    let ghost mid = out@;
                    while j < name.len()
                        invariant
                            j <= name.len(),
                            out@ == mid + name@.take(j as int),
                        decreases name.len() - j,
                    {
                        out.push(name[j]);
                        j = j + 1;
                        assert(out@ =~= mid + name@.take(j as int));
                    }
                    assert(out@ =~= mid + name@);
                    out.push(':');
                    let ghost mid2 = out@;
                    let mut j2: usize = 0;
                    while j2 < val.len()
                        invariant
                            j2 <= val.len(),
                            out@ == mid2 + val@.take(j2 as int),
                        decreases val.len() - j2,
                    {
                        out.push(val[j2]);
                        j2 = j2 + 1;
                        assert(out@ =~= mid2 + val@.take(j2 as int));
                    }
                    assert(out@ =~= mid2 + val@);
                    if any {
                        assert(out@ =~= old_out + (seq![';', ' '] + render_decl(d)));
                        assert(render_rest(kept_rest) == seq![';', ' '] + render_decl(d)
                            + render_rest(kept_next));
                        assert(render_decls(all) =~= out@ + render_rest(kept_next));
                    } else {
                        assert(out@ =~= render_decl(d));
                        assert(all == kept_rest);
                        assert(render_decls(all) == render_decl(d) + render_rest(kept_next));
                        assert(render_decls(all) =~= out@ + render_rest(kept_next));
                    }
                    any = true;
                } else {
                    assert(kept_rest =~= kept_next);
                }
            },
            None => {
                assert(kept_rest =~= kept_next);
            },
        }
        i = i + 1;
    }
    assert(segs.deep_view().skip(segs.len() as int).len() == 0);
    if !any {
        assert(out@ =~= render_decls(all));
    }
    string_of(&out)
}

/// A declaration as parsing produces it: a well-formed name, a plain
/// value, the value free of surrounding whitespace.
pub open spec fn wf_decl(d: SDecl) -> bool {
    valid_name(d.name) && valid_value(d.value) && trim(d.value) == d.value
}

/// Whether every declaration is well formed.
pub open spec fn wf_decls(ds: Seq<SDecl>) -> bool {
    forall|i: int| 0 <= i < ds.len() ==> wf_decl(#[trigger] ds[i])
}

/// Whether every declaration's name is allowed.
pub open spec fn decls_allowed(ds: Seq<SDecl>, allowed: Seq<Seq<char>>) -> bool {
    forall|i: int| 0 <= i < ds.len() ==> allowed.contains((#[trigger] ds[i]).name)
}

/// A string that starts with no whitespace is its own trimmed-start form.
pub proof fn lemma_trim_start_fixed(s: Seq<char>)
    requires
        s.len() == 0 || !is_ascii_ws(s[0]),
    ensures
        trim_start(s) == s,
{
}

/// A string that ends with no whitespace is its own trimmed-end form.
pub proof fn lemma_trim_end_fixed(s: Seq<char>)
    requires
        s.len() == 0 || !is_ascii_ws(s.last()),
    ensures
        trim_end(s) == s,
{
}

/// The trimmed-start form starts with no whitespace.
pub proof fn lemma_trim_start_wf(s: Seq<char>)
    ensures
        trim_start(s).len() == 0 || !is_ascii_ws(trim_start(s)[0]),
    decreases s.len(),
{
    if s.len() > 0 && is_ascii_ws(s[0]) {
        lemma_trim_start_wf(s.drop_first());
    }
}

/// The trimmed-end form ends with no whitespace.
pub proof fn lemma_trim_end_wf(s: Seq<char>)
    ensures
        trim_end(s).len() == 0 || !is_ascii_ws(trim_end(s).last()),
    decreases s.len(),
{
    if s.len() > 0 && is_ascii_ws(s.last()) {
        lemma_trim_end_wf(s.drop_last());
    }
}

/// The trimmed-end form is a prefix of the string.
pub proof fn lemma_trim_end_prefix(s: Seq<char>)
    ensures
        trim_end(s).len() <= s.len(),
        trim_end(s) == s.take(trim_end(s).len() as int),
    decreases s.len(),
{
    if s.len() > 0 && is_ascii_ws(s.last()) {
        lemma_trim_end_prefix(s.drop_last());
        assert(s.drop_last() =~= s.take(s.len() - 1));
        assert(s.drop_last().take(trim_end(s).len() as int) =~= s.take(
            trim_end(s).len() as int,
        ));
    } else {
        assert(s.take(s.len() as int) =~= s);
    }
}

/// A trim-fixed non-empty string neither starts nor ends with
/// whitespace.
pub proof fn lemma_trim_fixed_wf(s: Seq<char>)
    requires
        trim(s) == s,
        s.len() > 0,
    ensures
        !is_ascii_ws(s[0]),
        !is_ascii_ws(s.last()),
{
    let y = trim_start(s);
    lemma_trim_start_wf(s);
    lemma_trim_end_wf(y);
    lemma_trim_end_prefix(y);
    assert(s == trim_end(y));
    assert(s[0] == y[0]);
}

/// Trimming is idempotent.
pub proof fn lemma_trim_idem(s: Seq<char>)
    ensures
        trim(trim(s)) == trim(s),
{
    let x = trim(s);
    if x.len() == 0 {
    } else {
        lemma_trim_fixed_wf2(s);
        lemma_trim_start_fixed(x);
        lemma_trim_end_fixed(x);
    }
}

/// The trimmed form neither starts nor ends with whitespace.
pub proof fn lemma_trim_fixed_wf2(s: Seq<char>)
    requires
        trim(s).len() > 0,
    ensures
        !is_ascii_ws(trim(s)[0]),
        !is_ascii_ws(trim(s).last()),
{
    let y = trim_start(s);
    lemma_trim_start_wf(s);
    lemma_trim_end_wf(y);
    lemma_trim_end_prefix(y);
    assert(trim(s)[0] == y[0]);
}

/// The first colon of `name:value` stands right after the name, when the
/// name holds none.
pub proof fn lemma_find_colon_concat(n: Seq<char>, v: Seq<char>)
    requires
        forall|i: int| 0 <= i < n.len() ==> (#[trigger] n[i]) != ':',
    ensures
        find_colon(n + seq![':'] + v) == Some(n.len() as int),
    decreases n.len(),
{
    let s = n + seq![':'] + v;
    if n.len() == 0 {
        assert(s[0] == ':');
    } else {
        assert(s[0] == n[0]);
        assert(forall|i: int|
            0 <= i < n.drop_first().len() ==> (#[trigger] n.drop_first()[i]) == n[i + 1]);
        lemma_find_colon_concat(n.drop_first(), v);
        assert(s.drop_first() =~= n.drop_first() + seq![':'] + v);
    }
}

/// An identifier character is not whitespace, a colon or a separator.
pub proof fn lemma_ident_char_plain(c: char)
    requires
        ident_char(c),
    ensures
        !is_ascii_ws(c),
        c != ':',
        c != ';',
{
}

/// Parsing a rendered declaration, with or without a leading space,
/// gives the declaration back.
pub proof fn lemma_parse_render(d: SDecl)
    requires
        wf_decl(d),
    ensures
        parse_decl(render_decl(d)) == Some(d),
        parse_decl(seq![' '] + render_decl(d)) == Some(d),
{
    let r = render_decl(d);
    assert(r[0] == d.name[0]);
    lemma_ident_char_plain(d.name[0]);
    assert(r.last() == d.value.last());
    lemma_trim_fixed_wf(d.value);
    lemma_trim_start_fixed(r);
    lemma_trim_end_fixed(r);
    assert(trim(r) == r);
    assert forall|i: int| 0 <= i < d.name.len() implies (#[trigger] d.name[i]) != ':' by {
        lemma_ident_char_plain(d.name[i]);
    }
    lemma_find_colon_concat(d.name, d.value);
    let k = d.name.len() as int;
    assert(r.take(k) =~= d.name);
    assert(r.skip(k + 1) =~= d.value);
    lemma_ident_char_plain(d.name.last());
    lemma_trim_end_fixed(d.name);
    assert(parse_decl(r) == Some(d));
    let r2 = seq![' '] + r;
    assert(is_ascii_ws(r2[0]));
    assert(r2.drop_first() =~= r);
    assert(trim_start(r2) == trim_start(r));
    assert(trim(r2) == r);
    assert(parse_decl(r2) == Some(d));
}

/// What style filtering keeps is well formed and allowed.
pub proof fn lemma_filter_decls_wf(segs: Seq<Seq<char>>, allowed: Seq<Seq<char>>)
    ensures
        wf_decls(filter_decls(segs, allowed)),
        decls_allowed(filter_decls(segs, allowed), allowed),
    decreases segs.len(),
{
    if segs.len() > 0 {
        lemma_filter_decls_wf(segs.drop_first(), allowed);
        let out = filter_decls(segs, allowed);
        let tail = filter_decls(segs.drop_first(), allowed);
        match parse_decl(segs[0]) {
            Some(d) => {
                assert(wf_decl(d)) by {
                    lemma_trim_idem(trim(segs[0]).skip(
                        find_colon(trim(segs[0]))->Some_0 + 1,
                    ));
                }
                assert forall|i: int| 0 <= i < out.len() implies wf_decl(#[trigger] out[i])
                    && allowed.contains(out[i].name) by {
                    if allowed.contains(d.name) {
                        if i > 0 {
                            assert(out[i] == tail[i - 1]);
                        }
                    } else {
                        assert(out[i] == tail[i]);
                    }
                }
            },
            None => {
                assert(out =~= tail);
            },
        }
    }
}

/// Reading a separator-free stretch extends the pending piece.
pub proof fn lemma_split_semi_plain(cur: Seq<char>, t: Seq<char>, rest: Seq<char>)
    requires
        forall|i: int| 0 <= i < t.len() ==> (#[trigger] t[i]) != ';',
    ensures
        split_semi_pending(cur, t + rest) == split_semi_pending(cur + t, rest),
    decreases t.len(),
{
    if t.len() == 0 {
        assert(t + rest =~= rest);
        assert(cur + t =~= cur);
    } else {
        assert((t + rest)[0] == t[0]);
        assert((t + rest).drop_first() =~= t.drop_first() + rest);
        assert(forall|i: int|
            0 <= i < t.drop_first().len() ==> (#[trigger] t.drop_first()[i]) == t[i + 1]);
        lemma_split_semi_plain(cur.push(t[0]), t.drop_first(), rest);
        assert(cur.push(t[0]) + t.drop_first() =~= cur + t);
    }
}

/// A rendered declaration holds no separator.
pub proof fn lemma_render_decl_plain(d: SDecl)
    requires
        wf_decl(d),
    ensures
        forall|i: int| 0 <= i < render_decl(d).len() ==> (#[trigger] render_decl(d)[i]) != ';',
{
    let r = render_decl(d);
    assert forall|i: int| 0 <= i < r.len() implies (#[trigger] r[i]) != ';' by {
        if i < d.name.len() {
            assert(r[i] == d.name[i]);
            lemma_ident_char_plain(d.name[i]);
        } else if i == d.name.len() {
            assert(r[i] == ':');
        } else {
            assert(r[i] == d.value[i - d.name.len() - 1]);
        }
    }
}

/// The pieces after the first declaration: each later declaration
/// rendered with its leading space.
pub open spec fn segs_rest(ds: Seq<SDecl>) -> Seq<Seq<char>>
    decreases ds.len(),
{
    if ds.len() == 0 {
        Seq::empty()
    } else {
        seq![seq![' '] + render_decl(ds[0])] + segs_rest(ds.drop_first())
    }
}

/// Splitting the rest of a rendering yields the pending piece and one
/// piece per declaration.
pub proof fn lemma_split_render_rest(t: Seq<char>, ds: Seq<SDecl>)
    requires
        wf_decls(ds),
    ensures
        split_semi_pending(t, render_rest(ds)) == seq![t] + segs_rest(ds),
    decreases ds.len(),
{
    if ds.len() == 0 {
        assert(seq![t] + segs_rest(ds) =~= seq![t]);
    } else {
        let x = render_rest(ds);
        assert(x == seq![';', ' '] + render_decl(ds[0]) + render_rest(ds.drop_first()));
        assert(x[0] == ';');
        assert(x.drop_first() =~= (seq![' '] + render_decl(ds[0])) + render_rest(
            ds.drop_first(),
        ));
        lemma_render_decl_plain(ds[0]);
        let piece = seq![' '] + render_decl(ds[0]);
        assert(forall|i: int| 0 <= i < piece.len() ==> (#[trigger] piece[i]) != ';') by {
            assert forall|i: int| 0 <= i < piece.len() implies (#[trigger] piece[i]) != ';' by {
                if i > 0 {
                    assert(piece[i] == render_decl(ds[0])[i - 1]);
                }
            }
        }
        lemma_split_semi_plain(Seq::empty(), piece, render_rest(ds.drop_first()));
        assert(Seq::<char>::empty() + piece =~= piece);
        assert(forall|i: int|
            0 <= i < ds.drop_first().len() ==> (#[trigger] ds.drop_first()[i]) == ds[i + 1]);
        lemma_split_render_rest(piece, ds.drop_first());
        assert(split_semi_pending(t, x) == seq![t] + (seq![piece] + segs_rest(ds.drop_first())));
        assert(seq![t] + (seq![piece] + segs_rest(ds.drop_first())) =~= seq![t] + segs_rest(ds));
    }
}

/// Filtering the later pieces of a rendering gives the later
/// declarations back.
pub proof fn lemma_filter_segs_rest(ds: Seq<SDecl>, allowed: Seq<Seq<char>>)
    requires
        wf_decls(ds),
        decls_allowed(ds, allowed),
    ensures
        filter_decls(segs_rest(ds), allowed) == ds,
    decreases ds.len(),
{
    if ds.len() == 0 {
        assert(filter_decls(segs_rest(ds), allowed) =~= ds);
    } else {
        let ss = segs_rest(ds);
        assert(ss[0] == seq![' '] + render_decl(ds[0]));
        lemma_parse_render(ds[0]);
        assert(parse_decl(ss[0]) == Some(ds[0]));
        assert(forall|i: int|
            0 <= i < ds.drop_first().len() ==> (#[trigger] ds.drop_first()[i]) == ds[i + 1]);
        lemma_filter_segs_rest(ds.drop_first(), allowed);
        assert(ss.drop_first() =~= segs_rest(ds.drop_first()));
        assert(allowed.contains(ds[0].name));
        assert(filter_decls(ss, allowed) == seq![ds[0]] + filter_decls(
            ss.drop_first(),
            allowed,
        ));
        assert(seq![ds[0]] + ds.drop_first() =~= ds);
    }
}

/// Filtering a rendering gives the declarations back.
pub proof fn lemma_filter_render(ds: Seq<SDecl>, allowed: Seq<Seq<char>>)
    requires
        wf_decls(ds),
        decls_allowed(ds, allowed),
    ensures
        filter_decls(split_semi(render_decls(ds)), allowed) == ds,
{
    if ds.len() == 0 {
        let segs = split_semi(render_decls(ds));
        assert(render_decls(ds).len() == 0);
        assert(segs == seq![Seq::<char>::empty()]);
        assert(parse_decl(segs[0]) is None);
        assert(segs.drop_first() =~= Seq::<Seq<char>>::empty());
        assert(filter_decls(segs.drop_first(), allowed) =~= Seq::<SDecl>::empty());
        assert(filter_decls(segs, allowed) =~= ds);
    } else {
        let r0 = render_decl(ds[0]);
        assert(render_decls(ds) == r0 + render_rest(ds.drop_first()));
        lemma_render_decl_plain(ds[0]);
        lemma_split_semi_plain(Seq::empty(), r0, render_rest(ds.drop_first()));
        assert(Seq::<char>::empty() + r0 =~= r0);
        assert(forall|i: int|
            0 <= i < ds.drop_first().len() ==> (#[trigger] ds.drop_first()[i]) == ds[i + 1]);
        lemma_split_render_rest(r0, ds.drop_first());
        let segs = split_semi(render_decls(ds));
        assert(segs == seq![r0] + segs_rest(ds.drop_first()));
        lemma_parse_render(ds[0]);
        assert(segs[0] == r0);
        lemma_filter_segs_rest(ds.drop_first(), allowed);
        assert(segs.drop_first() =~= segs_rest(ds.drop_first()));
        assert(allowed.contains(ds[0].name));
        assert(filter_decls(segs, allowed) == seq![ds[0]] + filter_decls(
            segs.drop_first(),
            allowed,
        ));
        assert(seq![ds[0]] + ds.drop_first() =~= ds);
    }
}

/// Style filtering is idempotent: filtering a filtered value changes
/// nothing.
pub proof fn lemma_filter_style_idempotent(allowed: Seq<Seq<char>>, value: Seq<char>)
    ensures
        filter_style_value(allowed, filter_style_value(allowed, value)) == filter_style_value(
            allowed,
            value,
        ),
{
    let ds = filter_decls(split_semi(value), allowed);
    lemma_filter_decls_wf(split_semi(value), allowed);
    lemma_filter_render(ds, allowed);
}

} // verus!
