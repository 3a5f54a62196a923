//! Filtering of `class` attribute values: the value is split on ASCII
//! whitespace, only tokens in the tag's allowlist are kept, and the kept
//! tokens are joined again with single spaces, in their original order.

use vstd::prelude::*;

use crate::strutil::chars_of;
use crate::strutil::contains_string;
use crate::strutil::string_of;

verus! {

broadcast use vstd::seq::group_seq_axioms, vstd::std_specs::vec::group_vec_axioms;

/// ASCII whitespace, as `char::is_ascii_whitespace` counts it.
pub open spec fn is_ascii_ws(c: char) -> bool {
    c == ' ' || c == '\t' || c == '\n' || c == '\u{c}' || c == '\r'
}

/// The pending token `cur` followed by `rest`, split on ASCII whitespace.
pub open spec fn split_pending(cur: Seq<char>, rest: Seq<char>) -> Seq<Seq<char>>
    decreases rest.len(),
{
    if rest.len() == 0 {
        if cur.len() == 0 {
            Seq::empty()
        } else {
            seq![cur]
        }
    } else if is_ascii_ws(rest[0]) {
        (if cur.len() == 0 {
            Seq::<Seq<char>>::empty()
        } else {
            seq![cur]
        }) + split_pending(Seq::empty(), rest.drop_first())
    } else {
        split_pending(cur.push(rest[0]), rest.drop_first())
    }
}

/// The ASCII-whitespace-separated tokens of a string.
pub open spec fn split_ws(s: Seq<char>) -> Seq<Seq<char>> {
    split_pending(Seq::empty(), s)
}

/// The members of `ts` that `allowed` contains, in order.
pub open spec fn keep_allowed(ts: Seq<Seq<char>>, allowed: Seq<Seq<char>>) -> Seq<Seq<char>>
    decreases ts.len(),
{
    if ts.len() == 0 {
        Seq::empty()
    } else {
        (if allowed.contains(ts[0]) {
            seq![ts[0]]
        } else {
            Seq::<Seq<char>>::empty()
        }) + keep_allowed(ts.drop_first(), allowed)
    }
}

/// The tokens after the first, each preceded by one space.
pub open spec fn join_rest(ts: Seq<Seq<char>>) -> Seq<char>
    decreases ts.len(),
{
    if ts.len() == 0 {
        Seq::empty()
    } else {
        seq![' '] + ts[0] + join_rest(ts.drop_first())
    }
}

/// The tokens joined with single spaces.
pub open spec fn join_spaces(ts: Seq<Seq<char>>) -> Seq<char> {
    if ts.len() == 0 {
        Seq::empty()
    } else {
        ts[0] + join_rest(ts.drop_first())
    }
}

/// The filtered form of a `class` value: its tokens restricted to
/// `allowed` and joined with single spaces.
pub open spec fn filter_class_value(allowed: Seq<Seq<char>>, value: Seq<char>) -> Seq<char> {
    join_spaces(keep_allowed(split_ws(value), allowed))
}

/// A well-formed token: non-empty and free of ASCII whitespace.
pub open spec fn wf_token(t: Seq<char>) -> bool {
    t.len() > 0 && forall|i: int| 0 <= i < t.len() ==> !is_ascii_ws(#[trigger] t[i])
}

/// Whether every member is a well-formed token.
pub open spec fn wf_tokens(ts: Seq<Seq<char>>) -> bool {
    forall|i: int| 0 <= i < ts.len() ==> wf_token(#[trigger] ts[i])
}

/// Splitting only ever yields well-formed tokens.
pub proof fn lemma_split_pending_wf(cur: Seq<char>, rest: Seq<char>)
    requires
        forall|i: int| 0 <= i < cur.len() ==> !is_ascii_ws(#[trigger] cur[i]),
    ensures
        wf_tokens(split_pending(cur, rest)),
    decreases rest.len(),
{
    let out = split_pending(cur, rest);
    if rest.len() == 0 {
    } else if is_ascii_ws(rest[0]) {
        lemma_split_pending_wf(Seq::empty(), rest.drop_first());
        let head = if cur.len() == 0 {
            Seq::<Seq<char>>::empty()
        } else {
            seq![cur]
        };
        let tail = split_pending(Seq::empty(), rest.drop_first());
        assert forall|i: int| 0 <= i < out.len() implies wf_token(#[trigger] out[i]) by {
            if i >= head.len() {
                assert(out[i] == tail[i - head.len()]);
            }
        }
    } else {
        assert(forall|i: int|
            0 <= i < cur.push(rest[0]).len() ==> !is_ascii_ws(#[trigger] cur.push(rest[0])[i]));
        lemma_split_pending_wf(cur.push(rest[0]), rest.drop_first());
    }
}

/// The tokens of any string are well formed.
pub proof fn lemma_split_ws_wf(s: Seq<char>)
    ensures
        wf_tokens(split_ws(s)),
{
    lemma_split_pending_wf(Seq::empty(), s);
}

/// What filtering keeps is allowed, and stays well formed.
pub proof fn lemma_keep_allowed_sub(ts: Seq<Seq<char>>, allowed: Seq<Seq<char>>)
    requires
        wf_tokens(ts),
    ensures
        wf_tokens(keep_allowed(ts, allowed)),
        forall|i: int|
            0 <= i < keep_allowed(ts, allowed).len() ==> allowed.contains(
                #[trigger] keep_allowed(ts, allowed)[i],
            ),
    decreases ts.len(),
{
    if ts.len() > 0 {
        assert(forall|i: int|
            0 <= i < ts.drop_first().len() ==> #[trigger] ts.drop_first()[i] == ts[i + 1]);
        lemma_keep_allowed_sub(ts.drop_first(), allowed);
        let out = keep_allowed(ts, allowed);
        let tail = keep_allowed(ts.drop_first(), allowed);
        let head = if allowed.contains(ts[0]) {
            seq![ts[0]]
        } else {
            Seq::<Seq<char>>::empty()
        };
        assert(out == head + tail);
        assert forall|i: int| 0 <= i < out.len() implies wf_token(#[trigger] out[i])
            && allowed.contains(out[i]) by {
            if i >= head.len() {
                assert(out[i] == tail[i - head.len()]);
            } else {
                assert(out[i] == ts[0]);
            }
        }
    }
}

/// Filtering a list of allowed tokens keeps all of them.
pub proof fn lemma_keep_allowed_id(ts: Seq<Seq<char>>, allowed: Seq<Seq<char>>)
    requires
        forall|i: int| 0 <= i < ts.len() ==> allowed.contains(#[trigger] ts[i]),
    ensures
        keep_allowed(ts, allowed) == ts,
    decreases ts.len(),
{
    if ts.len() > 0 {
        assert(forall|i: int|
            0 <= i < ts.drop_first().len() ==> #[trigger] ts.drop_first()[i] == ts[i + 1]);
        lemma_keep_allowed_id(ts.drop_first(), allowed);
        assert(keep_allowed(ts, allowed) =~= ts);
    }
}

/// Reading a whitespace-free stretch extends the pending token.
pub proof fn lemma_split_pending_token(cur: Seq<char>, t: Seq<char>, rest: Seq<char>)
    requires
        forall|i: int| 0 <= i < t.len() ==> !is_ascii_ws(#[trigger] t[i]),
    ensures
        split_pending(cur, t + rest) == split_pending(cur + t, rest),
    decreases t.len(),
{
    if t.len() == 0 {
        assert(t + rest =~= rest);
        assert(cur + t =~= cur);
    } else {
        assert((t + rest)[0] == t[0]);
        assert((t + rest).drop_first() =~= t.drop_first() + rest);
        assert(forall|i: int|
            0 <= i < t.drop_first().len() ==> #[trigger] t.drop_first()[i] == t[i + 1]);
        lemma_split_pending_token(cur.push(t[0]), t.drop_first(), rest);
        assert(cur.push(t[0]) + t.drop_first() =~= cur + t);
    }
}

/// After one token, the rest of a join splits back into the rest of the
/// tokens.
pub proof fn lemma_split_join_rest(t: Seq<char>, ts: Seq<Seq<char>>)
    requires
        wf_token(t),
        wf_tokens(ts),
    ensures
        split_pending(t, join_rest(ts)) == seq![t] + ts,
    decreases ts.len(),
{
    if ts.len() == 0 {
        assert(split_pending(t, join_rest(ts)) == seq![t]);
        assert(seq![t] + ts =~= seq![t]);
    } else {
        let x = join_rest(ts);
        assert(x == seq![' '] + ts[0] + join_rest(ts.drop_first()));
        assert(x[0] == ' ');
        assert(is_ascii_ws(x[0]));
        assert(x.drop_first() =~= ts[0] + join_rest(ts.drop_first()));
        assert(split_pending(t, x) == seq![t] + split_pending(Seq::empty(), x.drop_first()));
        lemma_split_pending_token(Seq::empty(), ts[0], join_rest(ts.drop_first()));
        assert(Seq::<char>::empty() + ts[0] =~= ts[0]);
        assert(forall|i: int|
            0 <= i < ts.drop_first().len() ==> #[trigger] ts.drop_first()[i] == ts[i + 1]);
        lemma_split_join_rest(ts[0], ts.drop_first());
        assert(split_pending(Seq::empty(), x.drop_first()) == seq![ts[0]] + ts.drop_first());
        assert(seq![ts[0]] + ts.drop_first() =~= ts);
        assert(seq![t] + split_pending(Seq::empty(), x.drop_first()) =~= seq![t] + ts);
    }
}

/// Splitting a join of well-formed tokens gives the tokens back.
pub proof fn lemma_split_join(ts: Seq<Seq<char>>)
    requires
        wf_tokens(ts),
    ensures
        split_ws(join_spaces(ts)) == ts,
{
    if ts.len() == 0 {
        assert(split_ws(join_spaces(ts)) =~= ts);
    } else {
        assert(join_spaces(ts) == ts[0] + join_rest(ts.drop_first()));
        lemma_split_pending_token(Seq::empty(), ts[0], join_rest(ts.drop_first()));
        assert(Seq::<char>::empty() + ts[0] =~= ts[0]);
        assert(forall|i: int|
            0 <= i < ts.drop_first().len() ==> #[trigger] ts.drop_first()[i] == ts[i + 1]);
        lemma_split_join_rest(ts[0], ts.drop_first());
        assert(seq![ts[0]] + ts.drop_first() =~= ts);
    }
}

/// Class filtering is exact: the tokens of the filtered value are
/// precisely the allowed tokens of the original value, in their original
/// relative order.
pub proof fn lemma_filter_class_exact(allowed: Seq<Seq<char>>, value: Seq<char>)
    ensures
        split_ws(filter_class_value(allowed, value)) == keep_allowed(split_ws(value), allowed),
{
    lemma_split_ws_wf(value);
    lemma_keep_allowed_sub(split_ws(value), allowed);
    lemma_split_join(keep_allowed(split_ws(value), allowed));
}

/// Class filtering is idempotent: filtering a filtered value changes
/// nothing.
pub proof fn lemma_filter_class_idempotent(allowed: Seq<Seq<char>>, value: Seq<char>)
    ensures
        filter_class_value(allowed, filter_class_value(allowed, value)) == filter_class_value(
            allowed,
            value,
        ),
{
    lemma_filter_class_exact(allowed, value);
    lemma_split_ws_wf(value);
    lemma_keep_allowed_sub(split_ws(value), allowed);
    lemma_keep_allowed_id(keep_allowed(split_ws(value), allowed), allowed);
}

/// The ASCII-whitespace-separated tokens of a string.
pub fn split_ws_exec(value: &str) -> (r: Vec<String>)
    ensures
        r.deep_view() == split_ws(value@),
{
    let cs = chars_of(value);
    let mut done: Vec<String> = Vec::new();
    let mut cur: Vec<char> = Vec::new();
    let mut i: usize = 0;
    assert(cs@.skip(0) =~= value@);
    while i < cs.len()
        invariant
            i <= cs.len(),
            cs@ == value@,
            split_ws(value@) == done.deep_view() + split_pending(cur@, value@.skip(i as int)),
        decreases cs.len() - i,
    {
        let ghost rest = value@.skip(i as int);
        let ghost old_done = done.deep_view();
        let ghost old_cur = cur@;
        assert(rest[0] == value@[i as int]);
        assert(rest.drop_first() =~= value@.skip(i + 1));
        let c = cs[i];
        if c == ' ' || c == '\t' || c == '\n' || c == '\u{c}' || c == '\r' {
            assert(split_pending(old_cur, rest) == (if old_cur.len() == 0 {
                Seq::<Seq<char>>::empty()
            } else {
                seq![old_cur]
            }) + split_pending(Seq::empty(), rest.drop_first()));
            if cur.len() > 0 {
                let t = string_of(&cur);
                done.push(t);
                cur = Vec::new();
                assert(done.deep_view() =~= old_done + seq![old_cur]);
            } else {
                assert(done.deep_view() =~= old_done + Seq::<Seq<char>>::empty());
            }
            assert(cur@ =~= Seq::<char>::empty());
            assert(split_pending(cur@, value@.skip(i + 1)) == split_pending(
                Seq::empty(),
                rest.drop_first(),
            ));
            assert(done.deep_view() + split_pending(cur@, value@.skip(i + 1)) =~= old_done
                + split_pending(old_cur, rest));
        } else {
            cur.push(c);
            assert(split_pending(old_cur, rest) == split_pending(cur@, value@.skip(i + 1)));
        }
        i = i + 1;
    }
    assert(value@.skip(i as int).len() == 0);
    if cur.len() > 0 {
        let t = string_of(&cur);
        done.push(t);
    }
    assert(done.deep_view() =~= split_ws(value@));
    done
}

/// The members of `ts` that `allowed` contains, in order.
pub fn keep_allowed_exec(ts: &Vec<String>, allowed: &Vec<String>) -> (r: Vec<String>)
    ensures
        r.deep_view() == keep_allowed(ts.deep_view(), allowed.deep_view()),
{
    let mut r: Vec<String> = Vec::new();
    let mut i: usize = 0;
    assert(ts.deep_view().skip(0) =~= ts.deep_view());
    while i < ts.len()
        invariant
            i <= ts.len(),
            keep_allowed(ts.deep_view(), allowed.deep_view()) == r.deep_view() + keep_allowed(
                ts.deep_view().skip(i as int),
                allowed.deep_view(),
            ),
        decreases ts.len() - i,
    {
        let ghost rest = ts.deep_view().skip(i as int);
        assert(rest[0] == ts.deep_view()[i as int]);
        assert(rest.drop_first() =~= ts.deep_view().skip(i + 1));
        assert(ts.deep_view()[i as int] == ts@[i as int]@);
        if contains_string(allowed, &ts[i]) {
            let t = ts[i].clone();
            r.push(t);
        }
        i = i + 1;
    }
    assert(ts.deep_view().skip(i as int).len() == 0);
    assert(r.deep_view() =~= keep_allowed(ts.deep_view(), allowed.deep_view()));
    r
}

/// The tokens joined with single spaces.
pub fn join_spaces_exec(ts: &Vec<String>) -> (r: String)
    ensures
        r@ == join_spaces(ts.deep_view()),
{
    let mut out: Vec<char> = Vec::new();
    let mut i: usize = 0;
    while i < ts.len()
        invariant
            i <= ts.len(),
            i == 0 ==> out@.len() == 0,
            i > 0 ==> join_spaces(ts.deep_view()) == out@ + join_rest(
                ts.deep_view().skip(i as int),
            ),
        decreases ts.len() - i,
    {
        let ghost rest = ts.deep_view().skip(i as int);
        assert(rest[0] == ts.deep_view()[i as int]);
        assert(rest.drop_first() =~= ts.deep_view().skip(i + 1));
        assert(ts.deep_view()[i as int] == ts@[i as int]@);
        let ghost start = out@;
        let cs = chars_of(ts[i].as_str());
        if i > 0 {
            out.push(' ');
        }
        let ghost mid = out@;
        let mut j: usize = 0;
        assert(out@ =~= mid + cs@.take(0));
        while j < cs.len()
            invariant
                j <= cs.len(),
                cs@ == ts.deep_view()[i as int],
                out@ == mid + cs@.take(j as int),
            decreases cs.len() - j,
        {
            out.push(cs[j]);
            j = j + 1;
            assert(out@ =~= mid + cs@.take(j as int));
        }
        assert(out@ =~= mid + cs@);
        if i > 0 {
            assert(mid =~= start + seq![' ']);
            assert(out@ =~= start + (seq![' '] + rest[0]));
        }
        i = i + 1;
    }
    if ts.len() == 0 {
        assert(out@ =~= join_spaces(ts.deep_view()));
    } else {
        assert(ts.deep_view().skip(ts.len() as int).len() == 0);
        assert(out@ =~= join_spaces(ts.deep_view()));
    }
    string_of(&out)
}

/// The filtered form of a `class` value.
pub fn filter_class_exec(allowed: &Vec<String>, value: &str) -> (r: String)
    ensures
        r@ == filter_class_value(allowed.deep_view(), value@),
{
    let ts = split_ws_exec(value);
    let kept = keep_allowed_exec(&ts, allowed);
    join_spaces_exec(&kept)
}

} // verus!
