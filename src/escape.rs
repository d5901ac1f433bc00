use vstd::prelude::*;

use crate::text::chars_of;

verus! {

/// What a character becomes when text is escaped for XML.
pub open spec fn xml_entity(c: char) -> Seq<char> {
    if c == '&' {
        "&amp;"@
    } else if c == '|' {
        "&#124;"@
    } else if c == '<' {
        "&lt;"@
    } else if c == '>' {
        "&gt;"@
    } else if c == '"' {
        "&quot;"@
    } else if c == '\'' {
        "&apos;"@
    } else if c == '[' {
        "&#91;"@
    } else if c == ']' {
        "&#93;"@
    } else {
        seq![c]
    }
}

/// `s` with each character replaced by its XML entity, in one pass.
pub open spec fn xml_escaped(s: Seq<char>) -> Seq<char>
    decreases s.len(),
{
    if s.len() == 0 {
        s
    } else {
        xml_escaped(s.drop_last()) + xml_entity(s.last())
    }
}

/// `s` with every occurrence of `c` replaced by `rep`.
pub open spec fn replace_char(s: Seq<char>, c: char, rep: Seq<char>) -> Seq<char>
    decreases s.len(),
{
    if s.len() == 0 {
        s
    } else {
        replace_char(s.drop_last(), c, rep) + if s.last() == c {
            rep
        } else {
            seq![s.last()]
        }
    }
}

/// The eight substitutions of XML escaping, made one after the other in their fixed order.
pub open spec fn xml_substitutions(s: Seq<char>) -> Seq<char> {
    let s1 = replace_char(s, '&', "&amp;"@);
    let s2 = replace_char(s1, '|', "&#124;"@);
    let s3 = replace_char(s2, '<', "&lt;"@);
    let s4 = replace_char(s3, '>', "&gt;"@);
    let s5 = replace_char(s4, '"', "&quot;"@);
    let s6 = replace_char(s5, '\'', "&apos;"@);
    let s7 = replace_char(s6, '[', "&#91;"@);
    replace_char(s7, ']', "&#93;"@)
}

proof fn lemma_replace_concat(a: Seq<char>, b: Seq<char>, c: char, rep: Seq<char>)
    ensures
        replace_char(a + b, c, rep) == replace_char(a, c, rep) + replace_char(b, c, rep),
    decreases b.len(),
{
    if b.len() == 0 {
        assert(a + b == a);
        assert(replace_char(a, c, rep) + replace_char(b, c, rep) == replace_char(a, c, rep));
    } else {
        lemma_replace_concat(a, b.drop_last(), c, rep);
        assert((a + b).drop_last() == a + b.drop_last());
        assert((a + b).last() == b.last());
    }
}

proof fn lemma_replace_absent(s: Seq<char>, c: char, rep: Seq<char>)
    requires
        forall|i: int| 0 <= i < s.len() ==> s[i] != c,
    ensures
        replace_char(s, c, rep) == s,
    decreases s.len(),
{
    if s.len() > 0 {
        lemma_replace_absent(s.drop_last(), c, rep);
        assert(s.drop_last().push(s.last()) == s);
    }
}

proof fn lemma_replace_one(x: char, c: char, rep: Seq<char>)
    ensures
        replace_char(seq![x], c, rep) == if x == c {
            rep
        } else {
            seq![x]
        },
{
    assert(seq![x].drop_last() == Seq::<char>::empty());
    assert(seq![x].last() == x);
    assert(replace_char(Seq::<char>::empty(), c, rep) == Seq::<char>::empty());
    assert(Seq::<char>::empty() + rep == rep);
    assert(Seq::<char>::empty() + seq![x] == seq![x]);
}

proof fn lemma_no_specials(e: Seq<char>)
    requires
        forall|i: int|
            0 <= i < e.len() ==> e[i] != '|' && e[i] != '<' && e[i] != '>' && e[i] != '"' && e[i]
                != '\'' && e[i] != '[' && e[i] != ']',
    ensures
        replace_char(e, '|', "&#124;"@) == e,
        replace_char(e, '<', "&lt;"@) == e,
        replace_char(e, '>', "&gt;"@) == e,
        replace_char(e, '"', "&quot;"@) == e,
        replace_char(e, '\'', "&apos;"@) == e,
        replace_char(e, '[', "&#91;"@) == e,
        replace_char(e, ']', "&#93;"@) == e,
{
    lemma_replace_absent(e, '|', "&#124;"@);
    lemma_replace_absent(e, '<', "&lt;"@);
    lemma_replace_absent(e, '>', "&gt;"@);
    lemma_replace_absent(e, '"', "&quot;"@);
    lemma_replace_absent(e, '\'', "&apos;"@);
    lemma_replace_absent(e, '[', "&#91;"@);
    lemma_replace_absent(e, ']', "&#93;"@);
}

proof fn lemma_substitutions_one(x: char)
    ensures
        xml_substitutions(seq![x]) == xml_entity(x),
{
    reveal_strlit("&amp;");
    reveal_strlit("&#124;");
    reveal_strlit("&lt;");
    reveal_strlit("&gt;");
    reveal_strlit("&quot;");
    reveal_strlit("&apos;");
    reveal_strlit("&#91;");
    reveal_strlit("&#93;");
    let e = xml_entity(x);
    lemma_no_specials(e.drop_first());
    lemma_replace_one(x, '&', "&amp;"@);
    if x == '&' {
        lemma_no_specials(e);
    } else {
        lemma_replace_one(x, '|', "&#124;"@);
        lemma_replace_one(x, '<', "&lt;"@);
        lemma_replace_one(x, '>', "&gt;"@);
        lemma_replace_one(x, '"', "&quot;"@);
        lemma_replace_one(x, '\'', "&apos;"@);
        lemma_replace_one(x, '[', "&#91;"@);
        lemma_replace_one(x, ']', "&#93;"@);
        if x == '|' || x == '<' || x == '>' || x == '"' || x == '\'' || x == '[' {
            assert(e == seq!['&'] + e.drop_first());
            lemma_replace_concat(seq!['&'], e.drop_first(), '|', "&#124;"@);
            lemma_replace_concat(seq!['&'], e.drop_first(), '<', "&lt;"@);
            lemma_replace_concat(seq!['&'], e.drop_first(), '>', "&gt;"@);
            lemma_replace_concat(seq!['&'], e.drop_first(), '"', "&quot;"@);
            lemma_replace_concat(seq!['&'], e.drop_first(), '\'', "&apos;"@);
            lemma_replace_concat(seq!['&'], e.drop_first(), '[', "&#91;"@);
            lemma_replace_concat(seq!['&'], e.drop_first(), ']', "&#93;"@);
            lemma_replace_one('&', '|', "&#124;"@);
            lemma_replace_one('&', '<', "&lt;"@);
            lemma_replace_one('&', '>', "&gt;"@);
            lemma_replace_one('&', '"', "&quot;"@);
            lemma_replace_one('&', '\'', "&apos;"@);
            lemma_replace_one('&', '[', "&#91;"@);
            lemma_replace_one('&', ']', "&#93;"@);
        }
    }
}

/// Escaping for XML by the eight substitutions in their fixed order (`&` first, then `|`, `<`,
/// `>`, `"`, `'`, `[`, `]`) gives what escaping each character once gives: no character that
/// an earlier substitution brings in is escaped again by a later one.
pub proof fn lemma_xml_substitutions_in_order(s: Seq<char>)
    ensures
        xml_substitutions(s) == xml_escaped(s),
    decreases s.len(),
{
    if s.len() > 0 {
        let a = s.drop_last();
        let x = s.last();
        lemma_xml_substitutions_in_order(a);
        assert(s == a + seq![x]);
        let s1 = replace_char(a, '&', "&amp;"@);
        let t1 = replace_char(seq![x], '&', "&amp;"@);
        lemma_replace_concat(a, seq![x], '&', "&amp;"@);
        let s2 = replace_char(s1, '|', "&#124;"@);
        let t2 = replace_char(t1, '|', "&#124;"@);
        lemma_replace_concat(s1, t1, '|', "&#124;"@);
        let s3 = replace_char(s2, '<', "&lt;"@);
        let t3 = replace_char(t2, '<', "&lt;"@);
        lemma_replace_concat(s2, t2, '<', "&lt;"@);
        let s4 = replace_char(s3, '>', "&gt;"@);
        let t4 = replace_char(t3, '>', "&gt;"@);
        lemma_replace_concat(s3, t3, '>', "&gt;"@);
        let s5 = replace_char(s4, '"', "&quot;"@);
        let t5 = replace_char(t4, '"', "&quot;"@);
        lemma_replace_concat(s4, t4, '"', "&quot;"@);
        let s6 = replace_char(s5, '\'', "&apos;"@);
        let t6 = replace_char(t5, '\'', "&apos;"@);
        lemma_replace_concat(s5, t5, '\'', "&apos;"@);
        let s7 = replace_char(s6, '[', "&#91;"@);
        let t7 = replace_char(t6, '[', "&#91;"@);
        lemma_replace_concat(s6, t6, '[', "&#91;"@);
        lemma_replace_concat(s7, t7, ']', "&#93;"@);
        lemma_substitutions_one(x);
    }
}

/// The characters that XML escaping replaces.
pub open spec fn is_escaped_char(c: char) -> bool {
    c == '&' || c == '|' || c == '<' || c == '>' || c == '"' || c == '\'' || c == '[' || c == ']'
}

/// Whether the entity of an escaped character stands in `r` from `i` on.
pub open spec fn entity_at(r: Seq<char>, i: int) -> bool {
    exists|c: char|
        is_escaped_char(c) && i + xml_entity(c).len() <= r.len() && #[trigger] r.subrange(
            i,
            i + xml_entity(c).len(),
        ) == xml_entity(c)
}

proof fn lemma_entity_shape(c: char)
    ensures
        xml_entity(c).len() >= 1,
        is_escaped_char(c) ==> xml_entity(c)[0] == '&',
        forall|k: int|
            0 <= k < xml_entity(c).len() ==> !(is_escaped_char(#[trigger] xml_entity(c)[k]) && xml_entity(c)[k] != '&'),
        forall|k: int| 0 < k < xml_entity(c).len() ==> #[trigger] xml_entity(c)[k] != '&',
        !is_escaped_char(c) ==> xml_entity(c) == seq![c],
{
    reveal_strlit("&amp;");
    reveal_strlit("&#124;");
    reveal_strlit("&lt;");
    reveal_strlit("&gt;");
    reveal_strlit("&quot;");
    reveal_strlit("&apos;");
    reveal_strlit("&#91;");
    reveal_strlit("&#93;");
}

/// Escaped text holds none of `|`, `<`, `>`, `"`, `'`, `[` and `]`, and each `&` in it starts
/// the entity of an escaped character.
pub proof fn lemma_xml_escaped_clean(s: Seq<char>)
    ensures
        forall|i: int|
            0 <= i < xml_escaped(s).len() ==> !(is_escaped_char(#[trigger] xml_escaped(s)[i])
                && xml_escaped(s)[i] != '&'),
        forall|i: int| 0 <= i < xml_escaped(s).len() && #[trigger] xml_escaped(s)[i] == '&' ==> entity_at(xml_escaped(s), i),
    decreases s.len(),
{
    if s.len() > 0 {
        let a = xml_escaped(s.drop_last());
        let x = s.last();
        let e = xml_entity(x);
        let r = xml_escaped(s);
        lemma_xml_escaped_clean(s.drop_last());
        lemma_entity_shape(x);
        assert(r == a + e);
        assert forall|i: int| 0 <= i < r.len() implies !(is_escaped_char(#[trigger] r[i]) && r[i]
            != '&') by {
            if i >= a.len() {
                assert(r[i] == e[i - a.len()]);
            } else {
                assert(r[i] == a[i]);
            }
        }
        assert forall|i: int| 0 <= i < r.len() && #[trigger] r[i] == '&' implies entity_at(r, i) by {
            if i >= a.len() {
                assert(r[i] == e[i - a.len()]);
                if is_escaped_char(x) {
                    assert(i == a.len());
                    assert(r.subrange(i, i + e.len()) == e);
                } else {
                    assert(e[0] == x);
                }
            } else {
                assert(r[i] == a[i]);
                assert(entity_at(a, i));
                let c = choose|c: char|
                    is_escaped_char(c) && i + xml_entity(c).len() <= a.len() && #[trigger] a.subrange(
                        i,
                        i + xml_entity(c).len(),
                    ) == xml_entity(c);
                assert(r.subrange(i, i + xml_entity(c).len()) == a.subrange(i, i + xml_entity(c).len()));
            }
        }
    }
}

/// Whether `r` starts with the entity of the escaped character `c`.
pub open spec fn entity_prefix(r: Seq<char>, c: char) -> bool {
    is_escaped_char(c) && xml_entity(c).len() <= r.len() && r.subrange(
        0,
        xml_entity(c).len() as int,
    ) == xml_entity(c)
}

/// `r` with each entity of an escaped character read back as that character.
pub open spec fn xml_unescaped(r: Seq<char>) -> Seq<char>
    decreases r.len(),
    via unescaped_decreases
{
    if r.len() == 0 {
        r
    } else if exists|c: char| #[trigger] entity_prefix(r, c) {
        let c = choose|c: char| #[trigger] entity_prefix(r, c);
        seq![c] + xml_unescaped(r.skip(xml_entity(c).len() as int))
    } else {
        seq![r[0]] + xml_unescaped(r.drop_first())
    }
}

#[via_fn]
proof fn unescaped_decreases(r: Seq<char>) {
    if exists|c: char| #[trigger] entity_prefix(r, c) {
        let c = choose|c: char| #[trigger] entity_prefix(r, c);
        lemma_entity_shape(c);
    }
}

proof fn lemma_entities_distinct(c: char, d: char, r: Seq<char>)
    requires
        is_escaped_char(c),
        is_escaped_char(d),
        xml_entity(c).len() <= r.len(),
        xml_entity(d).len() <= r.len(),
        r.subrange(0, xml_entity(c).len() as int) == xml_entity(c),
        r.subrange(0, xml_entity(d).len() as int) == xml_entity(d),
    ensures
        c == d,
{
    reveal_strlit("&amp;");
    reveal_strlit("&#124;");
    reveal_strlit("&lt;");
    reveal_strlit("&gt;");
    reveal_strlit("&quot;");
    reveal_strlit("&apos;");
    reveal_strlit("&#91;");
    reveal_strlit("&#93;");
    let ec = xml_entity(c);
    let ed = xml_entity(d);
    assert(forall|k: int| 0 <= k < ec.len() ==> r[k] == ec[k]) by {
        assert forall|k: int| 0 <= k < ec.len() implies r[k] == ec[k] by {
            assert(r.subrange(0, ec.len() as int)[k] == r[k]);
        }
    }
    assert(forall|k: int| 0 <= k < ed.len() ==> r[k] == ed[k]) by {
        assert forall|k: int| 0 <= k < ed.len() implies r[k] == ed[k] by {
            assert(r.subrange(0, ed.len() as int)[k] == r[k]);
        }
    }
    assert(r[1] == ec[1] && r[1] == ed[1]);
    assert(r[2] == ec[2] && r[2] == ed[2]);
    assert(r[3] == ec[3] && r[3] == ed[3]);
}

proof fn lemma_escaped_front(x: char, t: Seq<char>)
    ensures
        xml_escaped(seq![x] + t) == xml_entity(x) + xml_escaped(t),
    decreases t.len(),
{
    if t.len() == 0 {
        assert(seq![x] + t == seq![x]);
        assert(seq![x].drop_last() == Seq::<char>::empty());
        assert(seq![x].last() == x);
        assert(xml_escaped(Seq::<char>::empty()) == Seq::<char>::empty());
        assert(xml_escaped(seq![x]) == Seq::<char>::empty() + xml_entity(x));
        assert(Seq::<char>::empty() + xml_entity(x) == xml_entity(x));
        assert(xml_entity(x) + Seq::<char>::empty() == xml_entity(x));
    } else {
        lemma_escaped_front(x, t.drop_last());
        assert((seq![x] + t).drop_last() == seq![x] + t.drop_last());
        assert((seq![x] + t).last() == t.last());
    }
}

/// Reading the entities back gives the text that was escaped.
pub proof fn lemma_unescape_escaped(s: Seq<char>)
    ensures
        xml_unescaped(xml_escaped(s)) == s,
    decreases s.len(),
{
    if s.len() > 0 {
        let x = s[0];
        let t = s.drop_first();
        assert(s == seq![x] + t);
        lemma_escaped_front(x, t);
        lemma_unescape_escaped(t);
        lemma_entity_shape(x);
        let e = xml_entity(x);
        let r = xml_escaped(s);
        assert(r == e + xml_escaped(t));
        if is_escaped_char(x) {
            assert(r.subrange(0, e.len() as int) == e);
            assert(entity_prefix(r, x));
            let c = choose|c: char| #[trigger] entity_prefix(r, c);
            lemma_entities_distinct(c, x, r);
            assert(r.skip(e.len() as int) == xml_escaped(t));
        } else {
            assert(r[0] == x);
            assert(!exists|c: char| #[trigger] entity_prefix(r, c)) by {
                if exists|c: char| #[trigger] entity_prefix(r, c) {
                    let c = choose|c: char| #[trigger] entity_prefix(r, c);
                    lemma_entity_shape(c);
                    assert(r.subrange(0, xml_entity(c).len() as int)[0] == r[0]);
                }
            }
            assert(r.drop_first() == xml_escaped(t));
        }
    }
}

/// `s` with every occurrence of `pat` replaced by `rep`, left to right and without overlaps.
pub open spec fn replace_str(s: Seq<char>, pat: Seq<char>, rep: Seq<char>) -> Seq<char>
    decreases s.len(),
{
    if s.len() == 0 || pat.len() == 0 {
        s
    } else if s.len() >= pat.len() && s.take(pat.len() as int) == pat {
        rep + replace_str(s.skip(pat.len() as int), pat, rep)
    } else {
        seq![s[0]] + replace_str(s.drop_first(), pat, rep)
    }
}

/// The entities read back one kind after the other: `&#93;`, `&#91;`, `&apos;`, `&quot;`,
/// `&gt;`, `&lt;`, `&#124;`, and `&amp;` last.
pub open spec fn xml_unescape_steps(r: Seq<char>) -> Seq<char> {
    let r1 = replace_str(r, "&#93;"@, seq![']']);
    let r2 = replace_str(r1, "&#91;"@, seq!['[']);
    let r3 = replace_str(r2, "&apos;"@, seq!['\'']);
    let r4 = replace_str(r3, "&quot;"@, seq!['"']);
    let r5 = replace_str(r4, "&gt;"@, seq!['>']);
    let r6 = replace_str(r5, "&lt;"@, seq!['<']);
    let r7 = replace_str(r6, "&#124;"@, seq!['|']);
    replace_str(r7, "&amp;"@, seq!['&'])
}

/// Whether `e` has the shape of an entity: `&` first, `;` last, and neither in between.
pub open spec fn entity_shaped(e: Seq<char>) -> bool {
    e.len() >= 2 && e[0] == '&' && e.last() == ';' && forall|k: int|
        0 < k < e.len() - 1 ==> #[trigger] e[k] != '&' && e[k] != ';'
}

/// Whether `e` holds no `&`.
pub open spec fn ampersand_free(e: Seq<char>) -> bool {
    forall|k: int| 0 <= k < e.len() ==> #[trigger] e[k] != '&'
}

/// The pieces `g(x)` of the characters `x` of `s`, one after the other.
pub open spec fn flat(s: Seq<char>, g: spec_fn(char) -> Seq<char>) -> Seq<char>
    decreases s.len(),
{
    if s.len() == 0 {
        s
    } else {
        g(s[0]) + flat(s.drop_first(), g)
    }
}

proof fn lemma_replace_pass(e: Seq<char>, rest: Seq<char>, pat: Seq<char>, rep: Seq<char>)
    requires
        pat.len() > 0,
        forall|k: int|
            0 <= k < e.len() ==> !((e + rest).skip(k).len() >= pat.len() && #[trigger] (e
                + rest).skip(k).take(pat.len() as int) == pat),
    ensures
        replace_str(e + rest, pat, rep) == e + replace_str(rest, pat, rep),
    decreases e.len(),
{
    if e.len() > 0 {
        let w = e + rest;
        assert(w.skip(0) == w);
        assert(w.drop_first() == e.drop_first() + rest);
        assert forall|k: int| 0 <= k < e.drop_first().len() implies !((e.drop_first()
            + rest).skip(k).len() >= pat.len() && #[trigger] (e.drop_first() + rest).skip(k).take(
            pat.len() as int,
        ) == pat) by {
            assert((e.drop_first() + rest).skip(k) == w.skip(k + 1));
        }
        lemma_replace_pass(e.drop_first(), rest, pat, rep);
        assert(e == seq![e[0]] + e.drop_first());
    } else {
        assert(e + rest == rest);
    }
}

proof fn lemma_replace_piece(e: Seq<char>, rest: Seq<char>, pat: Seq<char>, rep: Seq<char>)
    requires
        entity_shaped(pat),
        entity_shaped(e) || ampersand_free(e),
    ensures
        replace_str(e + rest, pat, rep) == (if e == pat {
            rep
        } else {
            e
        }) + replace_str(rest, pat, rep),
{
    let w = e + rest;
    if e == pat {
        assert(w.take(pat.len() as int) == pat);
        assert(w.skip(pat.len() as int) == rest);
    } else {
        assert forall|k: int|
            0 <= k < e.len() implies !(w.skip(k).len() >= pat.len() && #[trigger] w.skip(k).take(
            pat.len() as int,
        ) == pat) by {
            if w.skip(k).len() >= pat.len() && w.skip(k).take(pat.len() as int) == pat {
                assert(w[k] == pat[0]);
                assert(w[k] == e[k]);
                if k > 0 || ampersand_free(e) {
                } else {
                    let n = pat.len() as int;
                    let m = e.len() as int;
                    if m < n {
                        assert(pat[m - 1] == w.skip(0).take(n)[m - 1]);
                        assert(pat[m - 1] == e[m - 1]);
                    } else if m > n {
                        assert(e[n - 1] == w.skip(0).take(n)[n - 1]);
                    } else {
                        assert forall|i: int| 0 <= i < n implies e[i] == pat[i] by {
                            assert(w.skip(0).take(n)[i] == e[i]);
                        }
                        assert(e =~= pat);
                    }
                }
            }
        }
        lemma_replace_pass(e, rest, pat, rep);
    }
}

proof fn lemma_replace_flat(
    s: Seq<char>,
    g: spec_fn(char) -> Seq<char>,
    h: spec_fn(char) -> Seq<char>,
    pat: Seq<char>,
    rep: Seq<char>,
)
    requires
        entity_shaped(pat),
        forall|x: char| entity_shaped(#[trigger] g(x)) || ampersand_free(g(x)),
        forall|x: char| #[trigger] h(x) == if g(x) == pat {
            rep
        } else {
            g(x)
        },
    ensures
        replace_str(flat(s, g), pat, rep) == flat(s, h),
    decreases s.len(),
{
    if s.len() > 0 {
        let x = s[0];
        assert(entity_shaped(g(x)) || ampersand_free(g(x)));
        lemma_replace_piece(g(x), flat(s.drop_first(), g), pat, rep);
        lemma_replace_flat(s.drop_first(), g, h, pat, rep);
        assert(h(x) == if g(x) == pat { rep } else { g(x) });
    }
}

proof fn lemma_flat_escaped(s: Seq<char>)
    ensures
        flat(s, |x: char| xml_entity(x)) == xml_escaped(s),
    decreases s.len(),
{
    if s.len() > 0 {
        lemma_flat_escaped(s.drop_first());
        assert(s == seq![s[0]] + s.drop_first());
        lemma_escaped_front(s[0], s.drop_first());
    }
}

proof fn lemma_flat_identity(s: Seq<char>)
    ensures
        flat(s, |x: char| seq![x]) == s,
    decreases s.len(),
{
    if s.len() > 0 {
        lemma_flat_identity(s.drop_first());
        assert(s == seq![s[0]] + s.drop_first());
    }
}

/// The entities that the first `k` unescaping steps have not yet read back.
pub open spec fn unescape_stage(k: int, x: char) -> Seq<char> {
    let done = (k >= 1 && x == ']') || (k >= 2 && x == '[') || (k >= 3 && x == '\'') || (k >= 4
        && x == '"') || (k >= 5 && x == '>') || (k >= 6 && x == '<') || (k >= 7 && x == '|') || (k
        >= 8 && x == '&');
    if done {
        seq![x]
    } else {
        xml_entity(x)
    }
}

proof fn lemma_entity_shaped(c: char)
    requires
        is_escaped_char(c),
    ensures
        entity_shaped(xml_entity(c)),
{
    reveal_strlit("&amp;");
    reveal_strlit("&#124;");
    reveal_strlit("&lt;");
    reveal_strlit("&gt;");
    reveal_strlit("&quot;");
    reveal_strlit("&apos;");
    reveal_strlit("&#91;");
    reveal_strlit("&#93;");
    let e = xml_entity(c);
    assert forall|k: int| 0 < k < e.len() - 1 implies #[trigger] e[k] != '&' && e[k] != ';' by {
        if c == '&' {
            assert(e == seq!['&', 'a', 'm', 'p', ';']);
        } else if c == '|' {
            assert(e == seq!['&', '#', '1', '2', '4', ';']);
        } else if c == '<' {
            assert(e == seq!['&', 'l', 't', ';']);
        } else if c == '>' {
            assert(e == seq!['&', 'g', 't', ';']);
        } else if c == '"' {
            assert(e == seq!['&', 'q', 'u', 'o', 't', ';']);
        } else if c == '\'' {
            assert(e == seq!['&', 'a', 'p', 'o', 's', ';']);
        } else if c == '[' {
            assert(e == seq!['&', '#', '9', '1', ';']);
        } else {
            assert(e == seq!['&', '#', '9', '3', ';']);
        }
    }
}

proof fn lemma_unescape_stage_shape(k: int)
    requires
        k <= 7,
    ensures
        forall|x: char|
            entity_shaped(#[trigger] unescape_stage(k, x)) || ampersand_free(unescape_stage(k, x)),
{
    reveal_strlit("&amp;");
    reveal_strlit("&#124;");
    reveal_strlit("&lt;");
    reveal_strlit("&gt;");
    reveal_strlit("&quot;");
    reveal_strlit("&apos;");
    reveal_strlit("&#91;");
    reveal_strlit("&#93;");
    assert forall|x: char|
        entity_shaped(#[trigger] unescape_stage(k, x)) || ampersand_free(unescape_stage(k, x)) by {
        lemma_entity_shape(x);
        if is_escaped_char(x) {
            lemma_entity_shaped(x);
        }
    }
}

proof fn lemma_unescape_step(
    s: Seq<char>,
    k: int,
    c: char,
    pat: Seq<char>,
)
    requires
        1 <= k <= 8,
        is_escaped_char(c),
        pat == xml_entity(c),
        forall|x: char| (#[trigger] unescape_stage(k, x) != unescape_stage(k - 1, x)) ==> x == c,
        unescape_stage(k, c) == seq![c],
        unescape_stage(k - 1, c) == xml_entity(c),
    ensures
        replace_str(flat(s, |x: char| unescape_stage(k - 1, x)), pat, seq![c]) == flat(
            s,
            |x: char| unescape_stage(k, x),
        ),
{
    reveal_strlit("&amp;");
    reveal_strlit("&#124;");
    reveal_strlit("&lt;");
    reveal_strlit("&gt;");
    reveal_strlit("&quot;");
    reveal_strlit("&apos;");
    reveal_strlit("&#91;");
    reveal_strlit("&#93;");
    lemma_unescape_stage_shape(k - 1);
    let g = |x: char| unescape_stage(k - 1, x);
    let h = |x: char| unescape_stage(k, x);
    assert forall|x: char| #[trigger] h(x) == if g(x) == pat {
        seq![c]
    } else {
        g(x)
    } by {
        lemma_entity_shape(x);
        if x != c && g(x) == pat {
            lemma_entity_shape(c);
            lemma_entity_shaped(c);
            if g(x) == xml_entity(x) && is_escaped_char(x) {
                assert(pat.subrange(0, pat.len() as int) == pat);
                lemma_entities_distinct(c, x, pat);
            }
        }
    }
    assert(forall|x: char| entity_shaped(#[trigger] g(x)) || ampersand_free(g(x)));
    lemma_replace_flat(s, g, h, pat, seq![c]);
}

/// Reading the entities back one kind after the other, `&amp;` last, gives the text that was
/// escaped.
pub proof fn lemma_unescape_steps_escaped(s: Seq<char>)
    ensures
        xml_unescape_steps(xml_escaped(s)) == s,
{
    lemma_flat_escaped(s);
    assert(flat(s, |x: char| xml_entity(x)) == flat(s, |x: char| unescape_stage(0, x))) by {
        assert((|x: char| xml_entity(x)) == (|x: char| unescape_stage(0, x)));
    }
    lemma_unescape_step(s, 1, ']', "&#93;"@);
    lemma_unescape_step(s, 2, '[', "&#91;"@);
    lemma_unescape_step(s, 3, '\'', "&apos;"@);
    lemma_unescape_step(s, 4, '"', "&quot;"@);
    lemma_unescape_step(s, 5, '>', "&gt;"@);
    lemma_unescape_step(s, 6, '<', "&lt;"@);
    lemma_unescape_step(s, 7, '|', "&#124;"@);
    lemma_unescape_step(s, 8, '&', "&amp;"@);
    lemma_flat_identity(s);
    assert((|x: char| unescape_stage(8, x)) == (|x: char| seq![x])) by {
        assert forall|x: char| unescape_stage(8, x) == seq![x] by {
            lemma_entity_shape(x);
        }
    }
}

/// Appends the characters of `s` to `out`.
fn push_str(out: &mut Vec<char>, s: &str)
    ensures
        final(out)@ == old(out)@ + s@,
{
    let v = chars_of(s);
    let mut i: usize = 0;
    while i < v.len()
        invariant
            i <= v.len(),
            v@ == s@,
            out@ == old(out)@ + s@.take(i as int),
        decreases v.len() - i,
    {
        out.push(v[i]);
        assert(s@.take(i + 1) == s@.take(i as int).push(s@[i as int]));
        i += 1;
    }
    assert(s@.take(s@.len() as int) == s@);
}

/// Escapes the characters `&`, `|`, `<`, `>`, `"`, `'`, `[` and `]` as XML entities.
pub fn escape_xml(s: &Vec<char>) -> (r: Vec<char>)
    ensures
        r@ == xml_escaped(s@),
        r@ == xml_substitutions(s@),
        forall|i: int| 0 <= i < r@.len() ==> !(is_escaped_char(#[trigger] r@[i]) && r@[i] != '&'),
        forall|i: int| 0 <= i < r@.len() && #[trigger] r@[i] == '&' ==> entity_at(r@, i),
        xml_unescaped(r@) == s@,
        xml_unescape_steps(r@) == s@,
{
    let mut r: Vec<char> = Vec::new();
    let mut i: usize = 0;
    while i < s.len()
        invariant
            i <= s.len(),
            r@ == xml_escaped(s@.take(i as int)),
        decreases s.len() - i,
    {
        let c = s[i];
        proof {
            let t = s@.take(i + 1);
            assert(t.drop_last() == s@.take(i as int));
            assert(t.last() == c);
        }
        if c == '&' {
            push_str(&mut r, "&amp;");
        } else if c == '|' {
            push_str(&mut r, "&#124;");
        } else if c == '<' {
            push_str(&mut r, "&lt;");
        } else if c == '>' {
            push_str(&mut r, "&gt;");
        } else if c == '"' {
            push_str(&mut r, "&quot;");
        } else if c == '\'' {
            push_str(&mut r, "&apos;");
        } else if c == '[' {
            push_str(&mut r, "&#91;");
        } else if c == ']' {
            push_str(&mut r, "&#93;");
        } else {
            r.push(c);
        }
        i += 1;
    }
    assert(s@.take(s.len() as int) == s@);
    proof {
        lemma_xml_substitutions_in_order(s@);
        lemma_xml_escaped_clean(s@);
        lemma_unescape_escaped(s@);
        lemma_unescape_steps_escaped(s@);
    }
    r
}

} // verus!
