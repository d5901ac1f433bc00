use vstd::prelude::*;

verus! {

/// Relies on `String::push`: appends one character at the end.
#[verifier::external_body]
fn push_char(s: &mut String, c: char)
    ensures
        final(s)@ == old(s)@.push(c),
{
    s.push(c)
}

/// The characters of `s`, in order.
pub fn chars_of(s: &str) -> (r: Vec<char>)
    ensures
        r@ == s@,
{
    let mut r: Vec<char> = Vec::new();
    for c in it: s.chars()
        invariant
            r@ == it.seq().take(it.index() as int),
            it.seq() == s@,
    {
        r.push(c);
    }
    r
}

/// The string made of the characters of `v`.
pub fn string_of(v: &Vec<char>) -> (r: String)
    ensures
        r@ == v@,
{
    let mut r = String::new();
    let mut i: usize = 0;
    while i < v.len()
        invariant
            i <= v.len(),
            r@ == v@.take(i as int),
        decreases v.len() - i,
    {
        push_char(&mut r, v[i]);
        assert(v@.take(i + 1) == v@.take(i as int).push(v@[i as int]));
        i += 1;
    }
    assert(v@.take(v.len() as int) == v@);
    r
}


/// Unicode `White_Space`: the characters that `\s` stands for in a pattern.
pub open spec fn is_space(c: char) -> bool {
    ('\u{9}' <= c && c <= '\u{d}') || c == ' ' || c == '\u{85}' || c == '\u{a0}'
        || c == '\u{1680}' || ('\u{2000}' <= c && c <= '\u{200a}') || c == '\u{2028}'
        || c == '\u{2029}' || c == '\u{202f}' || c == '\u{205f}' || c == '\u{3000}'
}

/// Whether `c` is white space.
pub fn space(c: char) -> (r: bool)
    ensures
        r == is_space(c),
{
    ('\u{9}' <= c && c <= '\u{d}') || c == ' ' || c == '\u{85}' || c == '\u{a0}'
        || c == '\u{1680}' || ('\u{2000}' <= c && c <= '\u{200a}') || c == '\u{2028}'
        || c == '\u{2029}' || c == '\u{202f}' || c == '\u{205f}' || c == '\u{3000}'
}

/// `s` with each run of white space made one ASCII space.
pub open spec fn collapse_spaces(s: Seq<char>) -> Seq<char>
    decreases s.len(),
{
    if s.len() == 0 {
        s
    } else {
        let p = collapse_spaces(s.drop_last());
        if !is_space(s.last()) {
            p.push(s.last())
        } else if s.len() >= 2 && is_space(s[s.len() - 2]) {
            p
        } else {
            p.push(' ')
        }
    }
}

/// Makes each run of white space in `s` one ASCII space.
pub fn collapse(s: &Vec<char>) -> (r: Vec<char>)
    ensures
        r@ == collapse_spaces(s@),
{
    let mut r: Vec<char> = Vec::new();
    let mut i: usize = 0;
    while i < s.len()
        invariant
            i <= s.len(),
            r@ == collapse_spaces(s@.take(i as int)),
        decreases s.len() - i,
    {
        let c = s[i];
        proof {
            let t = s@.take(i + 1);
            assert(t.drop_last() == s@.take(i as int));
            assert(t.last() == c);
            if i >= 1 {
                assert(t[t.len() - 2] == s@[i - 1]);
            }
        }
        if !space(c) {
            r.push(c);
        } else if i >= 1 && space(s[i - 1]) {
        } else {
            r.push(' ');
        }
        i += 1;
    }
    assert(s@.take(s.len() as int) == s@);
    r
}

/// Whether `c` is an ASCII control character below the space.
pub open spec fn is_low_control(c: char) -> bool {
    (c as u32) < 0x20
}

/// `s` without its ASCII control characters below the space.
pub open spec fn without_controls(s: Seq<char>) -> Seq<char>
    decreases s.len(),
{
    if s.len() == 0 {
        s
    } else if is_low_control(s.last()) {
        without_controls(s.drop_last())
    } else {
        without_controls(s.drop_last()).push(s.last())
    }
}

/// Drops the ASCII control characters below the space.
pub fn strip_controls(s: &Vec<char>) -> (r: Vec<char>)
    ensures
        r@ == without_controls(s@),
{
    let mut r: Vec<char> = Vec::new();
    let mut i: usize = 0;
    while i < s.len()
        invariant
            i <= s.len(),
            r@ == without_controls(s@.take(i as int)),
        decreases s.len() - i,
    {
        let c = s[i];
        proof {
            let t = s@.take(i + 1);
            assert(t.drop_last() == s@.take(i as int));
            assert(t.last() == c);
        }
        if (c as u32) >= 0x20 {
            r.push(c);
        }
        i += 1;
    }
    assert(s@.take(s.len() as int) == s@);
    r
}

/// `s` without the white space at its start.
pub open spec fn trim_start(s: Seq<char>) -> Seq<char>
    decreases s.len(),
{
    if s.len() > 0 && is_space(s[0]) {
        trim_start(s.drop_first())
    } else {
        s
    }
}

/// `s` without the white space at its end.
pub open spec fn trim_end(s: Seq<char>) -> Seq<char>
    decreases s.len(),
{
    if s.len() > 0 && is_space(s.last()) {
        trim_end(s.drop_last())
    } else {
        s
    }
}

/// `s` without the white space at either end.
pub open spec fn trimmed(s: Seq<char>) -> Seq<char> {
    trim_end(trim_start(s))
}

proof fn lemma_trim_start_skip(s: Seq<char>, i: int)
    requires
        0 <= i <= s.len(),
        forall|j: int| 0 <= j < i ==> is_space(#[trigger] s[j]),
    ensures
        trim_start(s) == trim_start(s.skip(i)),
    decreases i,
{
    if i > 0 {
        assert(s.skip(1) == s.drop_first());
        lemma_trim_start_skip(s.drop_first(), i - 1);
        assert(s.drop_first().skip(i - 1) == s.skip(i));
    } else {
        assert(s.skip(0) == s);
    }
}

proof fn lemma_trim_end_take(s: Seq<char>, k: int)
    requires
        0 <= k <= s.len(),
        forall|j: int| k <= j < s.len() ==> is_space(#[trigger] s[j]),
    ensures
        trim_end(s) == trim_end(s.take(k)),
    decreases s.len() - k,
{
    if k < s.len() {
        lemma_trim_end_take(s.drop_last(), k);
        assert(s.drop_last().take(k) == s.take(k));
    } else {
        assert(s.take(k) == s);
    }
}

/// Drops the white space at either end.
pub fn trim(s: &Vec<char>) -> (r: Vec<char>)
    ensures
        r@ == trimmed(s@),
{
    let mut i: usize = 0;
    while i < s.len() && space(s[i])
        invariant
            i <= s.len(),
            forall|j: int| 0 <= j < i ==> is_space(#[trigger] s@[j]),
        decreases s.len() - i,
    {
        i += 1;
    }
    let mut k: usize = s.len();
    while k > i && space(s[k - 1])
        invariant
            i <= k <= s.len(),
            forall|j: int| k <= j < s.len() ==> is_space(#[trigger] s@[j]),
        decreases k,
    {
        k -= 1;
    }
    let mut r: Vec<char> = Vec::new();
    let mut j: usize = i;
    while j < k
        invariant
            i <= j <= k,
            k <= s.len(),
            r@ == s@.subrange(i as int, j as int),
        decreases k - j,
    {
        r.push(s[j]);
        assert(s@.subrange(i as int, j + 1) == s@.subrange(i as int, j as int).push(s@[j as int]));
        j += 1;
    }
    proof {
        lemma_trim_start_skip(s@, i as int);
        let u = s@.skip(i as int);
        if i < s.len() {
            assert(u[0] == s@[i as int]);
            assert(!is_space(u[0]));
        }
        assert(trim_start(u) == u);
        assert forall|j: int| k - i <= j < u.len() implies is_space(#[trigger] u[j]) by {
            assert(u[j] == s@[i + j]);
        }
        lemma_trim_end_take(u, k - i);
        let w = u.take(k - i);
        assert(w == s@.subrange(i as int, k as int));
        if k > i {
            assert(w.last() == s@[k - 1]);
        }
        assert(trim_end(w) == w);
    }
    r
}


/// The views of a sequence of strings.
pub open spec fn string_views(v: Seq<String>) -> Seq<Seq<char>> {
    v.map_values(|s: String| s@)
}

/// The maximal runs of characters other than white space in `s`, left to right.
pub open spec fn words(s: Seq<char>) -> Seq<Seq<char>>
    decreases s.len(),
{
    if s.len() == 0 {
        Seq::empty()
    } else if is_space(s.last()) {
        words(s.drop_last())
    } else if s.len() >= 2 && !is_space(s[s.len() - 2]) {
        let w = words(s.drop_last());
        w.drop_last().push(w.last().push(s.last()))
    } else {
        words(s.drop_last()).push(seq![s.last()])
    }
}

/// A word is never empty and holds no white space.
pub proof fn lemma_words_are_words(s: Seq<char>)
    ensures
        s.len() > 0 && !is_space(s.last()) ==> words(s).len() > 0,
        forall|i: int| 0 <= i < words(s).len() ==> #[trigger] words(s)[i].len() > 0,
        forall|i: int, j: int|
            0 <= i < words(s).len() && 0 <= j < words(s)[i].len() ==> !is_space(
                #[trigger] words(s)[i][j],
            ),
    decreases s.len(),
{
    if s.len() > 0 {
        lemma_words_are_words(s.drop_last());
        let w = words(s.drop_last());
        let c = s.last();
        if !is_space(c) && s.len() >= 2 && !is_space(s[s.len() - 2]) {
            assert(s.drop_last().last() == s[s.len() - 2]);
            let n = w.last().push(c);
            assert forall|i: int, j: int|
                0 <= i < words(s).len() && 0 <= j < words(s)[i].len() implies !is_space(
                #[trigger] words(s)[i][j]) by {
                if i == w.len() - 1 {
                    assert(words(s)[i] == n);
                    if j < n.len() - 1 {
                        assert(n[j] == w[w.len() - 1][j]);
                    }
                } else {
                    assert(words(s)[i] == w[i]);
                }
            }
        } else if !is_space(c) {
            assert forall|i: int, j: int|
                0 <= i < words(s).len() && 0 <= j < words(s)[i].len() implies !is_space(
                #[trigger] words(s)[i][j]) by {
                if i < w.len() {
                    assert(words(s)[i] == w[i]);
                }
            }
        }
    }
}

/// Splits `s` into its words.
pub fn split_words(s: &Vec<char>) -> (r: Vec<String>)
    ensures
        string_views(r@) == words(s@),
{
    let mut out: Vec<String> = Vec::new();
    let mut cur: Vec<char> = Vec::new();
    let mut i: usize = 0;
    while i < s.len()
        invariant
            i <= s.len(),
            cur.len() > 0 ==> i > 0 && !is_space(s@[i - 1]),
            i > 0 && !is_space(s@[i - 1]) ==> cur.len() > 0,
            words(s@.take(i as int)) == if cur.len() > 0 {
                string_views(out@).push(cur@)
            } else {
                string_views(out@)
            },
        decreases s.len() - i,
    {
        let c = s[i];
        proof {
            let t = s@.take(i + 1);
            assert(t.drop_last() == s@.take(i as int));
            assert(t.last() == c);
            if i >= 1 {
                assert(t[t.len() - 2] == s@[i - 1]);
            }
        }
        if space(c) {
            if cur.len() > 0 {
                let ghost before = out@;
                let w = string_of(&cur);
                out.push(w);
                assert(string_views(out@) =~= string_views(before).push(cur@));
                cur = Vec::new();
            }
        } else {
            let ghost before = cur@;
            proof {
                if cur.len() > 0 {
                    let w = string_views(out@).push(cur@);
                    assert(w.drop_last() == string_views(out@));
                    assert(w.last() == cur@);
                }
            }
            cur.push(c);
            assert(cur@ == before.push(c));
            assert(before.len() == 0 ==> before.push(c) == seq![c]);
        }
        i += 1;
    }
    assert(s@.take(s.len() as int) == s@);
    if cur.len() > 0 {
        let ghost before = out@;
        let w = string_of(&cur);
        out.push(w);
        assert(string_views(out@) =~= string_views(before).push(cur@));
    }
    out
}

/// The parts joined with one space between each two.
pub open spec fn joined(parts: Seq<Seq<char>>) -> Seq<char>
    decreases parts.len(),
{
    if parts.len() == 0 {
        Seq::empty()
    } else if parts.len() == 1 {
        parts[0]
    } else {
        joined(parts.drop_last()) + seq![' '] + parts.last()
    }
}

/// A text with a character other than white space has a word.
pub(crate) proof fn lemma_words_nonempty(s: Seq<char>, i: int)
    requires
        0 <= i < s.len(),
        !is_space(s[i]),
    ensures
        words(s).len() > 0,
    decreases s.len(),
{
    if i == s.len() - 1 {
        lemma_words_are_words(s);
    } else {
        lemma_words_nonempty(s.drop_last(), i);
    }
}

/// Whether the white space of `s` is single ASCII spaces between other characters: none at
/// either end and no two side by side.
pub open spec fn is_single_spaced(s: Seq<char>) -> bool {
    forall|i: int|
        0 <= i < s.len() && is_space(#[trigger] s[i]) ==> s[i] == ' ' && 0 < i && i + 1 < s.len()
            && !is_space(s[i + 1])
}

/// Whether the white space of `s` is single ASCII spaces, no two side by side.
pub open spec fn is_collapsed(s: Seq<char>) -> bool {
    forall|i: int|
        0 <= i < s.len() && is_space(#[trigger] s[i]) ==> s[i] == ' ' && (i + 1 < s.len()
            ==> !is_space(s[i + 1]))
}

proof fn lemma_collapse_spaces_shape(x: Seq<char>)
    ensures
        is_collapsed(collapse_spaces(x)),
        x.len() > 0 ==> collapse_spaces(x).len() > 0,
        x.len() > 0 && !is_space(x.last()) ==> collapse_spaces(x).last() == x.last(),
        x.len() > 0 && is_space(x.last()) ==> collapse_spaces(x).last() == ' ',
    decreases x.len(),
{
    if x.len() > 0 {
        let y = x.drop_last();
        lemma_collapse_spaces_shape(y);
        let p = collapse_spaces(y);
        let c = x.last();
        if !is_space(c) {
            let q = p.push(c);
            assert forall|i: int| 0 <= i < q.len() && is_space(#[trigger] q[i]) implies q[i]
                == ' ' && (i + 1 < q.len() ==> !is_space(q[i + 1])) by {
                assert(q[i] == p[i]);
            }
        } else if x.len() >= 2 && is_space(x[x.len() - 2]) {
            assert(y.last() == x[x.len() - 2]);
        } else {
            let q = p.push(' ');
            if x.len() >= 2 {
                assert(y.last() == x[x.len() - 2]);
            }
            assert forall|i: int| 0 <= i < q.len() && is_space(#[trigger] q[i]) implies q[i]
                == ' ' && (i + 1 < q.len() ==> !is_space(q[i + 1])) by {
                if i < p.len() {
                    assert(q[i] == p[i]);
                    if i + 1 < p.len() {
                        assert(q[i + 1] == p[i + 1]);
                    } else {
                        assert(p[i] == p.last());
                    }
                }
            }
        }
    }
}

proof fn lemma_trim_start_shape(y: Seq<char>)
    ensures
        trim_start(y).len() <= y.len(),
        trim_start(y) == y.skip(y.len() - trim_start(y).len()),
        trim_start(y).len() > 0 ==> !is_space(trim_start(y)[0]),
    decreases y.len(),
{
    if y.len() > 0 && is_space(y[0]) {
        lemma_trim_start_shape(y.drop_first());
        assert(y.drop_first().skip(y.drop_first().len() - trim_start(y).len()) == y.skip(
            y.len() - trim_start(y).len(),
        ));
    } else {
        assert(y.skip(0) == y);
    }
}

proof fn lemma_trim_end_shape(y: Seq<char>)
    ensures
        trim_end(y).len() <= y.len(),
        trim_end(y) == y.take(trim_end(y).len() as int),
        trim_end(y).len() > 0 ==> !is_space(trim_end(y).last()),
    decreases y.len(),
{
    if y.len() > 0 && is_space(y.last()) {
        lemma_trim_end_shape(y.drop_last());
        assert(y.drop_last().take(trim_end(y).len() as int) == y.take(trim_end(y).len() as int));
    } else {
        assert(y.take(y.len() as int) == y);
    }
}

/// Collapsing white space and trimming the ends leaves a text with single spaces between
/// other characters.
pub proof fn lemma_squeezed_single_spaced(x: Seq<char>)
    ensures
        is_single_spaced(trimmed(collapse_spaces(x))),
{
    let c = collapse_spaces(x);
    lemma_collapse_spaces_shape(x);
    let a = trim_start(c);
    lemma_trim_start_shape(c);
    let off = c.len() - a.len();
    assert forall|i: int| 0 <= i < a.len() && is_space(#[trigger] a[i]) implies a[i] == ' ' && (i
        + 1 < a.len() ==> !is_space(a[i + 1])) by {
        assert(a[i] == c[off + i]);
        if i + 1 < a.len() {
            assert(a[i + 1] == c[off + i + 1]);
        }
    }
    let b = trim_end(a);
    lemma_trim_end_shape(a);
    assert forall|i: int| 0 <= i < b.len() && is_space(#[trigger] b[i]) implies b[i] == ' ' && 0
        < i && i + 1 < b.len() && !is_space(b[i + 1]) by {
        assert(b[i] == a[i]);
        if i + 1 < b.len() {
            assert(b[i + 1] == a[i + 1]);
        }
        if i == 0 {
            assert(a[0] == b[0]);
        }
        if i + 1 == b.len() {
            assert(b.last() == b[i]);
        }
    }
}

/// What the joined words of a text with single spaces, and possibly one space at its end,
/// give back.
proof fn lemma_joined_words_rec(s: Seq<char>)
    requires
        forall|i: int|
            0 <= i < s.len() && is_space(#[trigger] s[i]) ==> s[i] == ' ' && 0 < i && (i + 1
                < s.len() ==> !is_space(s[i + 1])),
    ensures
        joined(words(s)) == if s.len() > 0 && s.last() == ' ' {
            s.drop_last()
        } else {
            s
        },
    decreases s.len(),
{
    if s.len() > 0 {
        let y = s.drop_last();
        let c = s.last();
        assert forall|i: int| 0 <= i < y.len() && is_space(#[trigger] y[i]) implies y[i] == ' '
            && 0 < i && (i + 1 < y.len() ==> !is_space(y[i + 1])) by {
            assert(y[i] == s[i]);
            if i + 1 < y.len() {
                assert(y[i + 1] == s[i + 1]);
            }
        }
        lemma_joined_words_rec(y);
        let w = words(y);
        if is_space(c) {
            assert(s[s.len() - 1] == c);
            if y.len() > 0 {
                assert(y.last() == s[s.len() - 2]);
            }
        } else if y.len() == 0 {
            assert(words(s) == seq![seq![c]]);
            assert(s == seq![c]);
        } else if !is_space(y.last()) {
            assert(y.last() == s[s.len() - 2]);
            lemma_words_are_words(y);
            let n = w.last().push(c);
            let ws = w.drop_last().push(n);
            if w.len() == 1 {
                assert(joined(ws) == n);
            } else {
                assert(ws.drop_last() == w.drop_last());
            }
            assert(joined(ws) =~= joined(w).push(c));
            assert(s == y.push(c));
        } else {
            assert(y.last() == s[s.len() - 2]);
            assert(!is_space(y[0])) by {
                if is_space(y[0]) {
                    assert(s[0] == y[0]);
                }
            }
            lemma_words_nonempty(y, 0);
            let ws = w.push(seq![c]);
            assert(ws.drop_last() == w);
            assert(joined(ws) == joined(w) + seq![' '] + seq![c]);
            assert(y.drop_last() + seq![' '] + seq![c] =~= s);
        }
    }
}

/// The words of a text with single spaces between other characters, joined by spaces, give
/// the text back.
pub proof fn lemma_joined_words(s: Seq<char>)
    requires
        is_single_spaced(s),
    ensures
        joined(words(s)) == s,
{
    lemma_joined_words_rec(s);
    if s.len() > 0 && s.last() == ' ' {
        assert(is_space(s[s.len() - 1]));
    }
}

} // verus!
