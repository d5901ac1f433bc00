use vstd::prelude::*;

use crate::text::{
    is_space, joined, lemma_words_nonempty, space, split_words, trim, trimmed, words,
};

verus! {

/// Whether the character is lower case by the Unicode `Lowercase` property.
pub uninterp spec fn is_lowercase_char(c: char) -> bool;

/// Whether the character is alphabetic by the Unicode `Alphabetic` property.
pub uninterp spec fn is_alphabetic_char(c: char) -> bool;

/// Relies on `char::is_lowercase`: whether `c` has the Unicode `Lowercase` property.
#[verifier::external_body]
fn lowercase(c: char) -> (r: bool)
    ensures
        r == is_lowercase_char(c),
{
    c.is_lowercase()
}

/// Relies on `char::is_alphabetic`: whether `c` has the Unicode `Alphabetic` property.
#[verifier::external_body]
fn alphabetic(c: char) -> (r: bool)
    ensures
        r == is_alphabetic_char(c),
{
    c.is_alphabetic()
}

/// The views of a sequence of character vectors.
pub open spec fn char_views(v: Seq<Vec<char>>) -> Seq<Seq<char>> {
    v.map_values(|x: Vec<char>| x@)
}

/// The pieces between the places where `sep` holds, each place a single character wide.
pub open spec fn split_by_char(s: Seq<char>, sep: char) -> Seq<Seq<char>>
    decreases s.len(),
{
    if s.len() == 0 {
        seq![Seq::empty()]
    } else {
        let p = split_by_char(s.drop_last(), sep);
        if s.last() == sep {
            p.push(Seq::empty())
        } else {
            p.drop_last().push(p.last().push(s.last()))
        }
    }
}

/// The pieces between the runs of white space in `s`; an empty piece stands first where `s`
/// starts with white space, and last where it ends with it.
pub open spec fn space_pieces(s: Seq<char>) -> Seq<Seq<char>>
    decreases s.len(),
{
    if s.len() == 0 {
        seq![Seq::empty()]
    } else {
        let p = space_pieces(s.drop_last());
        if !is_space(s.last()) {
            p.drop_last().push(p.last().push(s.last()))
        } else if s.len() >= 2 && is_space(s[s.len() - 2]) {
            p
        } else {
            p.push(Seq::empty())
        }
    }
}

proof fn lemma_pieces_nonempty(s: Seq<char>, sep: char)
    ensures
        split_by_char(s, sep).len() >= 1,
        space_pieces(s).len() >= 1,
    decreases s.len(),
{
    if s.len() > 0 {
        lemma_pieces_nonempty(s.drop_last(), sep);
    }
}

/// Splits `s` at each `sep`.
pub fn split_at_char(s: &Vec<char>, sep: char) -> (r: Vec<Vec<char>>)
    ensures
        char_views(r@) == split_by_char(s@, sep),
{
    let mut out: Vec<Vec<char>> = Vec::new();
    let mut cur: Vec<char> = Vec::new();
    let mut i: usize = 0;
    while i < s.len()
        invariant
            i <= s.len(),
            split_by_char(s@.take(i as int), sep) == char_views(out@).push(cur@),
        decreases s.len() - i,
    {
        let c = s[i];
        proof {
            let t = s@.take(i + 1);
            assert(t.drop_last() == s@.take(i as int));
            assert(t.last() == c);
        }
        let ghost before_out = out@;
        let ghost before_cur = cur@;
        if c == sep {
            out.push(cur);
            cur = Vec::new();
            assert(char_views(out@) == char_views(before_out).push(before_cur));
        } else {
            cur.push(c);
            assert(char_views(before_out).push(before_cur).drop_last() == char_views(before_out));
        }
        i += 1;
    }
    assert(s@.take(s.len() as int) == s@);
    let ghost before_out = out@;
    out.push(cur);
    assert(char_views(out@) == char_views(before_out).push(cur@));
    out
}

/// Splits `s` at each run of white space.
pub fn split_at_spaces(s: &Vec<char>) -> (r: Vec<Vec<char>>)
    ensures
        char_views(r@) == space_pieces(s@),
{
    let mut out: Vec<Vec<char>> = Vec::new();
    let mut cur: Vec<char> = Vec::new();
    let mut i: usize = 0;
    while i < s.len()
        invariant
            i <= s.len(),
            space_pieces(s@.take(i as int)) == char_views(out@).push(cur@),
        decreases s.len() - i,
    {
        let c = s[i];
        proof {
            let t = s@.take(i + 1);
            assert(t.drop_last() == s@.take(i as int));
            assert(t.last() == c);
            if i >= 1 {
                assert(t[t.len() - 2] == s@[i - 1]);
            }
        }
        let ghost before_out = out@;
        let ghost before_cur = cur@;
        if !space(c) {
            cur.push(c);
            assert(char_views(before_out).push(before_cur).drop_last() == char_views(before_out));
        } else if i >= 1 && space(s[i - 1]) {
        } else {
            out.push(cur);
            cur = Vec::new();
            assert(char_views(out@) == char_views(before_out).push(before_cur));
        }
        i += 1;
    }
    assert(s@.take(s.len() as int) == s@);
    let ghost before_out = out@;
    out.push(cur);
    assert(char_views(out@) == char_views(before_out).push(cur@));
    out
}

/// The entries of a prefix list: its lines, trimmed, without blank lines and without the
/// lines that start with `#`.
pub open spec fn kept_lines(lines: Seq<Seq<char>>) -> Seq<Seq<char>>
    decreases lines.len(),
{
    if lines.len() == 0 {
        Seq::empty()
    } else {
        let rest = kept_lines(lines.drop_last());
        let e = trimmed(lines.last());
        if e.len() > 0 && e[0] != '#' {
            rest.push(e)
        } else {
            rest
        }
    }
}

/// The entries of the prefix list written in `text`, one per line.
pub open spec fn prefix_entries(text: Seq<char>) -> Seq<Seq<char>> {
    kept_lines(split_by_char(text, '\n'))
}

/// Reads the entries of a prefix list, one per line.
pub fn read_prefix_list(text: &Vec<char>) -> (r: Vec<Vec<char>>)
    ensures
        char_views(r@) == prefix_entries(text@),
{
    let lines = split_at_char(text, '\n');
    let mut out: Vec<Vec<char>> = Vec::new();
    let mut i: usize = 0;
    while i < lines.len()
        invariant
            i <= lines.len(),
            char_views(out@) == kept_lines(char_views(lines@).take(i as int)),
        decreases lines.len() - i,
    {
        let e = trim(&lines[i]);
        proof {
            let t = char_views(lines@).take(i + 1);
            assert(t.drop_last() == char_views(lines@).take(i as int));
            assert(t.last() == lines@[i as int]@);
        }
        if e.len() > 0 && e[0] != '#' {
            let ghost before = out@;
            out.push(e);
            assert(char_views(out@) == char_views(before).push(e@));
        }
        i += 1;
    }
    assert(char_views(lines@).take(lines.len() as int) == char_views(lines@));
    out
}

/// The mark of an entry that holds only before a number.
pub open spec fn numeric_only_mark() -> Seq<char> {
    seq!['#', 'N', 'U', 'M', 'E', 'R', 'I', 'C', '_', 'O', 'N', 'L', 'Y', '#']
}

/// Whether white space stands right before the numeric-only mark somewhere in `e`.
pub open spec fn has_numeric_only(e: Seq<char>) -> bool {
    exists|p: int|
        1 <= p && p + 14 <= e.len() && is_space(e[p - 1]) && #[trigger] e.subrange(p, p + 14)
            == numeric_only_mark()
}

/// Whether white space stands right before the numeric-only mark somewhere in `e`.
pub fn numeric_only(e: &Vec<char>) -> (r: bool)
    ensures
        r == has_numeric_only(e@),
{
    let mark = ['#', 'N', 'U', 'M', 'E', 'R', 'I', 'C', '_', 'O', 'N', 'L', 'Y', '#'];
    assert(mark@ == numeric_only_mark());
    let n = e.len();
    if n < 15 {
        return false;
    }
    let mut p: usize = 1;
    while p <= n - 14
        invariant
            15 <= n == e.len(),
            1 <= p <= n - 13,
            mark@ == numeric_only_mark(),
            forall|q: int|
                1 <= q < p && q + 14 <= n ==> !(is_space(e@[q - 1]) && #[trigger] e@.subrange(
                    q,
                    q + 14,
                ) == numeric_only_mark()),
        decreases n - p,
    {
        if space(e[p - 1]) {
            let mut k: usize = 0;
            while k < 14 && e[p + k] == mark[k]
                invariant
                    k <= 14,
                    p + 14 <= n == e.len(),
                    forall|m: int| 0 <= m < k ==> e@[p + m] == mark@[m],
                decreases 14 - k,
            {
                k += 1;
            }
            if k == 14 {
                assert(e@.subrange(p as int, p + 14) =~= numeric_only_mark());
                return true;
            }
            assert(e@.subrange(p as int, p + 14)[k as int] != numeric_only_mark()[k as int]);
        }
        p += 1;
    }
    false
}

/// For each entry of `entries` with the numeric-only mark, the last of its words.
pub open spec fn numeric_only_entries(entries: Seq<Seq<char>>) -> Seq<Seq<char>>
    decreases entries.len(),
{
    if entries.len() == 0 {
        Seq::empty()
    } else {
        let rest = numeric_only_entries(entries.drop_last());
        let e = entries.last();
        if has_numeric_only(e) {
            rest.push(words(e).last())
        } else {
            rest
        }
    }
}

/// The entries of `entries` that hold only before a number, each as the last of its words.
pub fn numeric_only_prefixes(entries: &Vec<Vec<char>>) -> (r: Vec<Vec<char>>)
    ensures
        char_views(r@) == numeric_only_entries(char_views(entries@)),
{
    let mut out: Vec<Vec<char>> = Vec::new();
    let mut i: usize = 0;
    while i < entries.len()
        invariant
            i <= entries.len(),
            char_views(out@) == numeric_only_entries(char_views(entries@).take(i as int)),
        decreases entries.len() - i,
    {
        proof {
            let t = char_views(entries@).take(i + 1);
            assert(t.drop_last() == char_views(entries@).take(i as int));
            assert(t.last() == entries@[i as int]@);
        }
        if numeric_only(&entries[i]) {
            let ws = split_words(&entries[i]);
            proof {
                // the mark itself is a word, so there is a last one
                let e = entries@[i as int]@;
                let p = choose|p: int|
                    1 <= p && p + 14 <= e.len() && is_space(e[p - 1]) && #[trigger] e.subrange(p, p + 14)
                        == numeric_only_mark();
                assert(e.subrange(p, p + 14)[13] == '#');
                lemma_words_nonempty(e, p + 13);
            }
            let last = crate::text::chars_of(ws[ws.len() - 1].as_str());
            let ghost before = out@;
            out.push(last);
            assert(char_views(out@) == char_views(before).push(last@));
        }
        i += 1;
    }
    assert(char_views(entries@).take(entries.len() as int) == char_views(entries@));
    out
}

/// Whether every character of `t` is lower case.
pub open spec fn all_lower(t: Seq<char>) -> bool {
    forall|j: int| 0 <= j < t.len() ==> is_lowercase_char(#[trigger] t[j])
}

/// Whether some character of `t` is alphabetic.
pub open spec fn any_alpha(t: Seq<char>) -> bool {
    exists|j: int| 0 <= j < t.len() && is_alphabetic_char(#[trigger] t[j])
}

/// Whether `t` starts with an ASCII digit.
pub open spec fn starts_with_digit(t: Seq<char>) -> bool {
    t.len() > 0 && '0' <= t[0] && t[0] <= '9'
}

/// Whether the token `toks[i]`, which ends with a period, keeps that period: its prefix is an
/// abbreviation with periods and letters; or it stands in both the prefix list `nbp` and the
/// numeric-only list `nop`; or the next token is all lower case; or the prefix is numeric-only,
/// another token follows, and the token starts with a digit.
pub open spec fn keeps_period(
    toks: Seq<Seq<char>>,
    i: int,
    nbp: Seq<Seq<char>>,
    nop: Seq<Seq<char>>,
) -> bool {
    let t = toks[i];
    let prefix = t.drop_last();
    (prefix.contains('.') && any_alpha(prefix)) || (nbp.contains(prefix) && nop.contains(prefix))
        || (i != toks.len() - 1 && all_lower(toks[i + 1])) || (nop.contains(prefix) && i + 1
        < toks.len() && starts_with_digit(t))
}

/// What the token `toks[i]` becomes: where it ends with exactly one period after a prefix and
/// does not keep the period, the prefix, a space and the period; otherwise the token itself.
pub open spec fn resolved_token(
    toks: Seq<Seq<char>>,
    i: int,
    nbp: Seq<Seq<char>>,
    nop: Seq<Seq<char>>,
) -> Seq<char> {
    let t = toks[i];
    if t.len() >= 2 && t.last() == '.' && t[t.len() - 2] != '.' && !keeps_period(toks, i, nbp, nop) {
        t.drop_last() + seq![' ', '.']
    } else {
        t
    }
}

/// The text `s` with each of its tokens resolved against the prefix lists, joined by spaces.
pub open spec fn resolved_text(s: Seq<char>, nbp: Seq<Seq<char>>, nop: Seq<Seq<char>>) -> Seq<
    char,
> {
    let toks = space_pieces(s);
    joined(Seq::new(toks.len(), |i: int| resolved_token(toks, i, nbp, nop)))
}

/// Appends the characters of `t` to `out`.
pub fn append_chars(out: &mut Vec<char>, t: &Vec<char>)
    ensures
        final(out)@ == old(out)@ + t@,
{
    let mut i: usize = 0;
    while i < t.len()
        invariant
            i <= t.len(),
            out@ == old(out)@ + t@.take(i as int),
        decreases t.len() - i,
    {
        out.push(t[i]);
        assert(t@.take(i + 1) == t@.take(i as int).push(t@[i as int]));
        i += 1;
    }
    assert(t@.take(t.len() as int) == t@);
}

/// Whether `a` and `b` hold the same characters.
pub fn same_chars(a: &Vec<char>, b: &Vec<char>) -> (r: bool)
    ensures
        r == (a@ == b@),
{
    if a.len() != b.len() {
        return false;
    }
    let mut i: usize = 0;
    while i < a.len()
        invariant
            i <= a.len() == b.len(),
            forall|j: int| 0 <= j < i ==> a@[j] == b@[j],
        decreases a.len() - i,
    {
        if a[i] != b[i] {
            return false;
        }
        i += 1;
    }
    assert(a@ =~= b@);
    true
}

/// Whether `x` is a member of `list`.
pub fn listed(list: &Vec<Vec<char>>, x: &Vec<char>) -> (r: bool)
    ensures
        r == char_views(list@).contains(x@),
{
    let mut i: usize = 0;
    while i < list.len()
        invariant
            i <= list.len(),
            forall|j: int| 0 <= j < i ==> list@[j]@ != x@,
        decreases list.len() - i,
    {
        if same_chars(&list[i], x) {
            assert(char_views(list@)[i as int] == x@);
            return true;
        }
        i += 1;
    }
    assert forall|j: int| 0 <= j < char_views(list@).len() implies char_views(list@)[j] != x@ by {
        assert(char_views(list@)[j] == list@[j]@);
    }
    false
}

/// Whether every character of `t` is lower case.
fn is_all_lower(t: &Vec<char>) -> (r: bool)
    ensures
        r == all_lower(t@),
{
    let mut i: usize = 0;
    while i < t.len()
        invariant
            i <= t.len(),
            forall|j: int| 0 <= j < i ==> is_lowercase_char(#[trigger] t@[j]),
        decreases t.len() - i,
    {
        if !lowercase(t[i]) {
            return false;
        }
        i += 1;
    }
    true
}

/// Whether `t` holds a period and an alphabetic character.
fn is_abbreviation(t: &Vec<char>) -> (r: bool)
    ensures
        r == (t@.contains('.') && any_alpha(t@)),
{
    let mut dot = false;
    let mut alpha = false;
    let mut i: usize = 0;
    while i < t.len()
        invariant
            i <= t.len(),
            dot == (exists|j: int| 0 <= j < i && t@[j] == '.'),
            alpha == (exists|j: int| 0 <= j < i && is_alphabetic_char(#[trigger] t@[j])),
        decreases t.len() - i,
    {
        if t[i] == '.' {
            dot = true;
        }
        if alphabetic(t[i]) {
            alpha = true;
        }
        proof {
            if t@[i as int] == '.' {
                assert(exists|j: int| 0 <= j < i + 1 && t@[j] == '.');
            }
            if is_alphabetic_char(t@[i as int]) {
                assert(exists|j: int| 0 <= j < i + 1 && is_alphabetic_char(#[trigger] t@[j]));
            }
        }
        i += 1;
    }
    proof {
        if dot {
            let j = choose|j: int| 0 <= j < t.len() && t@[j] == '.';
            assert(t@.contains('.'));
        }
    }
    dot && alpha
}

/// Splits the period from each token of `s` that ends with exactly one period after a prefix,
/// unless the token keeps it, and joins the tokens with single spaces.
pub fn resolve_nonbreaking(s: &Vec<char>, nbp: &Vec<Vec<char>>, nop: &Vec<Vec<char>>) -> (r: Vec<
    char,
>)
    ensures
        r@ == resolved_text(s@, char_views(nbp@), char_views(nop@)),
{
    let toks = split_at_spaces(s);
    let ghost tv = char_views(toks@);
    let ghost nb = char_views(nbp@);
    let ghost no = char_views(nop@);
    let ghost f = |i: int| resolved_token(tv, i, nb, no);
    let mut out: Vec<char> = Vec::new();
    let n = toks.len();
    let mut i: usize = 0;
    while i < n
        invariant
            n == toks.len(),
            tv == char_views(toks@),
            nb == char_views(nbp@),
            no == char_views(nop@),
            f == (|i: int| resolved_token(tv, i, nb, no)),
            i <= n,
            out@ == joined(Seq::new(i as nat, f)),
        decreases n - i,
    {
        let ghost before = out@;
        if i != 0 {
            out.push(' ');
        }
        let t = &toks[i];
        assert(tv[i as int] == t@);
        if t.len() >= 2 && t[t.len() - 1] == '.' && t[t.len() - 2] != '.' {
            let mut prefix: Vec<char> = Vec::new();
            let mut j: usize = 0;
            while j < t.len() - 1
                invariant
                    j <= t.len() - 1,
                    t.len() >= 2,
                    prefix@ == t@.take(j as int),
                decreases t.len() - j,
            {
                prefix.push(t[j]);
                assert(t@.take(j + 1) == t@.take(j as int).push(t@[j as int]));
                j += 1;
            }
            assert(prefix@ == t@.drop_last());
            let in_nbp = listed(nbp, &prefix);
            let in_nop = listed(nop, &prefix);
            let next_lower = if i + 1 < n {
                is_all_lower(&toks[i + 1])
            } else {
                false
            };
            proof {
                if i + 1 < n {
                    assert(tv[i + 1] == toks@[i + 1]@);
                }
            }
            let keep = (is_abbreviation(&prefix)) || (in_nbp && in_nop) || (i + 1 < n
                && next_lower) || (in_nop && i + 1 < n && '0' <= t[0] && t[0] <= '9');
            assert(keep == keeps_period(tv, i as int, nb, no));
            if keep {
                append_chars(&mut out, t);
            } else {
                append_chars(&mut out, &prefix);
                out.push(' ');
                out.push('.');
            }
        } else {
            append_chars(&mut out, t);
        }
        proof {
            let q = Seq::new(i as nat + 1, f);
            assert(q.drop_last() =~= Seq::new(i as nat, f));
            assert(q.last() == f(i as int));
            if i == 0 {
                assert(out@ =~= f(0));
            } else {
                assert(out@ =~= joined(Seq::new(i as nat, f)) + seq![' '] + f(i as int));
            }
        }
        i += 1;
    }
    out
}

} // verus!
