use vstd::prelude::*;

verus! {

/// The three letters repeated in a protection marker, once per dot.
pub open spec fn dot_word() -> Seq<char> {
    seq!['D', 'O', 'T']
}

/// The letters that close a protection marker.
pub open spec fn multi_word() -> Seq<char> {
    seq!['M', 'U', 'L', 'T', 'I']
}

/// `k` copies of the dot word.
pub open spec fn dot_words(k: nat) -> Seq<char>
    decreases k,
{
    if k == 0 {
        Seq::empty()
    } else {
        dot_word() + dot_words((k - 1) as nat)
    }
}

/// The marker that stands for a run of `k` dots.
pub open spec fn marker(k: nat) -> Seq<char> {
    dot_words(k) + multi_word()
}

/// A run of `k` dots.
pub open spec fn dots(k: nat) -> Seq<char> {
    Seq::new(k, |i: int| '.')
}

/// The number of dots at the start of `s`.
pub open spec fn leading_dots(s: Seq<char>) -> nat
    decreases s.len(),
{
    if s.len() > 0 && s[0] == '.' {
        1 + leading_dots(s.drop_first())
    } else {
        0
    }
}

/// The number of dot words at the start of `s`.
pub open spec fn leading_dot_words(s: Seq<char>) -> nat
    decreases s.len(),
{
    if s.len() >= 3 && s.take(3) == dot_word() {
        1 + leading_dot_words(s.skip(3))
    } else {
        0
    }
}

/// Whether `s` starts with the closing letters of a marker.
pub open spec fn starts_with_multi(s: Seq<char>) -> bool {
    s.len() >= 5 && s.take(5) == multi_word()
}

/// The word of a marker for one dot.
pub open spec fn dot_multi_word() -> Seq<char> {
    dot_word() + multi_word()
}

/// Whether `s` starts with the word of a marker for one dot.
pub open spec fn starts_with_dot_multi(s: Seq<char>) -> bool {
    s.len() >= 8 && s.take(8) == dot_multi_word()
}

/// `s` with each run of two or more dots replaced by a space and the marker for the run,
/// followed by a space where more text follows. Where the text itself holds the word of a
/// marker for one dot, its closing letters are written twice, so that no marker is read into
/// it; all other text is kept.
pub open spec fn protect(s: Seq<char>) -> Seq<char>
    decreases s.len(),
    via leading_dots_decreases
{
    if s.len() == 0 {
        s
    } else if leading_dots(s) >= 2 {
        let k = leading_dots(s);
        let rest = s.skip(k as int);
        seq![' '] + marker(k) + (if rest.len() > 0 {
            seq![' ']
        } else {
            Seq::empty()
        }) + protect(rest)
    } else if starts_with_dot_multi(s) {
        dot_multi_word() + multi_word() + protect(s.skip(8))
    } else {
        seq![s[0]] + protect(s.drop_first())
    }
}

/// Whether a marker starts `s`: the number of dots it stands for, or zero. The closing
/// letters of a marker must not be written twice.
pub open spec fn marker_at(s: Seq<char>) -> nat {
    let j = leading_dot_words(s) as int;
    if j >= 1 && s.len() >= 3 * j + 5 && s.subrange(3 * j, 3 * j + 5) == multi_word()
        && !starts_with_multi(s.skip(3 * j + 5)) {
        j as nat
    } else {
        0
    }
}

/// `s` with each marker replaced by the run of dots it stands for, and the word of a marker
/// for one dot with its closing letters written twice written once again.
pub open spec fn restore(s: Seq<char>) -> Seq<char>
    decreases s.len(),
{
    if s.len() == 0 {
        s
    } else if starts_with_dot_multi(s) && starts_with_multi(s.skip(8)) {
        dot_multi_word() + restore(s.skip(13))
    } else if marker_at(s) >= 1 {
        let j = marker_at(s);
        dots(j) + restore(s.skip(3 * j as int + 5))
    } else {
        seq![s[0]] + restore(s.drop_first())
    }
}

/// `s` with a space before each run of two or more dots, and one after it where more text
/// follows.
pub open spec fn spaced(s: Seq<char>) -> Seq<char>
    decreases s.len(),
    via spaced_decreases
{
    if s.len() == 0 {
        s
    } else if leading_dots(s) >= 2 {
        let k = leading_dots(s);
        let rest = s.skip(k as int);
        seq![' '] + dots(k) + (if rest.len() > 0 {
            seq![' ']
        } else {
            Seq::empty()
        }) + spaced(rest)
    } else {
        seq![s[0]] + spaced(s.drop_first())
    }
}

#[via_fn]
proof fn leading_dots_decreases(s: Seq<char>) {
    lemma_leading_dots_bound(s);
}

#[via_fn]
proof fn spaced_decreases(s: Seq<char>) {
    lemma_leading_dots_bound(s);
}

proof fn lemma_leading_dots_count(t: Seq<char>, k: int)
    requires
        0 <= k <= t.len(),
        forall|m: int| 0 <= m < k ==> t[m] == '.',
        k == t.len() || t[k] != '.',
    ensures
        leading_dots(t) == k,
    decreases k,
{
    if k > 0 {
        lemma_leading_dots_count(t.drop_first(), k - 1);
    }
}

proof fn lemma_leading_dots_bound(t: Seq<char>)
    ensures
        leading_dots(t) <= t.len(),
        forall|m: int| 0 <= m < leading_dots(t) ==> t[m] == '.',
        leading_dots(t) < t.len() ==> t[leading_dots(t) as int] != '.',
    decreases t.len(),
{
    if t.len() > 0 && t[0] == '.' {
        lemma_leading_dots_bound(t.drop_first());
        assert forall|m: int| 0 <= m < leading_dots(t) implies t[m] == '.' by {
            if m > 0 {
                assert(t[m] == t.drop_first()[m - 1]);
            }
        }
    }
}

proof fn lemma_leading_dot_words_count(t: Seq<char>, j: int)
    requires
        0 <= j,
        3 * j <= t.len(),
        forall|m: int| 0 <= m < j ==> #[trigger] t.subrange(3 * m, 3 * m + 3) == dot_word(),
        !(t.len() >= 3 * j + 3 && t.subrange(3 * j, 3 * j + 3) == dot_word()),
    ensures
        leading_dot_words(t) == j,
    decreases j,
{
    if j > 0 {
        let z: int = 0;
        assert(t.take(3) == t.subrange(0, 3));
        assert(t.subrange(3 * z, 3 * z + 3) == dot_word());
        let u = t.skip(3);
        assert forall|m: int| 0 <= m < j - 1 implies #[trigger] u.subrange(3 * m, 3 * m + 3)
            == dot_word() by {
            assert(u.subrange(3 * m, 3 * m + 3) == t.subrange(3 * (m + 1), 3 * (m + 1) + 3));
        }
        if u.len() >= 3 * (j - 1) + 3 {
            assert(u.subrange(3 * (j - 1), 3 * (j - 1) + 3) == t.subrange(3 * j, 3 * j + 3));
        }
        lemma_leading_dot_words_count(u, j - 1);
    } else {
        if t.len() >= 3 {
            assert(t.take(3) == t.subrange(0, 3));
        }
    }
}

proof fn lemma_leading_dot_words_bound(t: Seq<char>)
    ensures
        3 * leading_dot_words(t) <= t.len(),
        forall|m: int|
            0 <= m < leading_dot_words(t) ==> #[trigger] t.subrange(3 * m, 3 * m + 3)
                == dot_word(),
    decreases t.len(),
{
    if t.len() >= 3 && t.take(3) == dot_word() {
        let u = t.skip(3);
        lemma_leading_dot_words_bound(u);
        assert forall|m: int| 0 <= m < leading_dot_words(t) implies #[trigger] t.subrange(
            3 * m,
            3 * m + 3,
        ) == dot_word() by {
            if m > 0 {
                assert(u.subrange(3 * (m - 1), 3 * (m - 1) + 3) == t.subrange(3 * m, 3 * m + 3));
            } else {
                assert(t.subrange(0, 3) == t.take(3));
            }
        }
    }
}

proof fn lemma_marker_prefix(k: nat, y: Seq<char>)
    requires
        k >= 1,
        !starts_with_multi(y),
    ensures
        marker_at(marker(k) + y) == k,
    decreases k,
{
    let t = marker(k) + y;
    lemma_dot_words_shape(k);
    assert forall|m: int| 0 <= m < k implies #[trigger] t.subrange(3 * m, 3 * m + 3)
        == dot_word() by {
        assert(t.subrange(3 * m, 3 * m + 3) == dot_words(k).subrange(3 * m, 3 * m + 3));
    }
    assert(t.subrange(3 * k as int, 3 * k as int + 3) == seq!['M', 'U', 'L']);
    lemma_leading_dot_words_count(t, k as int);
    assert(t.subrange(3 * k as int, 3 * k as int + 5) == multi_word());
    assert(t.skip(3 * k as int + 5) == y);
}

proof fn lemma_dot_words_shape(k: nat)
    ensures
        dot_words(k).len() == 3 * k,
        forall|m: int| 0 <= m < k ==> #[trigger] dot_words(k).subrange(3 * m, 3 * m + 3) == dot_word(),
    decreases k,
{
    if k > 0 {
        lemma_dot_words_shape((k - 1) as nat);
        let d = dot_words(k);
        assert forall|m: int| 0 <= m < k implies #[trigger] d.subrange(3 * m, 3 * m + 3)
            == dot_word() by {
            if m > 0 {
                assert(d.subrange(3 * m, 3 * m + 3) == dot_words((k - 1) as nat).subrange(
                    3 * (m - 1),
                    3 * (m - 1) + 3,
                ));
            }
        }
    }
}

proof fn lemma_plain_prefix(t: Seq<char>, n: int)
    requires
        0 <= n <= protect(t).len(),
        forall|i: int| 0 <= i < n ==> protect(t)[i] != ' ' && protect(t)[i] != 'D',
    ensures
        n <= t.len(),
        protect(t) == t.take(n) + protect(t.skip(n)),
    decreases n,
{
    if n > 0 {
        assert(t.len() > 0);
        if leading_dots(t) >= 2 {
            assert(protect(t)[0] == ' ');
        } else if starts_with_dot_multi(t) {
            assert(protect(t)[0] == 'D');
        } else {
            let u = t.drop_first();
            let p = protect(u);
            assert(protect(t) == seq![t[0]] + p);
            assert forall|i: int| 0 <= i < n - 1 implies p[i] != ' ' && p[i] != 'D' by {
                assert(p[i] == protect(t)[i + 1]);
            }
            lemma_plain_prefix(u, n - 1);
            assert(t.take(n) == seq![t[0]] + u.take(n - 1));
            assert(u.skip(n - 1) == t.skip(n));
        }
    } else {
        assert(t.take(0) =~= Seq::<char>::empty());
        assert(t.skip(0) =~= t);
        assert(Seq::<char>::empty() + protect(t) =~= protect(t));
    }
}

proof fn lemma_not_dot_multi_after(t: Seq<char>)
    requires
        t.len() > 0,
        leading_dots(t) < 2,
        !starts_with_dot_multi(t),
    ensures
        !starts_with_dot_multi(protect(t)),
{
    let x = protect(t);
    let u = t.drop_first();
    assert(x == seq![t[0]] + protect(u));
    if starts_with_dot_multi(x) {
        let p = protect(u);
        assert forall|i: int| 0 <= i < 7 implies p[i] != ' ' && p[i] != 'D' by {
            assert(p[i] == x.take(8)[i + 1]);
            assert(x.take(8)[i + 1] == dot_multi_word()[i + 1]);
        }
        lemma_plain_prefix(u, 7);
        assert forall|i: int| 0 <= i < 8 implies t[i] == dot_multi_word()[i] by {
            if i > 0 {
                assert(t[i] == u.take(7)[i - 1]);
                assert(u.take(7)[i - 1] == p[i - 1]);
                assert(p[i - 1] == x[i]);
                assert(x[i] == x.take(8)[i]);
            } else {
                assert(t[0] == x[0]);
                assert(x[0] == x.take(8)[0]);
            }
        }
        assert(t.take(8) =~= dot_multi_word());
    }
}

proof fn lemma_dot_multi_followed(t: Seq<char>, n: int)
    requires
        3 <= n,
        n + 5 <= protect(t).len(),
        protect(t).subrange(n - 3, n + 5) == dot_multi_word(),
        forall|i: int| 0 <= i < n ==> protect(t)[i] != ' ',
    ensures
        n + 10 <= protect(t).len(),
        protect(t).subrange(n + 5, n + 10) == multi_word(),
    decreases t.len(),
{
    let p = protect(t);
    assert(p[n - 3] == 'D') by {
        assert(p[n - 3] == p.subrange(n - 3, n + 5)[0]);
    }
    assert(t.len() > 0);
    if leading_dots(t) >= 2 {
        assert(p[0] == ' ');
    } else if starts_with_dot_multi(t) {
        let w = seq!['D', 'O', 'T', 'M', 'U', 'L', 'T', 'I', 'M', 'U', 'L', 'T', 'I'];
        let q = protect(t.skip(8));
        assert(dot_multi_word() + multi_word() == w);
        assert(p == w + q);
        if n - 3 < 13 {
            assert(p[n - 3] == w[n - 3]);
            if n > 3 {
                assert(w[n - 3] != 'D');
            }
            assert(p.subrange(n + 5, n + 10) == w.subrange(8, 13));
        } else {
            assert forall|i: int| 0 <= i < n - 13 implies q[i] != ' ' by {
                assert(q[i] == p[i + 13]);
            }
            assert(q.subrange(n - 16, n - 8) == p.subrange(n - 3, n + 5));
            lemma_dot_multi_followed(t.skip(8), n - 13);
            assert(q.subrange(n - 8, n - 3) == p.subrange(n + 5, n + 10));
        }
    } else {
        let u = t.drop_first();
        let q = protect(u);
        assert(p == seq![t[0]] + q);
        if n > 3 {
            assert forall|i: int| 0 <= i < n - 1 implies q[i] != ' ' by {
                assert(q[i] == p[i + 1]);
            }
            assert(q.subrange(n - 4, n + 4) == p.subrange(n - 3, n + 5));
            lemma_dot_multi_followed(u, n - 1);
            assert(q.subrange(n + 4, n + 9) == p.subrange(n + 5, n + 10));
        } else {
            assert(p.take(8) == p.subrange(0, 8));
            lemma_not_dot_multi_after(t);
        }
    }
}

proof fn lemma_spaced_plain(s: Seq<char>, n: int)
    requires
        0 <= n <= s.len(),
        forall|i: int| 0 <= i < n ==> s[i] != '.',
    ensures
        spaced(s) == s.take(n) + spaced(s.skip(n)),
    decreases n,
{
    if n > 0 {
        let u = s.drop_first();
        assert(leading_dots(s) == 0);
        lemma_spaced_plain(u, n - 1);
        assert(s.take(n) == seq![s[0]] + u.take(n - 1));
        assert(u.skip(n - 1) == s.skip(n));
    } else {
        assert(s.take(0) =~= Seq::<char>::empty());
        assert(s.skip(0) =~= s);
        assert(Seq::<char>::empty() + spaced(s) =~= spaced(s));
    }
}

proof fn lemma_no_marker_after(s: Seq<char>)
    requires
        s.len() > 0,
        leading_dots(s) < 2,
        !starts_with_dot_multi(s),
    ensures
        !starts_with_dot_multi(protect(s)),
        marker_at(protect(s)) == 0,
{
    let x = protect(s);
    lemma_not_dot_multi_after(s);
    let j = leading_dot_words(x) as int;
    if j >= 1 && x.len() >= 3 * j + 5 && x.subrange(3 * j, 3 * j + 5) == multi_word() {
        lemma_leading_dot_words_bound(x);
        assert forall|i: int| 0 <= i < 3 * j implies x[i] != ' ' by {
            let m = i / 3;
            assert(x.subrange(3 * m, 3 * m + 3) == dot_word());
            assert(x[i] == x.subrange(3 * m, 3 * m + 3)[i - 3 * m]);
        }
        assert(x.subrange(3 * (j - 1), 3 * (j - 1) + 3) == dot_word());
        assert(x.subrange(3 * j - 3, 3 * j + 5) =~= dot_multi_word());
        lemma_dot_multi_followed(s, 3 * j);
        assert(x.skip(3 * j + 5).take(5) == x.subrange(3 * j + 5, 3 * j + 10));
    }
}

proof fn lemma_restore_space(z: Seq<char>)
    requires
        z.len() > 0,
        z[0] == ' ',
    ensures
        restore(z) == seq![' '] + restore(z.drop_first()),
{
    if z.len() >= 8 {
        assert(z.take(8)[0] == ' ');
    }
    if z.len() >= 3 {
        assert(z.take(3)[0] == ' ');
    }
    assert(leading_dot_words(z) == 0);
}

proof fn lemma_restore_marker(k: nat, tail: Seq<char>)
    requires
        k >= 2,
        !starts_with_multi(tail),
    ensures
        restore(marker(k) + tail) == dots(k) + restore(tail),
{
    let y = marker(k) + tail;
    assert(marker_at(y) == k) by {
        lemma_marker_prefix(k, tail);
    }
    assert(!starts_with_dot_multi(y)) by {
        lemma_dot_words_shape(k);
        let one: int = 1;
        assert(dot_words(k).subrange(3 * one, 3 * one + 3) == dot_word());
        assert(y.take(8)[3] == dot_words(k)[3]);
        assert(dot_words(k)[3] == dot_words(k).subrange(3, 6)[0]);
    }
    assert(y.skip(3 * k as int + 5) == tail) by {
        lemma_dot_words_shape(k);
    }
}

proof fn lemma_protect_restore_run(s: Seq<char>)
    requires
        s.len() > 0,
        leading_dots(s) >= 2,
        restore(protect(s.skip(leading_dots(s) as int))) == spaced(s.skip(leading_dots(s) as int)),
    ensures
        restore(protect(s)) == spaced(s),
{
    let k = leading_dots(s);
    lemma_leading_dots_bound(s);
    let rest = s.skip(k as int);
    let sp: Seq<char> = if rest.len() > 0 {
        seq![' ']
    } else {
        Seq::empty()
    };
    let tail = sp + protect(rest);
    let y = marker(k) + tail;
    let x = protect(s);
    assert(x == seq![' '] + y);
    assert(!starts_with_multi(tail)) by {
        if tail.len() >= 5 {
            assert(tail.take(5)[0] == ' ');
        }
    }
    assert(restore(x) == seq![' '] + restore(y)) by {
        lemma_restore_space(x);
        assert(x.drop_first() == y);
    }
    assert(restore(y) == dots(k) + restore(tail)) by {
        lemma_restore_marker(k, tail);
    }
    assert(restore(tail) == sp + spaced(rest)) by {
        if rest.len() > 0 {
            lemma_restore_space(tail);
            assert(tail.drop_first() == protect(rest));
        } else {
            assert(tail == protect(rest));
        }
    }
    assert(spaced(s) == seq![' '] + dots(k) + sp + spaced(rest)) by {
        assert(s.take(k as int) == dots(k));
    }
    assert(restore(x) =~= spaced(s));
}

proof fn lemma_protect_restore_dot_multi(s: Seq<char>)
    requires
        leading_dots(s) < 2,
        starts_with_dot_multi(s),
        restore(protect(s.skip(8))) == spaced(s.skip(8)),
    ensures
        restore(protect(s)) == spaced(s),
{
    let p = protect(s);
    let q = protect(s.skip(8));
    assert(p == dot_multi_word() + multi_word() + q);
    assert(p.take(8) == dot_multi_word());
    assert(p.skip(8).take(5) == multi_word());
    assert(p.skip(13) == q);
    assert forall|i: int| 0 <= i < 8 implies s[i] != '.' by {
        assert(s[i] == s.take(8)[i]);
    }
    lemma_spaced_plain(s, 8);
}

/// Protecting the runs of dots and restoring them again gives back the same runs of dots,
/// each with a space before it and one after it where more text follows, and every other
/// character as it was, in any text.
pub proof fn lemma_protect_restore(s: Seq<char>)
    ensures
        restore(protect(s)) == spaced(s),
    decreases s.len(),
{
    if s.len() > 0 {
        if leading_dots(s) >= 2 {
            let k = leading_dots(s);
            lemma_leading_dots_bound(s);
            lemma_protect_restore(s.skip(k as int));
            lemma_protect_restore_run(s);
        } else if starts_with_dot_multi(s) {
            lemma_protect_restore(s.skip(8));
            lemma_protect_restore_dot_multi(s);
        } else {
            let u = s.drop_first();
            lemma_protect_restore(u);
            lemma_no_marker_after(s);
            assert(protect(s) == seq![s[0]] + protect(u));
            assert(protect(s).drop_first() == protect(u));
        }
    }
}

/// `s` with each run of two or more dots replaced by a space and the marker for the run,
/// followed by a space where more text follows, and nothing else changed.
pub open spec fn runs_marked(s: Seq<char>) -> Seq<char>
    decreases s.len(),
    via runs_marked_decreases
{
    if s.len() == 0 {
        s
    } else if leading_dots(s) >= 2 {
        let k = leading_dots(s);
        let rest = s.skip(k as int);
        seq![' '] + marker(k) + (if rest.len() > 0 {
            seq![' ']
        } else {
            Seq::empty()
        }) + runs_marked(rest)
    } else {
        seq![s[0]] + runs_marked(s.drop_first())
    }
}

#[via_fn]
proof fn runs_marked_decreases(s: Seq<char>) {
    lemma_leading_dots_bound(s);
}

/// Whether the word of a marker for one dot occurs in `s`.
pub open spec fn has_dot_multi(s: Seq<char>) -> bool {
    exists|i: int| 0 <= i && i + 8 <= s.len() && #[trigger] s.subrange(i, i + 8) == dot_multi_word()
}

proof fn lemma_suffix_no_dot_multi(s: Seq<char>, k: int)
    requires
        0 <= k <= s.len(),
        !has_dot_multi(s),
    ensures
        !has_dot_multi(s.skip(k)),
{
    let t = s.skip(k);
    if has_dot_multi(t) {
        let i = choose|i: int|
            0 <= i && i + 8 <= t.len() && #[trigger] t.subrange(i, i + 8) == dot_multi_word();
        assert(s.subrange(i + k, i + k + 8) == t.subrange(i, i + 8));
    }
}

/// In a text that does not hold the word of a marker for one dot, protection replaces the runs
/// of two or more dots and changes nothing else.
pub proof fn lemma_protect_only_runs(s: Seq<char>)
    requires
        !has_dot_multi(s),
    ensures
        protect(s) == runs_marked(s),
    decreases s.len(),
{
    if s.len() > 0 {
        if leading_dots(s) >= 2 {
            let k = leading_dots(s);
            lemma_leading_dots_bound(s);
            lemma_suffix_no_dot_multi(s, k as int);
            lemma_protect_only_runs(s.skip(k as int));
        } else {
            assert(!starts_with_dot_multi(s)) by {
                if starts_with_dot_multi(s) {
                    let z: int = 0;
                    assert(s.subrange(z, z + 8) == s.take(8));
                    assert(has_dot_multi(s));
                }
            }
            lemma_suffix_no_dot_multi(s, 1);
            assert(s.skip(1) == s.drop_first());
            lemma_protect_only_runs(s.drop_first());
        }
    }
}

/// Whether no two dots stand side by side in `s`.
pub open spec fn no_double_dots(s: Seq<char>) -> bool {
    forall|i: int| 0 <= i && i + 1 < s.len() ==> !(#[trigger] s[i] == '.' && s[i + 1] == '.')
}

proof fn lemma_marker_no_dots(k: nat)
    ensures
        forall|i: int| 0 <= i < marker(k).len() ==> #[trigger] marker(k)[i] != '.',
{
    lemma_dot_words_shape(k);
    assert forall|i: int| 0 <= i < marker(k).len() implies #[trigger] marker(k)[i] != '.' by {
        if i < 3 * k {
            let m = i / 3;
            assert(dot_words(k).subrange(3 * m, 3 * m + 3) == dot_word());
            assert(marker(k)[i] == dot_words(k).subrange(3 * m, 3 * m + 3)[i - 3 * m]);
        } else {
            assert(marker(k)[i] == multi_word()[i - 3 * k]);
        }
    }
}

/// After protection no two dots stand side by side, and the text starts with a dot only where
/// it did before.
pub proof fn lemma_protect_no_double_dots(s: Seq<char>)
    ensures
        no_double_dots(protect(s)),
        protect(s).len() > 0 && protect(s)[0] == '.' ==> s.len() > 0 && s[0] == '.' && leading_dots(s) < 2,
        s.len() > 0 ==> protect(s).len() > 0,
    decreases s.len(),
{
    if s.len() > 0 {
        let p = protect(s);
        if leading_dots(s) >= 2 {
            let k = leading_dots(s);
            lemma_leading_dots_bound(s);
            let rest = s.skip(k as int);
            lemma_protect_no_double_dots(rest);
            let sp: Seq<char> = if rest.len() > 0 {
                seq![' ']
            } else {
                Seq::empty()
            };
            let h = seq![' '] + marker(k) + sp;
            lemma_marker_no_dots(k);
            assert(p == h + protect(rest));
            assert forall|i: int| 0 <= i < h.len() implies #[trigger] h[i] != '.' by {
                if 1 <= i < 1 + marker(k).len() {
                    assert(h[i] == marker(k)[i - 1]);
                }
            }
            assert forall|i: int| 0 <= i && i + 1 < p.len() implies !(#[trigger] p[i] == '.' && p[i
                + 1] == '.') by {
                if i < h.len() {
                    assert(p[i] == h[i]);
                } else {
                    assert(p[i] == protect(rest)[i - h.len()]);
                    assert(p[i + 1] == protect(rest)[i + 1 - h.len()]);
                }
            }
            assert(p[0] == ' ');
        } else if starts_with_dot_multi(s) {
            let h = dot_multi_word() + multi_word();
            let q = protect(s.skip(8));
            lemma_protect_no_double_dots(s.skip(8));
            assert(p == h + q);
            assert forall|i: int| 0 <= i && i + 1 < p.len() implies !(#[trigger] p[i] == '.' && p[i
                + 1] == '.') by {
                if i < h.len() {
                    assert(p[i] == h[i]);
                } else {
                    assert(p[i] == q[i - h.len()]);
                    assert(p[i + 1] == q[i + 1 - h.len()]);
                }
            }
            assert(p[0] == h[0]);
        } else {
            let u = s.drop_first();
            let q = protect(u);
            lemma_protect_no_double_dots(u);
            assert(p == seq![s[0]] + q);
            if s[0] == '.' && u.len() > 0 {
                assert(u[0] != '.') by {
                    if u[0] == '.' {
                        assert(leading_dots(u) >= 1);
                    }
                }
            }
            assert forall|i: int| 0 <= i && i + 1 < p.len() implies !(#[trigger] p[i] == '.' && p[i
                + 1] == '.') by {
                if i == 0 {
                    assert(p[1] == q[0]);
                } else {
                    assert(p[i] == q[i - 1]);
                    assert(p[i + 1] == q[i]);
                }
            }
        }
    }
}

proof fn lemma_dot_words_push(k: nat)
    ensures
        dot_words(k + 1) == dot_words(k) + dot_word(),
    decreases k,
{
    if k > 0 {
        lemma_dot_words_push((k - 1) as nat);
        assert(dot_words(k + 1) == dot_word() + dot_words(k));
        assert(dot_word() + (dot_words((k - 1) as nat) + dot_word()) == (dot_word() + dot_words(
            (k - 1) as nat,
        )) + dot_word());
    } else {
        assert(dot_words(1) == dot_word() + dot_words(0));
    }
}

/// Appends the marker for a run of `k` dots.
fn push_marker(r: &mut Vec<char>, k: usize)
    ensures
        final(r)@ == old(r)@ + marker(k as nat),
{
    let ghost start = r@;
    let mut j: usize = 0;
    while j < k
        invariant
            j <= k,
            r@ == start + dot_words(j as nat),
        decreases k - j,
    {
        r.push('D');
        r.push('O');
        r.push('T');
        proof {
            lemma_dot_words_push(j as nat);
            assert(r@ == start + dot_words(j as nat + 1));
        }
        j += 1;
    }
    r.push('M');
    r.push('U');
    r.push('L');
    r.push('T');
    r.push('I');
    assert(r@ == start + marker(k as nat));
}

/// Whether the closing letters of a marker stand in `s` from `i` on.
fn multi_at(s: &Vec<char>, i: usize) -> (r: bool)
    requires
        i <= s.len(),
    ensures
        r == starts_with_multi(s@.skip(i as int)),
{
    let r = s.len() - i >= 5 && s[i] == 'M' && s[i + 1] == 'U' && s[i + 2] == 'L' && s[i + 3]
        == 'T' && s[i + 4] == 'I';
    proof {
        let t = s@.skip(i as int);
        if t.len() >= 5 {
            if r {
                assert(t.take(5) =~= multi_word());
            } else {
                assert(!(t.take(5) =~= multi_word()) ==> t.take(5) != multi_word());
                assert(t.take(5)[0] == s@[i as int]);
                assert(t.take(5)[1] == s@[i + 1]);
                assert(t.take(5)[2] == s@[i + 2]);
                assert(t.take(5)[3] == s@[i + 3]);
                assert(t.take(5)[4] == s@[i + 4]);
            }
        }
    }
    r
}

/// Whether the word of a marker for one dot stands in `s` from `i` on.
fn dot_multi_at(s: &Vec<char>, i: usize) -> (r: bool)
    requires
        i <= s.len(),
    ensures
        r == starts_with_dot_multi(s@.skip(i as int)),
{
    let r = s.len() - i >= 8 && s[i] == 'D' && s[i + 1] == 'O' && s[i + 2] == 'T' && multi_at(
        s,
        i + 3,
    );
    proof {
        let t = s@.skip(i as int);
        if t.len() >= 8 {
            let w = t.take(8);
            assert(s@.skip(i + 3).take(5) == w.subrange(3, 8));
            assert(w[0] == s@[i as int]);
            assert(w[1] == s@[i + 1]);
            assert(w[2] == s@[i + 2]);
            if r {
                assert(w =~= dot_multi_word());
            } else if w == dot_multi_word() {
                assert(w.subrange(3, 8) =~= multi_word());
            }
        }
    }
    r
}

/// Appends the closing letters of a marker.
fn push_multi(r: &mut Vec<char>)
    ensures
        final(r)@ == old(r)@ + multi_word(),
{
    r.push('M');
    r.push('U');
    r.push('L');
    r.push('T');
    r.push('I');
}

/// Replaces each run of two or more dots by a space and the marker for the run, followed by
/// a space where more text follows; where the text holds the word of a marker for one dot,
/// writes its closing letters twice. No two dots stay side by side.
pub fn protect_multidots(s: &Vec<char>) -> (r: Vec<char>)
    ensures
        r@ == protect(s@),
        no_double_dots(r@),
        !has_dot_multi(s@) ==> r@ == runs_marked(s@),
{
    proof {
        lemma_protect_no_double_dots(s@);
        if !has_dot_multi(s@) {
            lemma_protect_only_runs(s@);
        }
    }
    let mut r: Vec<char> = Vec::new();
    let n = s.len();
    let mut i: usize = 0;
    assert(s@.skip(0) == s@);
    while i < n
        invariant
            n == s.len(),
            i <= n,
            r@ + protect(s@.skip(i as int)) == protect(s@),
        decreases n - i,
    {
        let ghost t = s@.skip(i as int);
        let mut k: usize = 0;
        while k < n - i && s[i + k] == '.'
            invariant
                n == s.len(),
                i < n,
                k <= n - i,
                t == s@.skip(i as int),
                forall|m: int| 0 <= m < k ==> t[m] == '.',
            decreases n - i - k,
        {
            k += 1;
        }
        proof {
            lemma_leading_dots_count(t, k as int);
        }
        if k >= 2 {
            let ghost before = r@;
            r.push(' ');
            push_marker(&mut r, k);
            if k < n - i {
                r.push(' ');
            }
            proof {
                let rest = t.skip(k as int);
                assert(rest == s@.skip(i + k));
                let sp: Seq<char> = if rest.len() > 0 {
                    seq![' ']
                } else {
                    Seq::empty()
                };
                assert(r@ == before + (seq![' '] + marker(k as nat) + sp));
                assert(protect(t) == seq![' '] + marker(k as nat) + sp + protect(rest));
            }
            i += k;
        } else if dot_multi_at(s, i) {
            let ghost before = r@;
            r.push('D');
            r.push('O');
            r.push('T');
            push_multi(&mut r);
            push_multi(&mut r);
            proof {
                assert(t.skip(8) == s@.skip(i + 8));
                assert(r@ =~= before + (dot_multi_word() + multi_word()));
            }
            i += 8;
        } else {
            let ghost before = r@;
            r.push(s[i]);
            proof {
                assert(t[0] == s@[i as int]);
                assert(t.drop_first() == s@.skip(i + 1));
                assert(protect(t) == seq![t[0]] + protect(t.drop_first()));
                assert(r@ == before + seq![t[0]]);
            }
            i += 1;
        }
    }
    assert(s@.skip(n as int) == Seq::<char>::empty());
    assert(r@ + Seq::<char>::empty() == r@);
    r
}

/// Replaces each marker by the run of dots it stands for, and writes the word of a marker for
/// one dot whose closing letters were written twice as it was.
pub fn restore_multidots(s: &Vec<char>) -> (r: Vec<char>)
    ensures
        r@ == restore(s@),
{
    let mut r: Vec<char> = Vec::new();
    let n = s.len();
    let mut i: usize = 0;
    assert(s@.skip(0) == s@);
    while i < n
        invariant
            n == s.len(),
            i <= n,
            r@ + restore(s@.skip(i as int)) == restore(s@),
        decreases n - i,
    {
        let ghost t = s@.skip(i as int);
        if dot_multi_at(s, i) && multi_at(s, i + 8) {
            proof {
                assert(t.skip(8) == s@.skip(i + 8));
                assert(t.skip(13) == s@.skip(i + 13));
            }
            let ghost before = r@;
            r.push('D');
            r.push('O');
            r.push('T');
            push_multi(&mut r);
            assert(r@ =~= before + dot_multi_word());
            i += 13;
        } else {
            proof {
                if starts_with_dot_multi(t) {
                    assert(t.skip(8) == s@.skip(i + 8));
                }
            }
            let mut j: usize = 0;
            let mut p: usize = i;
            while n - p >= 3 && s[p] == 'D' && s[p + 1] == 'O' && s[p + 2] == 'T'
                invariant
                    n == s.len(),
                    i < n,
                    i <= p <= n,
                    p - i == 3 * j,
                    t == s@.skip(i as int),
                    forall|m: int|
                        0 <= m < j ==> #[trigger] t.subrange(3 * m, 3 * m + 3) == dot_word(),
                decreases n - p,
            {
                assert(t.subrange(3 * j as int, 3 * j as int + 3) =~= dot_word());
                j += 1;
                p += 3;
            }
            proof {
                if t.len() >= 3 * j + 3 {
                    assert(t.subrange(3 * j as int, 3 * j as int + 3)[0] == s@[p as int]);
                    assert(t.subrange(3 * j as int, 3 * j as int + 3)[1] == s@[p + 1]);
                    assert(t.subrange(3 * j as int, 3 * j as int + 3)[2] == s@[p + 2]);
                }
                lemma_leading_dot_words_count(t, j as int);
            }
            let is_marker = j >= 1 && n - p >= 5 && s[p] == 'M' && s[p + 1] == 'U' && s[p + 2]
                == 'L' && s[p + 3] == 'T' && s[p + 4] == 'I' && !multi_at(s, p + 5);
            proof {
                if j >= 1 && t.len() >= 3 * j + 5 {
                    let w = t.subrange(3 * j as int, 3 * j as int + 5);
                    assert(w[0] == s@[p as int]);
                    assert(w[1] == s@[p + 1]);
                    assert(w[2] == s@[p + 2]);
                    assert(w[3] == s@[p + 3]);
                    assert(w[4] == s@[p + 4]);
                    assert(t.skip(3 * j as int + 5) == s@.skip(p + 5));
                    if s@[p as int] == 'M' && s@[p + 1] == 'U' && s@[p + 2] == 'L' && s@[p + 3]
                        == 'T' && s@[p + 4] == 'I' {
                        assert(w =~= multi_word());
                    }
                }
            }
            if is_marker {
                let ghost before = r@;
                let mut d: usize = 0;
                while d < j
                    invariant
                        d <= j,
                        r@ == before + dots(d as nat),
                    decreases j - d,
                {
                    r.push('.');
                    assert(dots(d as nat + 1) == dots(d as nat).push('.'));
                    d += 1;
                }
                proof {
                    assert(marker_at(t) == j);
                    assert(t.skip(3 * j as int + 5) == s@.skip(p + 5));
                }
                i = p + 5;
            } else {
                r.push(s[i]);
                proof {
                    assert(marker_at(t) == 0);
                    assert(t[0] == s@[i as int]);
                    assert(t.drop_first() == s@.skip(i + 1));
                }
                i += 1;
            }
        }
    }
    assert(s@.skip(n as int) == Seq::<char>::empty());
    assert(r@ + Seq::<char>::empty() == r@);
    r
}

} // verus!
