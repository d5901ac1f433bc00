use vstd::prelude::*;

verus! {

/// What `regex` makes of `text` when every match of `pattern` in it is replaced by `rep`
/// (with `$n` and `${n}` standing for capture groups), or `None` where `pattern` is not a
/// valid expression.
pub uninterp spec fn regex_replace_all_result(
    pattern: Seq<char>,
    text: Seq<char>,
    rep: Seq<char>,
) -> Option<Seq<char>>;

/// The same for `fancy_regex`, whose expressions may hold look-around; `None` also where the
/// matcher gives up on `text`.
pub uninterp spec fn fancy_replace_all_result(
    pattern: Seq<char>,
    text: Seq<char>,
    rep: Seq<char>,
) -> Option<Seq<char>>;

/// Relies on `regex::Regex::new` and `regex::Regex::replace_all`: compiles the pattern and
/// replaces all of its non-overlapping matches, left to right.
#[verifier::external_body]
fn regex_replace_all(pattern: &str, text: &str, rep: &str) -> (r: Option<String>)
    ensures
        match r {
            Some(s) => regex_replace_all_result(pattern@, text@, rep@) == Some(s@),
            None => regex_replace_all_result(pattern@, text@, rep@) is None,
        },
{
    match regex::Regex::new(pattern) {
        Ok(re) => Some(re.replace_all(text, rep).into_owned()),
        Err(_) => None,
    }
}

/// Relies on `fancy_regex::Regex::new` and `fancy_regex::Regex::try_replacen` with no limit:
/// compiles the pattern and replaces all of its non-overlapping matches, left to right.
#[verifier::external_body]
fn fancy_replace_all(pattern: &str, text: &str, rep: &str) -> (r: Option<String>)
    ensures
        match r {
            Some(s) => fancy_replace_all_result(pattern@, text@, rep@) == Some(s@),
            None => fancy_replace_all_result(pattern@, text@, rep@) is None,
        },
{
    match fancy_regex::Regex::new(pattern) {
        Ok(re) => match re.try_replacen(text, 0, rep) {
            Ok(s) => Some(s.into_owned()),
            Err(_) => None,
        },
        Err(_) => None,
    }
}

/// One rewrite step: the replaced text, or the text unchanged where the step cannot be made.
pub open spec fn rewritten(text: Seq<char>, pattern: Seq<char>, rep: Seq<char>) -> Seq<char> {
    match regex_replace_all_result(pattern, text, rep) {
        Some(s) => s,
        None => text,
    }
}

/// One rewrite step through the look-around engine.
pub open spec fn fancy_rewritten(text: Seq<char>, pattern: Seq<char>, rep: Seq<char>) -> Seq<char> {
    match fancy_replace_all_result(pattern, text, rep) {
        Some(s) => s,
        None => text,
    }
}

/// A table of rewrite steps as pairs of pattern and replacement.
pub open spec fn rules_view(rules: Seq<(&str, &str)>) -> Seq<(Seq<char>, Seq<char>)> {
    rules.map_values(|p: (&str, &str)| (p.0@, p.1@))
}

/// The steps of `rules` made one after the other, first to last.
pub open spec fn rewritten_by(text: Seq<char>, rules: Seq<(Seq<char>, Seq<char>)>) -> Seq<char>
    decreases rules.len(),
{
    if rules.len() == 0 {
        text
    } else {
        let last = rules.last();
        rewritten(rewritten_by(text, rules.drop_last()), last.0, last.1)
    }
}

/// Replaces every match of `pattern` in `text` by `rep`.
pub fn rewrite(text: &str, pattern: &str, rep: &str) -> (r: String)
    ensures
        r@ == rewritten(text@, pattern@, rep@),
{
    match regex_replace_all(pattern, text, rep) {
        Some(s) => s,
        None => text.to_owned(),
    }
}

/// Replaces every match of `pattern`, which may hold look-around, in `text` by `rep`.
pub fn fancy_rewrite(text: &str, pattern: &str, rep: &str) -> (r: String)
    ensures
        r@ == fancy_rewritten(text@, pattern@, rep@),
{
    match fancy_replace_all(pattern, text, rep) {
        Some(s) => s,
        None => text.to_owned(),
    }
}

/// Makes the steps of `rules` one after the other.
pub fn rewrite_by(text: &str, rules: &Vec<(&str, &str)>) -> (r: String)
    ensures
        r@ == rewritten_by(text@, rules_view(rules@)),
{
    let mut t = text.to_owned();
    let mut i: usize = 0;
    while i < rules.len()
        invariant
            i <= rules.len(),
            t@ == rewritten_by(text@, rules_view(rules@).take(i as int)),
        decreases rules.len() - i,
    {
        let (p, rep) = rules[i];
        t = rewrite(t.as_str(), p, rep);
        assert(rules_view(rules@).take(i + 1).drop_last() == rules_view(rules@).take(i as int));
        i += 1;
    }
    assert(rules_view(rules@).take(rules.len() as int) == rules_view(rules@));
    t
}

} // verus!
