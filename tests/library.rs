use mosers::escape::escape_xml;
use mosers::multidot::{protect_multidots, restore_multidots};
use mosers::prefixes::resolve_nonbreaking;
use mosers::{Language, MosesPunctNormalizer, MosesTokenizer, PerlUniProps, Tokens, UnknownLanguage};

fn chars(s: &str) -> Vec<char> {
    s.chars().collect()
}

fn text(v: &[char]) -> String {
    v.iter().collect()
}

#[test]
fn language_tags_ignore_ascii_case() {
    assert_eq!(Language::from_tag("EN"), Ok(Language::En));
    assert_eq!(Language::from_tag("cjk"), Ok(Language::Cjk));
    assert_eq!(Language::from_tag("Yue"), Ok(Language::Yue));
    assert_eq!("fr".parse::<Language>(), Ok(Language::Fr));
    assert_eq!(Language::Mni.as_str(), "mni");
}

#[test]
fn unknown_language_is_an_error() {
    assert_eq!(Language::from_tag("xx"), Err(UnknownLanguage));
    assert_eq!(Language::from_tag(""), Err(UnknownLanguage));
    assert_eq!(Language::from_tag("en "), Err(UnknownLanguage));
}

#[test]
fn property_classes() {
    assert_eq!(PerlUniProps::IsN.as_str(), "\\p{N}");
    assert_eq!(PerlUniProps::IsAlpha.as_str(), "\\p{Alphabetic}");
}

#[test]
fn tokens_are_never_empty_and_hold_no_space() {
    let t = Tokens { text: String::from("  a \t b\u{3000}c  ") };
    assert_eq!(t.tokens(), ["a", "b", "c"]);
    let tokenizer = MosesTokenizer::new(Language::En);
    let empty: Vec<String> = Vec::new();
    assert_eq!(tokenizer.tokenize("", None).tokens(), empty);
    assert_eq!(tokenizer.tokenize(" \n\t ", None).tokens(), empty);
    for tok in tokenizer.tokenize("  Hello ,\t\tworld ... ! ", None).tokens() {
        assert!(!tok.is_empty());
        assert!(!tok.chars().any(|c| c.is_whitespace()));
    }
}

#[test]
fn retokenizing_joined_tokens_keeps_them() {
    let tokenizer = MosesTokenizer::new(Language::En);
    let first = tokenizer.tokenize("abc def.", Some(false)).tokens();
    let again = tokenizer.tokenize(first.join(" ").as_str(), Some(false)).tokens();
    assert_eq!(first, again);
}

#[test]
fn xml_escaping_in_order() {
    let r = escape_xml(&chars("a&b|c<d>e\"f'g[h]"));
    assert_eq!(text(&r), "a&amp;b&#124;c&lt;d&gt;e&quot;f&apos;g&#91;h&#93;");
    let r = escape_xml(&chars("&amp;"));
    assert_eq!(text(&r), "&amp;amp;");
}

#[test]
fn escaping_can_be_switched_off() {
    let tokenizer = MosesTokenizer::new(Language::En);
    assert_eq!(tokenizer.tokenize("a & b", Some(false)).tokens(), ["a", "&", "b"]);
    assert_eq!(tokenizer.tokenize("a & b", Some(true)).tokens(), ["a", "&amp;", "b"]);
    assert_eq!(tokenizer.tokenize("a & b", None).tokens(), ["a", "&amp;", "b"]);
}

#[test]
fn multidots_round_trip() {
    let s = chars("wait... what..");
    let p = protect_multidots(&s);
    assert_eq!(text(&p), "wait DOTDOTDOTMULTI  what DOTDOTMULTI");
    let r = restore_multidots(&p);
    assert_eq!(text(&r), "wait ...  what ..");
    let marker = chars("DOTMULTI. MULTI DOTDOTMULTI");
    let p = protect_multidots(&marker);
    assert_eq!(text(&p), "DOTMULTIMULTI. MULTI DOTDOTMULTIMULTI");
    assert_eq!(text(&restore_multidots(&p)), "DOTMULTI. MULTI DOTDOTMULTI");
    let plain = chars("MULTI a.b");
    assert_eq!(text(&protect_multidots(&plain)), "MULTI a.b");
    let single = chars("a.b.");
    assert_eq!(text(&protect_multidots(&single)), "a.b.");
    assert_eq!(text(&restore_multidots(&protect_multidots(&single))), "a.b.");
}

#[test]
fn multidots_in_tokens() {
    let tokenizer = MosesTokenizer::new(Language::En);
    assert_eq!(tokenizer.tokenize("Wait.... what", None).tokens(), ["Wait", "....", "what"]);
}

#[test]
fn period_kept_before_lower_case() {
    let tokenizer = MosesTokenizer::new(Language::En);
    assert_eq!(tokenizer.tokenize("see fig. two", None).tokens(), ["see", "fig.", "two"]);
    assert_eq!(tokenizer.tokenize("see fig. Two", None).tokens(), ["see", "fig", ".", "Two"]);
}

#[test]
fn prefix_list_entries() {
    let list = "# a comment\n  Y  \n\nX #NUMERIC_ONLY# Y\npp #NUMERIC_ONLY# 12\n";
    let tokenizer = MosesTokenizer::new_with_prefixes(Language::En, list);
    assert_eq!(tokenizer.tokenize("Y. Z", None).tokens(), ["Y.", "Z"]);
    assert_eq!(tokenizer.tokenize("12. Mai", None).tokens(), ["12.", "Mai"]);
    assert_eq!(tokenizer.tokenize("12.", None).tokens(), ["12", "."]);
    let plain = MosesTokenizer::new(Language::En);
    assert_eq!(plain.tokenize("Y. Z", None).tokens(), ["Y", ".", "Z"]);
    assert_eq!(plain.tokenize("12. Mai", None).tokens(), ["12", ".", "Mai"]);
}

#[test]
fn commas_between_digits_stay() {
    let tokenizer = MosesTokenizer::new(Language::En);
    assert_eq!(tokenizer.tokenize("1,000 and a,b", None).tokens(), ["1,000", "and", "a", ",", "b"]);
}

#[test]
fn english_possessive_numbers() {
    let tokenizer = MosesTokenizer::new(Language::En);
    assert_eq!(tokenizer.tokenize("the 1990's", None).tokens(), ["the", "1990", "&apos;s"]);
}

#[test]
fn italian_elision() {
    let tokenizer = MosesTokenizer::new(Language::It);
    assert_eq!(tokenizer.tokenize("l'amico", Some(false)).tokens(), ["l'", "amico"]);
}

#[test]
fn symbols_are_padded() {
    let tokenizer = MosesTokenizer::new(Language::De);
    assert_eq!(tokenizer.tokenize("(a)/b", Some(false)).tokens(), ["(", "a", ")", "/", "b"]);
}

#[test]
fn penn_contractions_and_brackets() {
    let tokenizer = MosesTokenizer::new(Language::En);
    assert_eq!(
        tokenizer.penn_tokenize("He can't go (now).").tokens(),
        ["He", "ca", "n&apos;t", "go", "-LRB-", "now", "-RRB-", "."]
    );
}

#[test]
fn penn_quotes() {
    let tokenizer = MosesTokenizer::new(Language::En);
    assert_eq!(tokenizer.penn_tokenize("\"Hi\"").tokens(), ["``", "Hi", "&apos;&apos;"]);
}

#[test]
fn penn_colloquial_forms() {
    let tokenizer = MosesTokenizer::new(Language::En);
    assert_eq!(
        tokenizer.penn_tokenize("I gonna do it").tokens(),
        ["I", "gon", "na", "do", "it"]
    );
    assert_eq!(tokenizer.penn_tokenize("You cannot").tokens(), ["You", "can", "not"]);
}

#[test]
fn penn_ellipsis_and_symbols() {
    let tokenizer = MosesTokenizer::new(Language::En);
    assert_eq!(
        tokenizer.penn_tokenize("Wait... $5 & more").tokens(),
        ["Wait", "...", "$", "5", "&amp;", "more"]
    );
}

#[test]
fn normalize_quotes_and_dashes() {
    let n = MosesPunctNormalizer::new(Language::En);
    assert_eq!(n.normalize("Hello \u{201e}World\u{201c} \u{2014} test\u{2026}"), "Hello \"World' - test...");
}

#[test]
fn normalize_fullwidth_punctuation() {
    let n = MosesPunctNormalizer::new(Language::Zh);
    assert_eq!(n.normalize("\u{4f60}\u{597d}\u{ff0c}\u{4e16}\u{754c}\u{ff01}"), "\u{4f60}\u{597d},\u{4e16}\u{754c}!");
    let off = MosesPunctNormalizer::new_with_options(Language::Zh, None, None, None, Some(false), None);
    assert_eq!(off.normalize("a\u{ff01}"), "a\u{ff01}");
}

#[test]
fn normalize_spacing() {
    let n = MosesPunctNormalizer::new(Language::En);
    assert_eq!(n.normalize("a  ( b )  c\r"), "a (b) c");
    assert_eq!(n.normalize("5 % of x : y ; z"), "5% of x: y; z");
}

#[test]
fn normalize_pseudo_spaces() {
    let n = MosesPunctNormalizer::new(Language::En);
    assert_eq!(n.normalize("Prix\u{a0}: 5\u{a0}%"), "Prix: 5%");
}

#[test]
fn normalize_numbers_by_language() {
    let fr = MosesPunctNormalizer::new(Language::Fr);
    assert_eq!(fr.normalize("1\u{a0}000 euros"), "1,000 euros");
    let en = MosesPunctNormalizer::new(Language::En);
    assert_eq!(en.normalize("1\u{a0}000 euros"), "1.000 euros");
    let off = MosesPunctNormalizer::new_with_options(Language::En, None, None, Some(false), None, None);
    assert_eq!(off.normalize("1\u{a0}000"), "1\u{a0}000");
}

#[test]
fn normalize_quote_commas() {
    let en = MosesPunctNormalizer::new(Language::En);
    assert_eq!(en.normalize("\"Hi\", he said"), "\"Hi,\" he said");
    let de = MosesPunctNormalizer::new(Language::De);
    assert_eq!(de.normalize("\"Hallo,\" sagte er"), "\"Hallo\", sagte er");
    let off = MosesPunctNormalizer::new_with_options(Language::En, None, Some(false), None, None, None);
    assert_eq!(off.normalize("\"Hi\", he said"), "\"Hi\", he said");
}

#[test]
fn normalize_penn_quotes() {
    let n = MosesPunctNormalizer::new(Language::En);
    assert_eq!(n.normalize("`a"), "'a");
    let off = MosesPunctNormalizer::new_with_options(Language::En, Some(false), None, None, None, None);
    assert_eq!(off.normalize("`a"), "`a");
}

#[test]
fn normalize_french_quotes() {
    let n = MosesPunctNormalizer::new(Language::Fr);
    assert_eq!(n.normalize("\u{ab}\u{a0}oui\u{a0}\u{bb}"), "\"oui\"");
}

#[test]
fn normalize_control_characters() {
    let keep = MosesPunctNormalizer::new(Language::En);
    assert_eq!(keep.normalize("a\u{7}b"), "a\u{7}b");
    let strip = MosesPunctNormalizer::new_with_options(Language::En, None, None, None, None, Some(true));
    assert_eq!(strip.normalize("a\u{7}b"), "ab");
}

#[test]
fn marker_words_in_text_survive() {
    let tokenizer = MosesTokenizer::new(Language::En);
    assert_eq!(tokenizer.tokenize("DOTMULTI", Some(false)).tokens(), ["DOTMULTI"]);
    assert_eq!(
        tokenizer.tokenize("see DOTDOTMULTI... now", Some(false)).tokens(),
        ["see", "DOTDOTMULTI", "...", "now"]
    );
}

#[test]
fn only_a_single_final_period_is_split() {
    let none: Vec<Vec<char>> = Vec::new();
    assert_eq!(text(&resolve_nonbreaking(&chars("5.. X"), &none, &none)), "5.. X");
    assert_eq!(text(&resolve_nonbreaking(&chars("5. X"), &none, &none)), "5 . X");
    assert_eq!(text(&resolve_nonbreaking(&chars("a. x"), &none, &none)), "a. x");
}

#[test]
fn tokens_join_back_to_the_text() {
    let tokenizer = MosesTokenizer::new(Language::En);
    for s in ["  Hello ,\t\tworld ... ! ", "a\u{3000}b\nc", "", "x"] {
        let t = tokenizer.tokenize(s, None);
        assert_eq!(t.tokens().join(" "), t.text);
        assert!(!t.text.starts_with(' ') && !t.text.ends_with(' '));
        assert!(!t.text.contains("  "));
    }
}

#[test]
fn escaped_text_has_no_bare_specials() {
    let r = text(&escape_xml(&chars("<a href='x'>[1] | 2 & \"3\"</a>")));
    assert!(!r.chars().any(|c| "|<>\"'[]".contains(c)));
    assert_eq!(r, "&lt;a href=&apos;x&apos;&gt;&#91;1&#93; &#124; 2 &amp; &quot;3&quot;&lt;/a&gt;");
}

#[test]
fn ordered_unescape_gives_the_text_back() {
    let s = "&amp; [x] <'|'> \"&#93;\"";
    let r = text(&escape_xml(&chars(s)));
    let back = r
        .replace("&#93;", "]")
        .replace("&#91;", "[")
        .replace("&apos;", "'")
        .replace("&quot;", "\"")
        .replace("&gt;", ">")
        .replace("&lt;", "<")
        .replace("&#124;", "|")
        .replace("&amp;", "&");
    assert_eq!(back, s);
}
