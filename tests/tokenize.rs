use mosers::{Language, MosesTokenizer};

#[test]
fn test_1() {
    let tokenizer = MosesTokenizer::new(Language::En);

    let tkns = tokenizer.tokenize("Machine Learning is great, isn\'t it?", Option::None);

    assert_eq!(
        tkns.tokens(),
        ["Machine", "Learning", "is", "great", ",", "isn", "&apos;t", "it", "?"]
    );
}

#[test]
fn test_2() {
    let tokenizer = MosesTokenizer::new(Language::En);

    let tkns = tokenizer.tokenize("abc def.", Option::None);

    assert_eq!(tkns.tokens(), ["abc", "def", "."]);
}

#[test]
fn test_3() {
    let tokenizer = MosesTokenizer::new(Language::En);

    let tkns = tokenizer.tokenize("2016, pp.", Option::None);

    assert_eq!(tkns.tokens(), ["2016", ",", "pp", "."]);
}

#[test]
fn test_4() {
    let tokenizer = MosesTokenizer::new(Language::En);

    let tkns = tokenizer.tokenize("this 'is' the thing", Option::None);

    assert_eq!(
        tkns.tokens(),
        ["this", "&apos;", "is", "&apos;", "the", "thing"]
    );
}

#[test]
fn test_5() {
    let tokenizer = MosesTokenizer::new(Language::En);

    let tkns = tokenizer.tokenize("foo-bar", Option::None);

    assert_eq!(tkns.tokens(), ["foo", "@-@", "bar"]);
}

#[test]
fn test_escape_xml() {
    let text = "This ain't funny. It's actually hillarious, yet double Ls. | [] < > [ ] & You're gonna shake it off? Don't?";
    let tokenizer = MosesTokenizer::new(Language::En);
    let tkns = tokenizer.tokenize(text, Option::None);
    assert_eq!(
        tkns.tokens(),
        [
            "This",
            "ain",
            "&apos;t",
            "funny",
            ".",
            "It",
            "&apos;s",
            "actually",
            "hillarious",
            ",",
            "yet",
            "double",
            "Ls",
            ".",
            "&#124;",
            "&#91;",
            "&#93;",
            "&lt;",
            "&gt;",
            "&#91;",
            "&#93;",
            "&amp;",
            "You",
            "&apos;re",
            "gonna",
            "shake",
            "it",
            "off",
            "?",
            "Don",
            "&apos;t",
            "?",
        ]
    );
}

#[test]
fn test_opening_brackets() {
    let text = "By the mid 1990s a version of the game became a Latvian television series (with a parliamentary setting, and played by Latvian celebrities).";
    let tokenizer = MosesTokenizer::new(Language::En);
    let tkns = tokenizer.tokenize(text, Option::None);
    assert_eq!(
        tkns.tokens(),
        [
            "By",
            "the",
            "mid",
            "1990s",
            "a",
            "version",
            "of",
            "the",
            "game",
            "became",
            "a",
            "Latvian",
            "television",
            "series",
            "(",
            "with",
            "a",
            "parliamentary",
            "setting",
            ",",
            "and",
            "played",
            "by",
            "Latvian",
            "celebrities",
            ")",
            "."
        ]
    );
}

#[test]
fn test_dot_splitting() {
    let text = "The meeting will take place at 11:00 a.m. Tuesday.";
    let tokenizer = MosesTokenizer::new(Language::En);
    let tkns = tokenizer.tokenize(text, Option::None);
    assert_eq!(
        tkns.tokens(),
        [
            "The", "meeting", "will", "take", "place", "at", "11", ":", "00", "a.m.",
            "Tuesday", "."
        ]
    );
}

#[test]
fn test_trailing_dot_apostrophe() {
    let text = "'Hello.'";
    let tokenizer = MosesTokenizer::new(Language::En);
    let tkns = tokenizer.tokenize(text, Option::None);
    assert_eq!(tkns.tokens(), ["&apos;Hello", ".", "&apos;"]);
}

#[test]
fn test_final_dot_unconditionally() {
    let text = "'So am I.";
    let tokenizer = MosesTokenizer::new(Language::En);
    let tkns = tokenizer.tokenize(text, Option::None);
    assert_eq!(tkns.tokens(), ["&apos;So", "am", "I", "."]);

    let text = "Des gens admirent une œuvre d'art.";
    let tokenizer = MosesTokenizer::new(Language::Fr);
    let tkns = tokenizer.tokenize(text, Option::Some(false));
    assert_eq!(
        tkns.tokens(),
        ["Des", "gens", "admirent", "une", "œuvre", "d'", "art", "."]
    );

    let text = "...schwer wie ein iPhone 5.";
    let tokenizer = MosesTokenizer::new(Language::De);
    let tkns = tokenizer.tokenize(text, Option::None);
    assert_eq!(
        tkns.tokens(),
        ["...", "schwer", "wie", "ein", "iPhone", "5", "."]
    );

    let text = "Dvě děti, které běží bez bot.";
    let tokenizer = MosesTokenizer::new(Language::Cz);
    let tkns = tokenizer.tokenize(text, Option::None);
    assert_eq!(
        tkns.tokens(),
        ["Dvě", "děti", ",", "které", "běží", "bez", "bot", "."]
    );
}
