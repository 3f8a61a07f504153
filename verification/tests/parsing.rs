use seqraph::currency::Euro;
use seqraph::text::{Punctuation, TextElement, Word};

#[test]
fn parse_euro() {
    for u in [1u64, 32, 1823, 99999999] {
        assert_eq!(Euro::parse(&format!("{}€", u)).unwrap().1, Euro::from(u));
        assert_eq!(Euro::parse(&format!("{} Euro", u)).unwrap().1, Euro::from(u));
        assert_eq!(Euro::parse(&format!("€{}", u)).unwrap().1, Euro::from(u));
        assert_eq!(Euro::parse(&format!("{} Euros", u)).unwrap().1, Euro::from(u));
    }
}

#[test]
fn parse_euro_remainders_and_misses() {
    let (rest, value) = Euro::parse("12€ and change").unwrap();
    assert_eq!(value, Euro(12));
    assert_eq!(rest, " and change");

    let (rest, value) = Euro::parse("7 Euros!").unwrap();
    assert_eq!(value, Euro(7));
    assert_eq!(rest, "!");

    let (rest, value) = Euro::parse("7 Euro!").unwrap();
    assert_eq!(value, Euro(7));
    assert_eq!(rest, "!");

    let (rest, value) = Euro::parse("3 euros").unwrap();
    assert_eq!(value, Euro(3));
    assert_eq!(rest, "");

    assert_eq!(Euro::parse(""), None);
    assert_eq!(Euro::parse("abc"), None);
    assert_eq!(Euro::parse("€"), None);
    assert_eq!(Euro::parse("12"), None);
    assert_eq!(Euro::parse("12 Dollars"), None);
    // a value over the unit type's range is rejected
    assert_eq!(Euro::parse("99999999999999999999€"), None);
}

#[test]
fn parse_textelement() {
    assert_eq!(
        TextElement::parse(",").unwrap().1,
        TextElement::Punctuation(Punctuation::Comma)
    );
    assert_eq!(
        TextElement::parse(".").unwrap().1,
        TextElement::Punctuation(Punctuation::Dot)
    );
    assert_eq!(
        TextElement::parse(":").unwrap().1,
        TextElement::Punctuation(Punctuation::Colon)
    );
    assert_eq!(
        TextElement::parse(";").unwrap().1,
        TextElement::Punctuation(Punctuation::Semicolon)
    );
    assert_eq!(
        TextElement::parse("\'").unwrap().1,
        TextElement::Punctuation(Punctuation::Quote)
    );
    assert_eq!(
        TextElement::parse("\"").unwrap().1,
        TextElement::Punctuation(Punctuation::DoubleQuote)
    );
    let words = vec!["Hello", "Hi", "yes", "aha", "Mathematik", "mathmatical"];
    for word in words {
        assert_eq!(
            TextElement::parse(word).unwrap().1,
            TextElement::Word(Word::from(word))
        );
    }
}

#[test]
fn parse_textelement_remainder() {
    let (rest, element) = TextElement::parse("Hello, world").unwrap();
    assert_eq!(element, TextElement::Word(Word::from("Hello")));
    assert_eq!(rest, ", world");

    let (rest, element) = TextElement::parse("!next").unwrap();
    assert_eq!(element, TextElement::Punctuation(Punctuation::ExclamationMark));
    assert_eq!(rest, "next");

    assert_eq!(TextElement::parse(""), None);
    assert_eq!(TextElement::parse(" leading space"), None);
    assert_eq!(TextElement::parse("42"), None);
}

#[test]
fn is_stop_classification() {
    assert!(TextElement::Punctuation(Punctuation::Dot).is_stop());
    assert!(TextElement::Punctuation(Punctuation::QuestionMark).is_stop());
    assert!(TextElement::Punctuation(Punctuation::ExclamationMark).is_stop());
    assert!(TextElement::Punctuation(Punctuation::DoubleQuote).is_stop());
    assert!(TextElement::Punctuation(Punctuation::Quote).is_stop());
    assert!(TextElement::Stop.is_stop());
    assert!(TextElement::Empty.is_stop());
    assert!(!TextElement::Start.is_stop());
    assert!(!TextElement::Punctuation(Punctuation::Comma).is_stop());
    assert!(!TextElement::Punctuation(Punctuation::Colon).is_stop());
    assert!(!TextElement::Punctuation(Punctuation::Semicolon).is_stop());
    assert!(!TextElement::Word(Word::from("word")).is_stop());
}

#[test]
fn one_euro() {
    assert_eq!(seqraph::currency::euro(), Euro(1));
}
