//! Text elements: words and punctuation parsed from raw text, and the
//! classification of elements that end a sentence.

use vstd::prelude::*;
use vstd::string::StrSliceExecFns;

verus! {

/// Whether `c` is an ASCII letter.
pub open spec fn is_alpha_char(c: char) -> bool {
    ('a' <= c <= 'z') || ('A' <= c <= 'Z')
}

/// A word: a maximal run of ASCII letters.
#[derive(Debug, PartialEq, Eq, Clone, Hash)]
pub struct Word(pub String);

/// A punctuation mark.
#[derive(Debug, PartialEq, Eq, Clone, Copy, Hash, Structural)]
pub enum Punctuation {
    Dot,
    Comma,
    Colon,
    Semicolon,
    Quote,
    DoubleQuote,
    QuestionMark,
    ExclamationMark,
}

/// The punctuation mark written as the character `c`, if any.
pub open spec fn punct_char(c: char) -> Option<Punctuation> {
    if c == '.' {
        Some(Punctuation::Dot)
    } else if c == ',' {
        Some(Punctuation::Comma)
    } else if c == ':' {
        Some(Punctuation::Colon)
    } else if c == ';' {
        Some(Punctuation::Semicolon)
    } else if c == '\'' {
        Some(Punctuation::Quote)
    } else if c == '"' {
        Some(Punctuation::DoubleQuote)
    } else if c == '?' {
        Some(Punctuation::QuestionMark)
    } else if c == '!' {
        Some(Punctuation::ExclamationMark)
    } else {
        None
    }
}

impl Word {
    /// Parses a leading maximal run of ASCII letters.
    pub fn parse(input: &str) -> (r: Option<(&str, Word)>)
        ensures
            r is None <==> (input@.len() == 0 || !is_alpha_char(input@[0])),
            r matches Some(p) ==> exists|n: int|
                {
                    &&& 1 <= n <= input@.len()
                    &&& forall|k: int| 0 <= k < n ==> is_alpha_char(#[trigger] input@[k])
                    &&& (n == input@.len() || !is_alpha_char(input@[n]))
                    &&& p.1.0@ == input@.subrange(0, n)
                    &&& p.0@ == #[trigger] input@.subrange(n, input@.len() as int)
                },
    {
        let len = input.unicode_len();
        let mut n: usize = 0;
        while n < len
            invariant
                len == input@.len(),
                n <= len,
                forall|k: int| 0 <= k < n ==> is_alpha_char(#[trigger] input@[k]),
            ensures
                n <= len,
                forall|k: int| 0 <= k < n ==> is_alpha_char(#[trigger] input@[k]),
                n == len || !is_alpha_char(input@[n as int]),
            decreases len - n,
        {
            let c = input.get_char(n);
            if !(('a' <= c && c <= 'z') || ('A' <= c && c <= 'Z')) {
                break;
            }
            n += 1;
        }
        if n == 0 {
            return None;
        }
        let word = input.substring_char(0, n).to_owned();
        let rest = input.substring_char(n, len);
        proof {
            let nn = n as int;
            assert(1 <= nn <= input@.len());
            assert(word@ == input@.subrange(0, nn));
            assert(rest@ == input@.subrange(nn, input@.len() as int));
        }
        Some((rest, Word(word)))
    }
}

impl From<&str> for Word {
    /// Wraps the characters of `s` as a word.
    fn from(s: &str) -> (r: Self) {
        Word(s.to_owned())
    }
}

impl vstd::std_specs::convert::FromSpecImpl<&str> for Word {
    /// A `String` value cannot be named in specification code, so the
    /// conversion promises nothing; `Word::parse` carries the exact
    /// contract.
    open spec fn obeys_from_spec() -> bool {
        false
    }

    open spec fn from_spec(s: &str) -> Self {
        arbitrary()
    }
}

impl Punctuation {
    /// Parses a single leading punctuation mark.
    pub fn parse(input: &str) -> (r: Option<(&str, Punctuation)>)
        ensures
            r is None <==> (input@.len() == 0 || punct_char(input@[0]) is None),
            r matches Some(p) ==> input@.len() >= 1 && punct_char(input@[0]) == Some(p.1)
                && p.0@ == input@.subrange(1, input@.len() as int),
    {
        let len = input.unicode_len();
        if len == 0 {
            return None;
        }
        let c = input.get_char(0);
        let mark = if c == '.' {
            Punctuation::Dot
        } else if c == ',' {
            Punctuation::Comma
        } else if c == ':' {
            Punctuation::Colon
        } else if c == ';' {
            Punctuation::Semicolon
        } else if c == '\'' {
            Punctuation::Quote
        } else if c == '"' {
            Punctuation::DoubleQuote
        } else if c == '?' {
            Punctuation::QuestionMark
        } else if c == '!' {
            Punctuation::ExclamationMark
        } else {
            return None;
        };
        let rest = input.substring_char(1, len);
        Some((rest, mark))
    }
}

/// One element of running text.
#[derive(Debug, PartialEq, Eq, Clone, Hash)]
pub enum TextElement {
    Word(Word),
    Punctuation(Punctuation),
    Start,
    Stop,
    Empty,
}

impl TextElement {
    /// Whether this element ends a sentence: sentence-final punctuation,
    /// an explicit stop, or an empty element; words, the start marker and
    /// the remaining punctuation do not.
    pub fn is_stop(&self) -> (r: bool)
        ensures
            r == {
                ||| self matches TextElement::Punctuation(Punctuation::Dot)
                ||| self matches TextElement::Punctuation(Punctuation::QuestionMark)
                ||| self matches TextElement::Punctuation(Punctuation::ExclamationMark)
                ||| self matches TextElement::Punctuation(Punctuation::DoubleQuote)
                ||| self matches TextElement::Punctuation(Punctuation::Quote)
                ||| self is Stop
                ||| self is Empty
            },
    {
        match self {
            TextElement::Punctuation(Punctuation::Dot) => true,
            TextElement::Punctuation(Punctuation::QuestionMark) => true,
            TextElement::Punctuation(Punctuation::ExclamationMark) => true,
            TextElement::Punctuation(Punctuation::DoubleQuote) => true,
            TextElement::Punctuation(Punctuation::Quote) => true,
            TextElement::Start => false,
            TextElement::Stop => true,
            TextElement::Empty => true,
            _ => false,
        }
    }

    /// Parses a word if the input starts with a letter, else a single
    /// punctuation mark.
    pub fn parse(input: &str) -> (r: Option<(&str, TextElement)>)
        ensures
            r is None <==> (input@.len() == 0 || (!is_alpha_char(input@[0]) && punct_char(
                input@[0],
            ) is None)),
            input@.len() >= 1 && is_alpha_char(input@[0]) ==> (r matches Some(p) && (p.1
                matches TextElement::Word(w) && exists|n: int|
                {
                    &&& 1 <= n <= input@.len()
                    &&& forall|k: int| 0 <= k < n ==> is_alpha_char(#[trigger] input@[k])
                    &&& (n == input@.len() || !is_alpha_char(input@[n]))
                    &&& w.0@ == input@.subrange(0, n)
                    &&& p.0@ == #[trigger] input@.subrange(n, input@.len() as int)
                })),
            input@.len() >= 1 && !is_alpha_char(input@[0]) && punct_char(input@[0]) is Some
                ==> (r matches Some(p) && p.1 == TextElement::Punctuation(punct_char(
                input@[0],
            ).unwrap()) && p.0@ == input@.subrange(1, input@.len() as int)),
    {
        match Word::parse(input) {
            Some((rest, w)) => Some((rest, TextElement::Word(w))),
            None => {
                match Punctuation::parse(input) {
                    Some((rest, q)) => Some((rest, TextElement::Punctuation(q))),
                    None => None,
                }
            },
        }
    }
}

impl From<Word> for TextElement {
    fn from(w: Word) -> (r: Self) {
        TextElement::Word(w)
    }
}

impl vstd::std_specs::convert::FromSpecImpl<Word> for TextElement {
    open spec fn obeys_from_spec() -> bool {
        true
    }

    open spec fn from_spec(w: Word) -> Self {
        TextElement::Word(w)
    }
}

impl From<Punctuation> for TextElement {
    fn from(p: Punctuation) -> (r: Self) {
        TextElement::Punctuation(p)
    }
}

impl vstd::std_specs::convert::FromSpecImpl<Punctuation> for TextElement {
    open spec fn obeys_from_spec() -> bool {
        true
    }

    open spec fn from_spec(p: Punctuation) -> Self {
        TextElement::Punctuation(p)
    }
}

} // verus!
