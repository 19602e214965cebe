use vstd::prelude::*;

verus! {

/// A key of the keyboard, as far as the launcher tells keys apart.
#[derive(PartialEq, Eq, Structural, Clone, Copy, Debug)]
pub enum Key {
    ArrowLeft,
    ArrowRight,
    ArrowUp,
    ArrowDown,
    Escape,
    Delete,
    Enter,
    Tab,
    /// Any key that the launcher ignores.
    Other,
}

/// What a recognised key press adds to the input log.
#[derive(PartialEq, Eq, Structural, Clone, Copy, Debug)]
pub enum Token {
    Left,
    Right,
    Up,
    Down,
    Escape,
    Delete,
    Add,
    Exit,
}

/// The token that a key press produces, if the key is one the launcher reacts to.
pub open spec fn spec_key_token(key: Key) -> Option<Token> {
    match key {
        Key::ArrowLeft => Some(Token::Left),
        Key::ArrowRight => Some(Token::Right),
        Key::ArrowUp => Some(Token::Up),
        Key::ArrowDown => Some(Token::Down),
        Key::Escape => Some(Token::Escape),
        Key::Delete => Some(Token::Delete),
        Key::Enter => Some(Token::Add),
        Key::Tab => Some(Token::Exit),
        Key::Other => None,
    }
}

/// Maps a key press to its token; `None` for keys the launcher ignores.
pub fn key_token(key: Key) -> (t: Option<Token>)
    ensures
        t == spec_key_token(key),
{
    match key {
        Key::ArrowLeft => Some(Token::Left),
        Key::ArrowRight => Some(Token::Right),
        Key::ArrowUp => Some(Token::Up),
        Key::ArrowDown => Some(Token::Down),
        Key::Escape => Some(Token::Escape),
        Key::Delete => Some(Token::Delete),
        Key::Enter => Some(Token::Add),
        Key::Tab => Some(Token::Exit),
        Key::Other => None,
    }
}

impl Token {
    /// The text by which a token is shown and stored in the configuration.
    pub open spec fn text(self) -> Seq<char> {
        match self {
            Token::Left => seq!['\u{21e6}'],
            Token::Right => seq!['\u{21e8}'],
            Token::Up => seq!['\u{21e7}'],
            Token::Down => seq!['\u{21e9}'],
            Token::Escape => seq!['E', 's', 'c', 'a', 'p', 'e'],
            Token::Delete => seq!['D', 'e', 'l', 'e', 't', 'e'],
            Token::Add => seq!['A', 'D', 'D'],
            Token::Exit => seq!['e', 'x', 'i', 't'],
        }
    }

    /// The token's text as a string slice.
    pub fn as_str(&self) -> (s: &'static str)
        ensures
            s@ == self.text(),
    {
        match self {
            Token::Left => {
                proof {
                    reveal_strlit("\u{21e6}");
                }
                "\u{21e6}"
            },
            Token::Right => {
                proof {
                    reveal_strlit("\u{21e8}");
                }
                "\u{21e8}"
            },
            Token::Up => {
                proof {
                    reveal_strlit("\u{21e7}");
                }
                "\u{21e7}"
            },
            Token::Down => {
                proof {
                    reveal_strlit("\u{21e9}");
                }
                "\u{21e9}"
            },
            Token::Escape => {
                proof {
                    reveal_strlit("Escape");
                }
                "Escape"
            },
            Token::Delete => {
                proof {
                    reveal_strlit("Delete");
                }
                "Delete"
            },
            Token::Add => {
                proof {
                    reveal_strlit("ADD");
                }
                "ADD"
            },
            Token::Exit => {
                proof {
                    reveal_strlit("exit");
                }
                "exit"
            },
        }
    }

    /// The token's text as an owned string.
    pub fn to_text(&self) -> (s: String)
        ensures
            s@ == self.text(),
    {
        self.as_str().to_owned()
    }

    /// Whether `s` is this token's text.
    pub fn is_text_of(&self, s: &String) -> (b: bool)
        ensures
            b == (self.text() == s@),
    {
        let t = self.to_text();
        t == *s
    }
}

/// Distinct tokens have distinct texts.
pub proof fn lemma_text_injective(a: Token, b: Token)
    ensures
        a.text() == b.text() ==> a == b,
{
    if a.text() == b.text() && a != b {
        assert(a.text().len() == b.text().len());
        assert(a.text()[0] == b.text()[0]);
        assert(a.text()[1] == b.text()[1]);
    }
}

} // verus!
