use vstd::prelude::*;

verus! {

/// One lexical unit of a directive.
#[derive(Debug, PartialEq, Eq)]
pub enum Token {
    /// A bare word, such as `modules` or `nuget`.
    Ident(String),
    /// A literal in its source form, quotes included (`"Windows.Foundation"`).
    Literal(String),
    /// A single punctuation character, such as `:` or `.`.
    Punct(char),
}

impl Clone for Token {
    fn clone(&self) -> (r: Self)
        ensures
            r == *self,
    {
        match self {
            Token::Ident(s) => Token::Ident(s.clone()),
            Token::Literal(s) => Token::Literal(s.clone()),
            Token::Punct(c) => Token::Punct(*c),
        }
    }
}

/// Which section kinds have been seen so far.
#[derive(PartialEq, Eq, Structural, Clone, Copy, Debug)]
pub enum ParseState {
    Neither,
    ParsedNamespace,
    ParsedDependency,
    Both,
}

impl ParseState {
    pub open spec fn after_namespace(self) -> ParseState {
        match self {
            ParseState::Neither => ParseState::ParsedNamespace,
            ParseState::ParsedDependency => ParseState::Both,
            _ => self,
        }
    }

    pub open spec fn after_dependency(self) -> ParseState {
        match self {
            ParseState::Neither => ParseState::ParsedDependency,
            ParseState::ParsedNamespace => ParseState::Both,
            _ => self,
        }
    }

    /// The state after a `modules` section.
    pub fn parsed_namespace(self) -> (r: ParseState)
        ensures
            r == self.after_namespace(),
    {
        match self {
            ParseState::Neither => ParseState::ParsedNamespace,
            ParseState::ParsedDependency => ParseState::Both,
            _ => self,
        }
    }

    /// The state after a `dependencies` section.
    pub fn parsed_dependency(self) -> (r: ParseState)
        ensures
            r == self.after_dependency(),
    {
        match self {
            ParseState::Neither => ParseState::ParsedDependency,
            ParseState::ParsedNamespace => ParseState::Both,
            _ => self,
        }
    }
}

} // verus!
