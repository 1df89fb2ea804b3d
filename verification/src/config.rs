//! Reading a connection from one line of text.

use crate::models::{Connection, ConnectionView};
use crate::text::{
    is_space, lemma_position_of, lemma_tokens_are_words, parse_u16, position, read_u16, slice_of,
    split_once, split_whitespace, string_of, tokens, views,
};
use vstd::prelude::*;
use vstd::string::*;

verus! {

/// Why a line is not a connection.
#[derive(Debug, Clone, Copy, PartialEq, Eq, Structural)]
pub enum ParseError {
    /// The line holds fewer than two tokens.
    MissingFields,
    /// The second token holds no `@`.
    MissingAt,
    /// What follows the `:` is not a 16-bit unsigned number.
    InvalidPort,
}

impl ParseError {
    /// The message shown to the user.
    pub open spec fn text(self) -> Seq<char> {
        match self {
            ParseError::MissingFields => "Add format: <name> <user>@<host>[:port] [term]"@,
            ParseError::MissingAt => "must include user@host"@,
            ParseError::InvalidPort => "invalid port"@,
        }
    }

    /// The message shown to the user.
    pub fn message(&self) -> (s: String)
        ensures
            s@ == self.text(),
    {
        match self {
            ParseError::MissingFields => String::from_str(
                "Add format: <name> <user>@<host>[:port] [term]",
            ),
            ParseError::MissingAt => String::from_str("must include user@host"),
            ParseError::InvalidPort => String::from_str("invalid port"),
        }
    }
}

/// The connection that a line of the form `<name> <user>@<host>[:port] [term]`
/// denotes. The line is split at white space: the first token is the name, the
/// second is split at its first `@` into user and address, the address at its
/// first `:` into host and port, and a third token, if there is one, is the
/// terminal type. Further tokens are ignored.
pub open spec fn parse_line(line: Seq<char>) -> Result<ConnectionView, ParseError> {
    let parts = tokens(line);
    if parts.len() < 2 {
        Err(ParseError::MissingFields)
    } else {
        let term = if parts.len() >= 3 {
            Some(parts[2])
        } else {
            None
        };
        match split_once(parts[1], '@') {
            None => Err(ParseError::MissingAt),
            Some((user, address)) => match split_once(address, ':') {
                None => Ok(
                    ConnectionView { name: parts[0], user, host: address, port: None, term },
                ),
                Some((host, number)) => match parse_u16(number) {
                    None => Err(ParseError::InvalidPort),
                    Some(port) => Ok(
                        ConnectionView { name: parts[0], user, host, port: Some(port), term },
                    ),
                },
            },
        }
    }
}

/// The view of what `add_from_line` returns.
pub open spec fn parsed_view(r: Result<Connection, ParseError>) -> Result<
    ConnectionView,
    ParseError,
> {
    match r {
        Ok(c) => Ok(c@),
        Err(e) => Err(e),
    }
}

/// Reads a connection from a line of the form
/// `<name> <user>@<host>[:port] [term]`.
pub fn add_from_line(line: &str) -> (r: Result<Connection, ParseError>)
    ensures
        parsed_view(r) == parse_line(line@),
{
    let parts = split_whitespace(line);
    if parts.len() < 2 {
        return Err(ParseError::MissingFields);
    }
    proof {
        assert(views(parts@)[0] == parts@[0]@);
        assert(views(parts@)[1] == parts@[1]@);
        if parts.len() >= 3 {
            assert(views(parts@)[2] == parts@[2]@);
        }
    }
    let name = string_of(&parts[0], 0, parts[0].len());
    let term = if parts.len() >= 3 {
        let t = string_of(&parts[2], 0, parts[2].len());
        assert(t@ =~= parts@[2]@);
        Some(t)
    } else {
        None
    };
    let both = &parts[1];
    let at: usize = position(both, '@');
    if at == both.len() {
        return Err(ParseError::MissingAt);
    }
    proof {
        lemma_position_of(both@, '@');
    }
    let user = string_of(both, 0, at);
    let address = slice_of(both, at + 1, both.len());
    let colon: usize = position(&address, ':');
    proof {
        lemma_position_of(address@, ':');
        assert(name@ =~= parts@[0]@);
        assert(user@ =~= both@.take(at as int));
        assert(address@ =~= both@.skip(at + 1));
    }
    if colon == address.len() {
        let host = string_of(&address, 0, address.len());
        assert(host@ =~= address@);
        return Ok(Connection { name, user, host, port: None, term });
    }
    let number = slice_of(&address, colon + 1, address.len());
    assert(number@ =~= address@.skip(colon + 1));
    match read_u16(&number) {
        None => Err(ParseError::InvalidPort),
        Some(port) => {
            let host = string_of(&address, 0, colon);
            assert(host@ =~= address@.take(colon as int));
            Ok(Connection { name, user, host, port: Some(port), term })
        },
    }
}

/// The name of a connection read from a line is not empty and holds no white
/// space.
pub proof fn lemma_parsed_name(line: Seq<char>)
    requires
        parse_line(line) is Ok,
    ensures
        parse_line(line)->Ok_0.name.len() > 0,
        forall|j: int|
            0 <= j < parse_line(line)->Ok_0.name.len() ==> !is_space(
                #[trigger] parse_line(line)->Ok_0.name[j],
            ),
{
    lemma_tokens_are_words(line);
    assert(parse_line(line)->Ok_0.name == tokens(line)[0]);
}

} // verus!
