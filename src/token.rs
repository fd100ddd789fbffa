//! Typed lexical units: a classification and the region it covers.

use vstd::prelude::*;
use crate::text::Region;
use crate::utf8::same_str;

verus! {

/// Classifies the region that a token covers.
#[derive(Clone, Copy, Debug, PartialEq, Eq, Structural)]
pub enum Name {
    AngleLeft,
    AngleRight,
    BraceLeft,
    BraceRight,
    Colon,
    Comma,
    ParenLeft,
    ParenRight,
    Slash,
    SquareLeft,
    SquareRight,
    Semicolon,
    Boolean,
    Integer,
    Float,
    String,
    Consumes,
    Implement,
    Import,
    Interface,
    Method,
    Produces,
    Property,
    Record,
    Service,
    System,
    Using,
    Identifier,
    Comment,
    Error,
}

/// How each classification is written: the delimiter or keyword itself, or
/// the name of the class.
pub open spec fn name_str(n: Name) -> &'static str {
    match n {
        Name::AngleLeft => "<",
        Name::AngleRight => ">",
        Name::BraceLeft => "{",
        Name::BraceRight => "}",
        Name::Colon => ":",
        Name::Comma => ",",
        Name::ParenLeft => "(",
        Name::ParenRight => ")",
        Name::Slash => "/",
        Name::SquareLeft => "[",
        Name::SquareRight => "]",
        Name::Semicolon => ";",
        Name::Boolean => "Boolean",
        Name::Integer => "Integer",
        Name::Float => "Float",
        Name::String => "String",
        Name::Consumes => "consumes",
        Name::Implement => "implement",
        Name::Import => "import",
        Name::Interface => "interface",
        Name::Method => "method",
        Name::Produces => "produces",
        Name::Property => "property",
        Name::Record => "record",
        Name::Service => "service",
        Name::System => "system",
        Name::Using => "using",
        Name::Identifier => "Identifier",
        Name::Comment => "Comment",
        Name::Error => "Error",
    }
}

/// The classifications that a fixed written form identifies: the delimiters
/// and the keywords.
pub open spec fn is_fixed(n: Name) -> bool {
    !(n is Boolean || n is Integer || n is Float || n is String || n is Identifier || n is Comment
        || n is Error)
}

/// The delimiters and keywords, in table order.
pub open spec fn fixed_names() -> Seq<Name> {
    seq![
        Name::AngleLeft,
        Name::AngleRight,
        Name::BraceLeft,
        Name::BraceRight,
        Name::Colon,
        Name::Comma,
        Name::ParenLeft,
        Name::ParenRight,
        Name::Slash,
        Name::SquareLeft,
        Name::SquareRight,
        Name::Semicolon,
        Name::Consumes,
        Name::Implement,
        Name::Import,
        Name::Interface,
        Name::Method,
        Name::Produces,
        Name::Property,
        Name::Record,
        Name::Service,
        Name::System,
        Name::Using,
    ]
}

impl Name {
    /// The written form of this classification.
    pub fn as_str(&self) -> (r: &'static str)
        ensures
            r == name_str(*self),
    {
        match *self {
            Name::AngleLeft => "<",
            Name::AngleRight => ">",
            Name::BraceLeft => "{",
            Name::BraceRight => "}",
            Name::Colon => ":",
            Name::Comma => ",",
            Name::ParenLeft => "(",
            Name::ParenRight => ")",
            Name::Slash => "/",
            Name::SquareLeft => "[",
            Name::SquareRight => "]",
            Name::Semicolon => ";",
            Name::Boolean => "Boolean",
            Name::Integer => "Integer",
            Name::Float => "Float",
            Name::String => "String",
            Name::Consumes => "consumes",
            Name::Implement => "implement",
            Name::Import => "import",
            Name::Interface => "interface",
            Name::Method => "method",
            Name::Produces => "produces",
            Name::Property => "property",
            Name::Record => "record",
            Name::Service => "service",
            Name::System => "system",
            Name::Using => "using",
            Name::Identifier => "Identifier",
            Name::Comment => "Comment",
            Name::Error => "Error",
        }
    }
}

impl Name {
    /// The delimiter or keyword written as `word`, if there is one.
    pub fn from_table(word: &str) -> (r: Option<Name>)
        ensures
            r matches Some(n) ==> is_fixed(n) && name_str(n)@ == word@,
            r is None ==> forall|n: Name| is_fixed(n) ==> name_str(n)@ != word@,
    {
        let table = [
            Name::AngleLeft,
            Name::AngleRight,
            Name::BraceLeft,
            Name::BraceRight,
            Name::Colon,
            Name::Comma,
            Name::ParenLeft,
            Name::ParenRight,
            Name::Slash,
            Name::SquareLeft,
            Name::SquareRight,
            Name::Semicolon,
            Name::Consumes,
            Name::Implement,
            Name::Import,
            Name::Interface,
            Name::Method,
            Name::Produces,
            Name::Property,
            Name::Record,
            Name::Service,
            Name::System,
            Name::Using,
        ];
        proof {
            assert(table@ =~= fixed_names());
        }
        let mut i: usize = 0;
        while i < table.len()
            invariant
                table@ == fixed_names(),
                i <= table@.len(),
                forall|k: int| 0 <= k < i ==> name_str(#[trigger] table@[k])@ != word@,
            decreases table@.len() - i,
        {
            let n = table[i];
            if same_str(n.as_str(), word) {
                return Some(n);
            }
            i = i + 1;
        }
        proof {
            assert forall|n: Name| is_fixed(n) implies name_str(n)@ != word@ by {
                let k = choose|k: int| 0 <= k < 23 && fixed_names()[k] == n;
                assert(table@[k] == n);
            }
        }
        None
    }
}

/// A classified region of a text.
#[derive(Clone, Copy, Debug)]
pub struct Token<'a> {
    pub name: Name,
    pub region: Region<'a>,
}

impl<'a> Token<'a> {
    pub fn new(name: Name, region: Region<'a>) -> (r: Token<'a>)
        ensures
            r.name == name,
            r.region == region,
    {
        Token { name, region }
    }

    /// The characters the token covers.
    pub fn as_str(&self) -> (r: &'a str)
        ensures
            r@ == self.region.chars(),
    {
        self.region.as_str()
    }
}

} // verus!
