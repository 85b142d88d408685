//! The storage classes a column can be declared with.

use vstd::prelude::*;
use vstd::string::*;
use vstd::utf8::encode_utf8;
use crate::text::{same_text, eq_ignore_case};

verus! {

/// The storage class of a column.
#[derive(Debug, Clone, Copy, PartialEq, Eq, Structural)]
pub enum SqlType {
    Integer,
    Text,
    Real,
    Blob,
    Null,
}

/// Whether `word` is `keyword`, whatever the case of its ASCII letters.
pub open spec fn is_keyword(word: Seq<char>, keyword: Seq<char>) -> bool {
    same_text(encode_utf8(word), encode_utf8(keyword))
}

/// The class that a declared type keyword stands for; a keyword that is not
/// known stands for text.
pub open spec fn declared_class(word: Seq<char>) -> SqlType {
    if is_keyword(word, "integer"@) || is_keyword(word, "int"@) {
        SqlType::Integer
    } else if is_keyword(word, "text"@) || is_keyword(word, "varchar"@) || is_keyword(
        word,
        "char"@,
    ) {
        SqlType::Text
    } else if is_keyword(word, "real"@) || is_keyword(word, "float"@) || is_keyword(
        word,
        "double"@,
    ) {
        SqlType::Real
    } else if is_keyword(word, "blob"@) {
        SqlType::Blob
    } else {
        SqlType::Text
    }
}

fn keyword_matches(word: &str, keyword: &str) -> (r: bool)
    ensures
        r == is_keyword(word@, keyword@),
{
    eq_ignore_case(word.as_bytes(), keyword.as_bytes())
}

impl SqlType {
    /// The class that the declared type keyword `s` stands for.
    pub fn from_str(s: &str) -> (r: SqlType)
        ensures
            r == declared_class(s@),
    {
        if keyword_matches(s, "integer") || keyword_matches(s, "int") {
            SqlType::Integer
        } else if keyword_matches(s, "text") || keyword_matches(s, "varchar") || keyword_matches(
            s,
            "char",
        ) {
            SqlType::Text
        } else if keyword_matches(s, "real") || keyword_matches(s, "float") || keyword_matches(
            s,
            "double",
        ) {
            SqlType::Real
        } else if keyword_matches(s, "blob") {
            SqlType::Blob
        } else {
            SqlType::Text
        }
    }

    /// The name of the class in capital letters.
    pub open spec fn name(self) -> Seq<char> {
        match self {
            SqlType::Integer => "INTEGER"@,
            SqlType::Text => "TEXT"@,
            SqlType::Real => "REAL"@,
            SqlType::Blob => "BLOB"@,
            SqlType::Null => "NULL"@,
        }
    }

    /// The name of the class in capital letters.
    pub fn to_string(&self) -> (r: &'static str)
        ensures
            r@ == self.name(),
    {
        match self {
            SqlType::Integer => "INTEGER",
            SqlType::Text => "TEXT",
            SqlType::Real => "REAL",
            SqlType::Blob => "BLOB",
            SqlType::Null => "NULL",
        }
    }
}

} // verus!
