//! The reserved words that no generated name may be.

use vstd::prelude::*;
use vstd::string::*;

verus! {

/// `str::eq` of the standard library: two strings are equal exactly when
/// they hold the same characters.
pub assume_specification[ <str as PartialEq>::eq ](a: &str, b: &str) -> (same: bool)
    ensures
        same == (a@ == b@),
;

/// Whether `name` is a reserved word: a keyword of the language, or a word
/// that would change what the program means if a binding bore it.
pub open spec fn is_reserved(name: Seq<char>) -> bool {
    ||| name == "as"@
    ||| name == "do"@
    ||| name == "if"@
    ||| name == "in"@
    ||| name == "is"@
    ||| name == "of"@
    ||| name == "any"@
    ||| name == "for"@
    ||| name == "get"@
    ||| name == "let"@
    ||| name == "new"@
    ||| name == "out"@
    ||| name == "set"@
    ||| name == "try"@
    ||| name == "var"@
    ||| name == "case"@
    ||| name == "else"@
    ||| name == "enum"@
    ||| name == "from"@
    ||| name == "meta"@
    ||| name == "null"@
    ||| name == "this"@
    ||| name == "true"@
    ||| name == "type"@
    ||| name == "void"@
    ||| name == "with"@
}

/// A reserved word has two to four characters, all of them lower-case letters.
pub proof fn lemma_reserved_shape(name: Seq<char>)
    requires
        is_reserved(name),
    ensures
        2 <= name.len() <= 4,
        forall|i: int| 0 <= i < name.len() ==> 'a' <= #[trigger] name[i] <= 'z',
{
    reveal_strlit("as");
    reveal_strlit("do");
    reveal_strlit("if");
    reveal_strlit("in");
    reveal_strlit("is");
    reveal_strlit("of");
    reveal_strlit("any");
    reveal_strlit("for");
    reveal_strlit("get");
    reveal_strlit("let");
    reveal_strlit("new");
    reveal_strlit("out");
    reveal_strlit("set");
    reveal_strlit("try");
    reveal_strlit("var");
    reveal_strlit("case");
    reveal_strlit("else");
    reveal_strlit("enum");
    reveal_strlit("from");
    reveal_strlit("meta");
    reveal_strlit("null");
    reveal_strlit("this");
    reveal_strlit("true");
    reveal_strlit("type");
    reveal_strlit("void");
    reveal_strlit("with");
}

/// Whether `s` is a reserved word.
pub fn is_keyword(s: &str) -> (reserved: bool)
    ensures
        reserved == is_reserved(s@),
{
    // No reserved word is that short: one byte is one character.
    if s.len() == 1 {
        proof {
            if is_reserved(s@) {
                lemma_reserved_shape(s@);
                assert(is_ascii(s));
                is_ascii_spec_bytes(s);
            }
        }
        return false;
    }
    s.eq("as") || s.eq("do") || s.eq("if") || s.eq("in") || s.eq("is") || s.eq("of") || s.eq("any")
        || s.eq("for") || s.eq("get") || s.eq("let") || s.eq("new") || s.eq("out") || s.eq("set")
        || s.eq("try") || s.eq("var") || s.eq("case") || s.eq("else") || s.eq("enum") || s.eq("from")
        || s.eq("meta") || s.eq("null") || s.eq("this") || s.eq("true") || s.eq("type") || s.eq("void")
        || s.eq("with")
}

} // verus!
