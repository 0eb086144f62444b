//! MarkdownV2 text helpers: escaping of the reserved characters, bold
//! wrapping, and display-name assembly.

use vstd::prelude::*;
use crate::text;

verus! {

/// The characters the MarkdownV2 format reserves.
pub open spec fn needs_escape(c: char) -> bool {
    ||| c == '_'
    ||| c == '*'
    ||| c == '['
    ||| c == ']'
    ||| c == '('
    ||| c == ')'
    ||| c == '~'
    ||| c == '`'
    ||| c == '>'
    ||| c == '#'
    ||| c == '+'
    ||| c == '-'
    ||| c == '='
    ||| c == '|'
    ||| c == '{'
    ||| c == '}'
    ||| c == '.'
    ||| c == '!'
}

/// What one character escapes to: a backslash before each reserved one.
pub open spec fn escape_char(c: char) -> Seq<char> {
    if needs_escape(c) {
        seq!['\\', c]
    } else {
        seq![c]
    }
}

/// The escaped form of a text, character by character.
pub open spec fn escape_seq(s: Seq<char>) -> Seq<char>
    decreases s.len(),
{
    if s.len() == 0 {
        Seq::empty()
    } else {
        escape_seq(s.drop_last()) + escape_char(s.last())
    }
}

fn is_reserved(c: char) -> (b: bool)
    ensures
        b == needs_escape(c),
{
    c == '_' || c == '*' || c == '[' || c == ']' || c == '(' || c == ')' || c == '~' || c == '`'
        || c == '>' || c == '#' || c == '+' || c == '-' || c == '=' || c == '|' || c == '{'
        || c == '}' || c == '.' || c == '!'
}

/// Escapes every reserved MarkdownV2 character in `data` with a backslash.
pub fn escape(data: &str) -> (r: String)
    ensures
        r@ == escape_seq(data@),
{
    let dv = text::str_chars(data);
    let mut out: Vec<char> = Vec::new();
    let mut i: usize = 0;
    while i < dv.len()
        invariant
            0 <= i <= dv@.len(),
            dv@ == data@,
            out@ == escape_seq(dv@.take(i as int)),
        decreases dv@.len() - i,
    {
        let c = dv[i];
        if is_reserved(c) {
            out.push('\\');
            out.push(c);
        } else {
            out.push(c);
        }
        proof {
            assert(dv@.take(i + 1 as int).drop_last() =~= dv@.take(i as int));
            assert(dv@.take(i + 1 as int).last() == dv@[i as int]);
            assert(out@ =~= escape_seq(dv@.take(i as int)) + escape_char(dv@[i as int]));
        }
        i = i + 1;
    }
    proof {
        assert(dv@.take(dv@.len() as int) =~= dv@);
    }
    text::chars_str(&out)
}

/// Wraps `data` in MarkdownV2 bold markers.
pub fn bold(data: &str) -> (r: String)
    ensures
        r@ == seq!['*'] + data@ + seq!['*'],
{
    let mut out: Vec<char> = Vec::new();
    out.push('*');
    let mut dv = text::str_chars(data);
    out.append(&mut dv);
    out.push('*');
    proof {
        assert(out@ =~= seq!['*'] + data@ + seq!['*']);
    }
    text::chars_str(&out)
}

/// A user's display name: the first name alone when the last name is
/// empty, else the two separated by one space.
pub open spec fn full_name_seq(first_name: Seq<char>, last_name: Seq<char>) -> Seq<char> {
    if last_name.len() == 0 {
        first_name
    } else {
        first_name + seq![' '] + last_name
    }
}

/// Joins a first and last name for display.
pub fn full_name(first_name: &str, last_name: &str) -> (r: String)
    ensures
        r@ == full_name_seq(first_name@, last_name@),
{
    if last_name.is_empty() {
        first_name.to_owned()
    } else {
        let mut out = text::str_chars(first_name);
        out.push(' ');
        let mut lv = text::str_chars(last_name);
        out.append(&mut lv);
        proof {
            assert(out@ =~= first_name@ + seq![' '] + last_name@);
        }
        text::chars_str(&out)
    }
}

} // verus!
