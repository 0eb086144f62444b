//! The leaderboard consumer's decision core: rendering the `/top` reply
//! from the stored leaderboard rows.

use vstd::prelude::*;
use crate::markdown::{escape_seq, full_name_seq};
use crate::markdown;
use crate::text::{dec_str, int_str};
use crate::text;
use crate::users::User;

verus! {

/// One leaderboard line: a newline, the position, the escaped display
/// name, then the score, with an extra backslash guarding a negative
/// score's minus sign in MarkdownV2.
pub open spec fn top_line(pos: int, e: (User, i64)) -> Seq<char> {
    seq!['\n'] + dec_str(pos as nat) + seq![' '] + escape_seq(
        full_name_seq(e.0.first_name@, e.0.last_name@),
    ) + seq![':', ' '] + (if e.1 < 0 {
        seq!['\\']
    } else {
        Seq::<char>::empty()
    }) + int_str(e.1 as int)
}

/// The leaderboard lines, positions counted from one.
pub open spec fn top_lines(s: Seq<(User, i64)>) -> Seq<char>
    decreases s.len(),
{
    if s.len() == 0 {
        Seq::empty()
    } else {
        top_lines(s.drop_last()) + top_line(s.len() as int, s.last())
    }
}

/// The full `/top` reply text.
pub open spec fn spec_top_text(s: Seq<(User, i64)>) -> Seq<char> {
    "Top 10: "@ + top_lines(s)
}

/// Renders the `/top` reply from the leaderboard rows, in order, each as
/// `top_line` says.
pub fn format_top(rows: &Vec<(User, i64)>) -> (r: String)
    requires
        rows@.len() < 1_000_000,
    ensures
        r@ == spec_top_text(rows@),
{
    let mut out: Vec<char> = text::str_chars("Top 10: ");
    let mut i: usize = 0;
    while i < rows.len()
        invariant
            0 <= i <= rows@.len(),
            rows@.len() < 1_000_000,
            out@ == "Top 10: "@ + top_lines(rows@.take(i as int)),
        decreases rows@.len() - i,
    {
        let e = &rows[i];
        out.push('\n');
        let pos: u64 = (i as u64) + 1;
        text::push_dec(&mut out, pos);
        out.push(' ');
        let name = markdown::full_name(e.0.first_name.as_str(), e.0.last_name.as_str());
        let escaped = markdown::escape(name.as_str());
        let mut ev = text::str_chars(escaped.as_str());
        out.append(&mut ev);
        out.push(':');
        out.push(' ');
        if e.1 < 0 {
            out.push('\\');
        }
        text::push_dec_i64(&mut out, e.1);
        proof {
            assert(rows@.take(i + 1 as int).drop_last() =~= rows@.take(i as int));
            assert(rows@.take(i + 1 as int).last() == rows@[i as int]);
            assert(out@ =~= "Top 10: "@ + top_lines(rows@.take(i + 1 as int)));
        }
        i = i + 1;
    }
    proof {
        assert(rows@.take(rows@.len() as int) =~= rows@);
    }
    text::chars_str(&out)
}

} // verus!
