//! The echo utility: words joined by spaces.
use vstd::prelude::*;

use crate::text::{chars_of, push_all, string_of, texts};

verus! {

/// The words of `ws` with a single space between each two.
pub open spec fn joined(ws: Seq<Seq<char>>) -> Seq<char>
    decreases ws.len(),
{
    if ws.len() == 0 {
        Seq::empty()
    } else if ws.len() == 1 {
        ws[0]
    } else {
        joined(ws.drop_last()).push(' ') + ws.last()
    }
}

/// What echo prints: the words joined by single spaces, then a newline
/// unless `omit_newline` is set.
pub fn echo(words: &Vec<String>, omit_newline: bool) -> (r: String)
    ensures
        omit_newline ==> r@ == joined(texts(words@)),
        !omit_newline ==> r@ == joined(texts(words@)).push('\n'),
{
    let ghost ws = texts(words@);
    let mut out: Vec<char> = Vec::new();
    let mut i: usize = 0;
    while i < words.len()
        invariant
            i <= words.len(),
            ws == texts(words@),
            out@ == joined(ws.take(i as int)),
        decreases words.len() - i,
    {
        assert(ws.take(i + 1).drop_last() =~= ws.take(i as int));
        if i > 0 {
            out.push(' ');
        }
        let cs = chars_of(words[i].as_str());
        push_all(&mut out, &cs);
        i += 1;
        assert(out@ =~= joined(ws.take(i as int)));
    }
    assert(ws.take(words@.len() as int) =~= ws);
    if !omit_newline {
        out.push('\n');
    }
    string_of(&out)
}

} // verus!
