//! The adjacent deduplicator: each run of lines that agree once white space
//! at their ends is removed is shown once, by its first line.
use vstd::prelude::*;

use crate::text::{
    chars_of, lines_of, rows, same_trimmed, split_lines, string_of, texts, trim_end,
};

verus! {

/// The line before position `i`; before the first line stands an empty one.
pub open spec fn prev_line(ls: Seq<Seq<char>>, i: int) -> Seq<char> {
    if i == 0 {
        Seq::empty()
    } else {
        ls[i - 1]
    }
}

/// Whether line `i` differs from the line before it once white space at
/// their ends is removed.
pub open spec fn starts_run(ls: Seq<Seq<char>>, i: int) -> bool {
    trim_end(ls[i]) != trim_end(prev_line(ls, i))
}

/// The lines of `ls` that start a run, in their order.
pub open spec fn uniq_of(ls: Seq<Seq<char>>) -> Seq<Seq<char>>
    decreases ls.len(),
{
    if ls.len() == 0 {
        Seq::empty()
    } else {
        let rest = uniq_of(ls.drop_last());
        if starts_run(ls, ls.len() - 1) {
            rest.push(ls.last())
        } else {
            rest
        }
    }
}

/// The positions of the lines that [`uniq_of`] keeps.
pub open spec fn kept_positions(ls: Seq<Seq<char>>) -> Seq<int>
    decreases ls.len(),
{
    if ls.len() == 0 {
        Seq::empty()
    } else {
        let rest = kept_positions(ls.drop_last());
        if starts_run(ls, ls.len() - 1) {
            rest.push(ls.len() - 1)
        } else {
            rest
        }
    }
}

/// The lines of `content` with each run of adjacent duplicates shown once.
pub fn unique_lines(content: &str) -> (r: Vec<String>)
    ensures
        texts(r@) == uniq_of(lines_of(content@)),
{
    let cs = chars_of(content);
    let ls = split_lines(&cs);
    let ghost all = rows(ls@);
    let empty: Vec<char> = Vec::new();
    let mut r: Vec<String> = Vec::new();
    let mut i: usize = 0;
    assert(all.take(0) =~= Seq::<Seq<char>>::empty());
    while i < ls.len()
        invariant
            i <= ls.len(),
            all == rows(ls@),
            empty@ == Seq::<char>::empty(),
            texts(r@) == uniq_of(all.take(i as int)),
        decreases ls.len() - i,
    {
        let ghost t = all.take(i + 1);
        assert(t.drop_last() =~= all.take(i as int));
        let prev = if i == 0 {
            &empty
        } else {
            &ls[i - 1]
        };
        assert(prev@ == prev_line(t, i as int));
        if !same_trimmed(&ls[i], prev) {
            let ghost before = r@;
            let line = string_of(&ls[i]);
            r.push(line);
            assert(texts(r@) =~= texts(before).push(line@));
        }
        i += 1;
    }
    assert(all.take(ls@.len() as int) =~= all);
    r
}

/// Of any lines, what the deduplicator keeps has no two neighbours that
/// agree once white space at their ends is removed; and it is a
/// subsequence of the input, made of the first line of each run.
pub proof fn lemma_uniq_sound(ls: Seq<Seq<char>>)
    ensures
        forall|j: int|
            0 <= j < uniq_of(ls).len() - 1 ==> trim_end(#[trigger] uniq_of(ls)[j]) != trim_end(
                uniq_of(ls)[j + 1],
            ),
        kept_positions(ls).len() == uniq_of(ls).len(),
        forall|j: int|
            0 <= j < uniq_of(ls).len() ==> 0 <= #[trigger] kept_positions(ls)[j] < ls.len()
                && uniq_of(ls)[j] == ls[kept_positions(ls)[j]] && starts_run(
                ls,
                kept_positions(ls)[j],
            ),
        forall|j: int, k: int|
            0 <= j < k < uniq_of(ls).len() ==> #[trigger] kept_positions(ls)[j]
                < #[trigger] kept_positions(ls)[k],
        uniq_of(ls).len() > 0 ==> trim_end(uniq_of(ls).last()) == trim_end(ls.last()),
    decreases ls.len(),
{
    if ls.len() > 0 {
        let init = ls.drop_last();
        lemma_uniq_sound(init);
        let n = ls.len() - 1;
        assert forall|i: int| 0 <= i < init.len() implies #[trigger] starts_run(init, i) == starts_run(
            ls,
            i,
        ) by {
            assert(init[i] == ls[i]);
            if i > 0 {
                assert(init[i - 1] == ls[i - 1]);
            }
        }
        let u = uniq_of(ls);
        let ui = uniq_of(init);
        let p = kept_positions(ls);
        let pi = kept_positions(init);
        if starts_run(ls, n) {
            assert(u == ui.push(ls.last()));
            assert(p == pi.push(n));
            assert forall|j: int| 0 <= j < u.len() - 1 implies trim_end(#[trigger] u[j]) != trim_end(
                u[j + 1],
            ) by {
                if j < ui.len() - 1 {
                    assert(u[j] == ui[j] && u[j + 1] == ui[j + 1]);
                } else {
                    assert(u[j] == ui.last());
                    assert(prev_line(ls, n) == init.last());
                }
            }
            assert forall|j: int| 0 <= j < u.len() implies 0 <= #[trigger] p[j] < ls.len() && u[j]
                == ls[p[j]] && starts_run(ls, p[j]) by {
                if j < ui.len() {
                    assert(pi[j] < init.len());
                    assert(init[pi[j]] == ls[pi[j]]);
                    assert(starts_run(init, pi[j]));
                }
            }
        } else {
            assert(u == ui);
            assert(p == pi);
            assert forall|j: int| 0 <= j < u.len() implies 0 <= #[trigger] p[j] < ls.len() && u[j]
                == ls[p[j]] && starts_run(ls, p[j]) by {
                assert(init[pi[j]] == ls[pi[j]]);
                assert(starts_run(init, pi[j]));
            }
            if u.len() > 0 {
                assert(n > 0);
                assert(prev_line(ls, n) == init.last());
            }
        }
    }
}

} // verus!
