//! Splitting a text into rows and a row into words.

use vstd::prelude::*;
use crate::chars::is_whitespace_char;

verus! {

/// The pieces between the line feeds of `text`.  There is one more
/// piece than there are line feeds; a piece may be empty.
pub open spec fn pieces(text: Seq<char>) -> Seq<Seq<char>>
    decreases text.len(),
{
    if text.len() == 0 {
        seq![Seq::<char>::empty()]
    } else {
        let before = pieces(text.drop_last());
        if text.last() == '\n' {
            before.push(Seq::<char>::empty())
        } else {
            before.drop_last().push(before.last().push(text.last()))
        }
    }
}

/// The rows of `text`: its pieces, without the last one if that is
/// empty, so that a line feed at the end of the text opens no row.
pub open spec fn rows(text: Seq<char>) -> Seq<Seq<char>> {
    if pieces(text).last().len() == 0 {
        pieces(text).drop_last()
    } else {
        pieces(text)
    }
}

/// The words of `line`: its longest runs of characters that are not
/// whitespace.
pub open spec fn words(line: Seq<char>) -> Seq<Seq<char>>
    decreases line.len(),
{
    if line.len() == 0 {
        Seq::<Seq<char>>::empty()
    } else {
        let before = words(line.drop_last());
        if is_whitespace_char(line.last()) {
            before
        } else if line.len() >= 2 && !is_whitespace_char(line[line.len() - 2]) {
            before.drop_last().push(before.last().push(line.last()))
        } else {
            before.push(seq![line.last()])
        }
    }
}

/// The sequences of characters that the vectors of `v` hold.
pub open spec fn views(v: Seq<Vec<char>>) -> Seq<Seq<char>> {
    v.map_values(|w: Vec<char>| w@)
}

/// No word is empty, and a line that ends in a character that is not
/// whitespace has a word.
pub proof fn lemma_words_nonempty(line: Seq<char>)
    ensures
        forall|i: int| 0 <= i < words(line).len() ==> (#[trigger] words(line)[i]).len() >= 1,
        line.len() >= 1 && !is_whitespace_char(line.last()) ==> words(line).len() >= 1,
    decreases line.len(),
{
    if line.len() > 0 {
        let before = words(line.drop_last());
        lemma_words_nonempty(line.drop_last());
        if line.len() >= 2 {
            assert(line.drop_last().last() == line[line.len() - 2]);
        }
        assert forall|i: int| 0 <= i < words(line).len() implies (#[trigger] words(line)[i]).len()
            >= 1 by {
            if is_whitespace_char(line.last()) {
            } else if line.len() >= 2 && !is_whitespace_char(line[line.len() - 2]) {
                if i < before.len() - 1 {
                    assert(words(line)[i] == before[i]);
                }
            } else {
                if i < before.len() {
                    assert(words(line)[i] == before[i]);
                }
            }
        }
    }
}

/// Splits a text into its rows.
pub fn split_rows(text: &Vec<char>) -> (out: Vec<Vec<char>>)
    ensures
        views(out@) == rows(text@),
{
    let mut done: Vec<Vec<char>> = Vec::new();
    let mut current: Vec<char> = Vec::new();
    let mut i: usize = 0;
    assert(text@.take(0) =~= Seq::<char>::empty());
    assert(views(done@).push(current@) =~= pieces(text@.take(0)));
    while i < text.len()
        invariant
            i <= text@.len(),
            views(done@).push(current@) == pieces(text@.take(i as int)),
        decreases text@.len() - i,
    {
        let c = text[i];
        let ghost before = pieces(text@.take(i as int));
        assert(text@.take(i + 1).drop_last() =~= text@.take(i as int));
        if c == '\n' {
            let ghost old_done = done@;
            done.push(current);
            current = Vec::new();
            assert(views(done@) =~= views(old_done).push(before.last()));
            assert(views(done@).push(current@) =~= before.push(Seq::<char>::empty()));
        } else {
            current.push(c);
            assert(views(done@).push(current@) =~= before.drop_last().push(before.last().push(c)));
        }
        i += 1;
    }
    assert(text@.take(i as int) =~= text@);
    if current.len() > 0 {
        let ghost old_done = done@;
        done.push(current);
        assert(views(done@) =~= views(old_done).push(pieces(text@).last()));
    } else {
        assert(views(done@) =~= pieces(text@).drop_last());
    }
    done
}

/// Splits a line into its words.
pub fn split_words(line: &Vec<char>) -> (out: Vec<Vec<char>>)
    ensures
        views(out@) == words(line@),
{
    let mut done: Vec<Vec<char>> = Vec::new();
    let mut current: Vec<char> = Vec::new();
    let mut i: usize = 0;
    assert(line@.take(0) =~= Seq::<char>::empty());
    assert(views(done@) =~= words(line@.take(0)));
    while i < line.len()
        invariant
            i <= line@.len(),
            current@.len() == 0 ==> views(done@) == words(line@.take(i as int)),
            current@.len() > 0 ==> views(done@).push(current@) == words(line@.take(i as int)),
            current@.len() > 0 <==> i > 0 && !is_whitespace_char(line@[i - 1]),
        decreases line@.len() - i,
    {
        let c = line[i];
        let ghost before = words(line@.take(i as int));
        proof {
            assert(line@.take(i + 1).drop_last() =~= line@.take(i as int));
            assert(line@.take(i + 1).last() == c);
            if i > 0 {
                assert(line@.take(i + 1)[i - 1] == line@[i - 1]);
            }
        }
        if c.is_whitespace() {
            if current.len() > 0 {
                let ghost old_done = done@;
                let ghost word = current@;
                done.push(current);
                current = Vec::new();
                assert(views(done@) =~= views(old_done).push(word));
            }
        } else {
            let ghost word = current@;
            current.push(c);
            proof {
                if word.len() > 0 {
                    assert(views(done@).push(current@) =~= before.drop_last().push(
                        before.last().push(c),
                    ));
                } else {
                    assert(current@ =~= seq![c]);
                }
            }
        }
        i += 1;
    }
    assert(line@.take(i as int) =~= line@);
    if current.len() > 0 {
        let ghost old_done = done@;
        let ghost word = current@;
        done.push(current);
        assert(views(done@) =~= views(old_done).push(word));
    }
    done
}

} // verus!
