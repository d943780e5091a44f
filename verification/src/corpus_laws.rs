//! What holds of every corpus, beyond what its functions promise each
//! for itself.

use vstd::prelude::*;
use crate::ngram::{has_whitespace, is_counted, occurrences, ngram_count};
use crate::tokens::digits;
use crate::corpus_model::{sym, token_at, is_ranked_list, lemma_token_digits};
use crate::corpus_build::counts_of_text;
use crate::corpus_format::ranked;
use crate::text_stats::TextStats;

verus! {

/// The token of every n-gram that the corpus lists splits into the
/// tokens of the symbols of that n-gram: the first digit is the token of
/// its first symbol, and so on, and the digits past its last symbol are
/// zero.  So `token_to_ngram` may be called with it.
pub proof fn lemma_listed_token(stats: TextStats, n: int, i: int)
    requires
        stats.wf(),
        1 <= n <= 3,
        0 <= i < ranked(stats, n).len(),
    ensures
        ({
            let m = stats.ngrams();
            let (g, count, token) = ranked(stats, n)[i];
            &&& g.len() == n
            &&& m.contains_key(g)
            &&& token as int / stats.base() / stats.base() < stats.base()
            &&& forall|j: int|
                0 <= j < 3 ==> #[trigger] digits(token as int, stats.base())[j] == if j < n {
                    m[sym(g[j])].1 as int
                } else {
                    0
                }
        }),
{
    let m = stats.ngrams();
    let list = ranked(stats, n);
    assert(is_ranked_list(list, m, n));
    let g = list[i].0;
    assert(m.contains_key(g) && m[g] == (list[i].1, list[i].2));
    lemma_token_digits(m, stats.base(), g);
    let d = digits(list[i].2 as int, stats.base());
    assert forall|j: int| 0 <= j < 3 implies #[trigger] d[j] == if j < n {
        m[sym(g[j])].1 as int
    } else {
        0
    } by {
        assert(d[j] == token_at(m, g, j));
    }
}

/// No bigram or trigram of the corpus of a text holds whitespace, and
/// the count of every n-gram of the corpus is the number of the places
/// of the text at which it stands.
pub proof fn lemma_counts_are_occurrences(
    m: Map<Seq<char>, (usize, usize)>,
    text: Seq<char>,
    g: Seq<char>,
)
    requires
        counts_of_text(m, text),
        m.contains_key(g),
    ensures
        1 <= g.len() <= 3,
        g.len() >= 2 ==> !has_whitespace(g),
        m[g].0 == occurrences(text, g, text.len() as int),
        m[g].0 >= 1,
{
    assert(ngram_count(text, g) > 0);
    assert(is_counted(g));
}

/// An n-gram that stands in the text, and holds no whitespace if it is
/// a bigram or trigram, is in the corpus of the text.
pub proof fn lemma_occurring_is_counted(
    m: Map<Seq<char>, (usize, usize)>,
    text: Seq<char>,
    g: Seq<char>,
)
    requires
        counts_of_text(m, text),
        1 <= g.len() <= 3,
        g.len() == 1 || !has_whitespace(g),
        occurrences(text, g, text.len() as int) > 0,
    ensures
        m.contains_key(g),
{
    assert(ngram_count(text, g) > 0);
}

} // verus!
