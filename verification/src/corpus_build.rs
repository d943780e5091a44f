//! Building the statistics of a corpus from its text.

use vstd::prelude::*;
use vstd::set_lib::{lemma_map_size, lemma_len_subset, lemma_int_range, set_int_range};
use vstd::relations::injective_on;
use vstd::seq_lib::seq_to_set_is_finite;
use crate::chars::{lowercased, lowercase_text};
use crate::ngram::{
    pack, unpack, occurs_at, ngram_count, lemma_pack_unpack, lemma_unpack_pack, lemma_char_code,
    lemma_positive_occurs, lemma_occurs_positive,
};
use crate::table::{Entry, keys_increase, has_key};
use crate::counting::{counts_text, count_windows, windows};
use crate::packed::{place, lemma_places};
use crate::corpus_model::sym;
use crate::tokens::lemma_cube_monotonic;
use crate::text_stats::{
    TextStats, CorpusFormatError, symbols_defined, holds_counts, entries_for,
};

verus! {

/// Whether `m` holds exactly the n-grams that `text` has, each with the
/// number of its occurrences; a bigram or trigram that holds whitespace
/// is not among them.
pub open spec fn counts_of_text(m: Map<Seq<char>, (usize, usize)>, text: Seq<char>) -> bool {
    &&& forall|g: Seq<char>| #[trigger]
        m.contains_key(g) <==> 1 <= g.len() <= 3 && ngram_count(text, g) > 0
    &&& forall|g: Seq<char>| #[trigger] m.contains_key(g) ==> m[g].0 == ngram_count(text, g)
}

/// Whether the totals are those of the corpus of `text`: every
/// character is counted as a symbol, so the symbols count as much as
/// the text is long; the bigrams and trigrams count no more than the
/// text has windows of their length.
pub open spec fn totals_of_text(stats: &TextStats, text: Seq<char>) -> bool {
    &&& stats.symbol_total() == text.len()
    &&& stats.bigram_total() <= windows(text, 2)
    &&& stats.trigram_total() <= windows(text, 3)
}

/// Whether the tokens of a text with this many different characters fit
/// in a machine word.
pub open spec fn alphabet_fits(text: Seq<char>) -> bool {
    (text.to_set().len() + 1) * (text.to_set().len() + 1) * (text.to_set().len() + 1)
        <= usize::MAX
}

/// On a machine with words of 64 bits the tokens of every text fit.
pub proof fn lemma_alphabet_fits(text: Seq<char>)
    requires
        usize::MAX >= 0xffff_ffff_ffff_ffff,
    ensures
        alphabet_fits(text),
{
    let chars = text.to_set();
    let code = |c: char| c as int;
    let codes = chars.map(code);
    seq_to_set_is_finite(text);
    assert(injective_on(code, chars)) by {
        assert forall|c: char, d: char|
            chars.contains(c) && chars.contains(d) && #[trigger] code(c) == #[trigger] code(
                d,
            ) implies c == d by {
            lemma_char_code(c);
            lemma_char_code(d);
        }
    }
    lemma_map_size(chars, codes, code);
    lemma_int_range(0, 0x110000);
    assert(codes.subset_of(set_int_range(0, 0x110000))) by {
        assert forall|x: int| codes.contains(x) implies set_int_range(0, 0x110000).contains(
            x,
        ) by {
            let c = choose|c: char| chars.contains(c) && x == code(c);
            lemma_char_code(c);
        }
    }
    lemma_len_subset(codes, set_int_range(0, 0x110000));
    lemma_cube_monotonic((chars.len() + 1) as int, 0x110001);
    assert(0x110001 * 0x110001 * 0x110001 <= 0xffff_ffff_ffff_ffff) by (nonlinear_arith);
}

/// Every character of an n-gram of the text is a symbol of the text.
proof fn lemma_text_defined(es: Seq<Entry>, entries: Seq<Entry>, text: Seq<char>, n: int)
    requires
        2 <= n <= 3,
        counts_text(es, text, 1),
        counts_text(entries, text, n),
    ensures
        symbols_defined(es, entries, n),
{
    assert forall|i: int, p: int| 0 <= i < entries.len() && 0 <= p < n implies has_key(
        es,
        #[trigger] place(entries[i].0 as int, n, p) as u64,
    ) by {
        let key = entries[i].0;
        lemma_pack_unpack(key as int, n);
        let g = unpack(key as int, n);
        assert(pack(g) as u64 == key);
        assert(has_key(entries, pack(g) as u64));
        let q = lemma_positive_occurs(text, g, text.len() as int);
        let c = g[p];
        assert(text.subrange(q, q + n)[p] == c);
        assert(occurs_at(text, sym(c), q + p)) by {
            assert(text.subrange(q + p, q + p + 1) =~= sym(c));
        }
        lemma_occurs_positive(text, sym(c), q + p);
        lemma_places(g);
        lemma_unpack_pack(sym(c));
        assert(pack(sym(c)) == c as int);
        assert(has_key(es, pack(sym(c)) as u64));
    }
}

/// The text has as many symbols as different characters.
proof fn lemma_alphabet_size(es: Seq<Entry>, text: Seq<char>)
    requires
        keys_increase(es),
        counts_text(es, text, 1),
    ensures
        es.len() == text.to_set().len(),
{
    let chars = Seq::new(es.len(), |i: int| unpack(es[i].0 as int, 1)[0]);
    assert(chars.no_duplicates()) by {
        assert forall|i: int, j: int| 0 <= i < chars.len() && 0 <= j < chars.len() && i
            != j implies chars[i] != chars[j] by {
            lemma_pack_unpack(es[i].0 as int, 1);
            lemma_pack_unpack(es[j].0 as int, 1);
            if i < j {
                assert(es[i].0 < es[j].0);
            } else {
                assert(es[j].0 < es[i].0);
            }
            assert(unpack(es[i].0 as int, 1) =~= sym(chars[i]));
            assert(unpack(es[j].0 as int, 1) =~= sym(chars[j]));
        }
    }
    assert(chars.to_set() =~= text.to_set()) by {
        assert forall|c: char| chars.to_set().contains(c) implies text.to_set().contains(c) by {
            let i = choose|i: int| 0 <= i < chars.len() && chars[i] == c;
            lemma_pack_unpack(es[i].0 as int, 1);
            let g = unpack(es[i].0 as int, 1);
            assert(pack(g) as u64 == es[i].0);
            assert(has_key(es, pack(g) as u64));
            let q = lemma_positive_occurs(text, g, text.len() as int);
            assert(text.subrange(q, q + 1)[0] == c);
            assert(text[q] == c);
        }
        assert forall|c: char| text.to_set().contains(c) implies chars.to_set().contains(c) by {
            let q = choose|q: int| 0 <= q < text.len() && text[q] == c;
            assert(occurs_at(text, sym(c), q)) by {
                assert(text.subrange(q, q + 1) =~= sym(c));
            }
            lemma_occurs_positive(text, sym(c), q);
            lemma_unpack_pack(sym(c));
            assert(has_key(es, pack(sym(c)) as u64));
            let i = choose|i: int| 0 <= i < es.len() && (#[trigger] es[i]).0 == pack(sym(c)) as u64;
            assert(unpack(es[i].0 as int, 1) == sym(c));
            assert(chars[i] == c);
        }
    }
    chars.unique_seq_to_set();
}

/// What the counts of the text give for the n-grams of the corpus.
proof fn lemma_counts_of_text(
    m: Map<Seq<char>, (usize, usize)>,
    es: Seq<Entry>,
    eb: Seq<Entry>,
    et: Seq<Entry>,
    text: Seq<char>,
)
    requires
        holds_counts(m, es, eb, et),
        counts_text(es, text, 1),
        counts_text(eb, text, 2),
        counts_text(et, text, 3),
    ensures
        counts_of_text(m, text),
{
    assert forall|g: Seq<char>| #[trigger]
        m.contains_key(g) <==> 1 <= g.len() <= 3 && ngram_count(text, g) > 0 by {
        if 1 <= g.len() <= 3 {
            let n = g.len() as int;
            assert(counts_text(entries_for(es, eb, et, n), text, n));
            let key = pack(g) as u64;
        }
    }
    assert forall|g: Seq<char>| #[trigger] m.contains_key(g) implies m[g].0 == ngram_count(
        text,
        g,
    ) by {
        let n = g.len() as int;
        let entries = entries_for(es, eb, et, n);
        assert(counts_text(entries, text, n));
        let key = pack(g) as u64;
        assert(has_key(entries, key));
        let i = choose|i: int| 0 <= i < entries.len() && (#[trigger] entries[i]).0 == key;
        lemma_unpack_pack(g);
        assert(unpack(entries[i].0 as int, n) == g);
        assert(m[unpack(entries_for(es, eb, et, n)[i].0 as int, n)].0 == entries_for(
            es,
            eb,
            et,
            n,
        )[i].1);
    }
}

impl TextStats {
    /// Counts the symbols, bigrams and trigrams of a text that is given
    /// as a sequence of characters.
    #[verifier::rlimit(40)]
    pub fn from_chars(chars: &Vec<char>) -> (r: Result<TextStats, CorpusFormatError>)
        ensures
            match r {
                Ok(stats) => stats.wf() && counts_of_text(stats.ngrams(), chars@)
                    && totals_of_text(&stats, chars@) && alphabet_fits(chars@),
                Err(e) => e == CorpusFormatError::TooLarge && !alphabet_fits(chars@),
            },
            usize::MAX >= 0xffff_ffff_ffff_ffff ==> r is Ok,
    {
        proof {
            if usize::MAX >= 0xffff_ffff_ffff_ffff {
                lemma_alphabet_fits(chars@);
            }
        }
        let es = count_windows(chars, 1);
        let eb = count_windows(chars, 2);
        let et = count_windows(chars, 3);
        proof {
            lemma_text_defined(es@, eb@, chars@, 2);
            lemma_text_defined(es@, et@, chars@, 3);
            lemma_alphabet_size(es@, chars@);
        }
        match TextStats::from_counts(&es, &eb, &et) {
            Ok(stats) => {
                proof {
                    lemma_counts_of_text(stats.ngrams(), es@, eb@, et@, chars@);
                }
                Ok(stats)
            },
            Err(e) => {
                // the counts add up to no more than the length of the text
                assert(chars@.len() == chars.len());
                Err(e)
            },
        }
    }

    /// Builds the statistics of a text.  Every character is folded to
    /// lower case before it is counted.  With words of 64 bits every text
    /// has statistics; with shorter words a text of very many different
    /// characters has none, since the tokens of its trigrams would not
    /// fit a word.
    pub fn from_str(text: &str) -> (r: Result<TextStats, CorpusFormatError>)
        ensures
            match r {
                Ok(stats) => stats.wf() && counts_of_text(stats.ngrams(), lowercased(text@))
                    && totals_of_text(&stats, lowercased(text@)) && alphabet_fits(
                    lowercased(text@),
                ),
                Err(e) => e == CorpusFormatError::TooLarge && !alphabet_fits(lowercased(text@)),
            },
            usize::MAX >= 0xffff_ffff_ffff_ffff ==> r is Ok,
    {
        let lower = lowercase_text(text);
        TextStats::from_chars(&lower)
    }
}

} // verus!
