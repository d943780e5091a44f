//! Layouts: 30 keys in three rows of ten, each with an unshifted and a
//! shifted symbol; and how a layout is read from text.

use vstd::prelude::*;
use crate::chars::{
    chars_of, lowercase_of, uppercase_of, is_alphabetic_char, to_lowercase, to_uppercase,
    string_from_chars,
};
use crate::model::mirror_key_spec;
use crate::textscan::{rows, words, views, split_rows, split_words, lemma_words_nonempty};

verus! {

/// Two symbols for each key; key `k` is in row `k / 10` and column `k % 10`.
pub type Layout = [[char; 2]; 30];

/// Why a text is no layout.  Rows and keys are counted from 0, but for
/// the row of `TooManyKeys`, which is counted from 1.
#[derive(Clone, Copy, Debug, PartialEq, Eq, Structural)]
pub enum LayoutFormatError {
    /// A row has more than ten keys.
    TooManyKeys { row: usize },
    /// A key has more than two characters.
    TooManyChars { row: usize, key: usize },
    /// A key of one character is no letter with one lower and one upper case.
    CaseConversion { c: char, row: usize, key: usize },
    /// A row has fewer than ten keys.
    TooFewKeys { found: usize, row: usize },
    /// The text has fewer than three rows.
    TooFewRows { found: usize },
}

/// The keys of a layout as sequences of two characters.
pub open spec fn layout_keys(layout: Layout) -> Seq<Seq<char>> {
    layout@.map_values(|key: [char; 2]| key@)
}

/// The two symbols that a word stands for: the word itself if it has two
/// characters, and the lower and the upper case of a single letter.
pub open spec fn parse_key(word: Seq<char>, row: int, key: int) -> Result<
    Seq<char>,
    LayoutFormatError,
> {
    if word.len() >= 3 {
        Err(LayoutFormatError::TooManyChars { row: row as usize, key: key as usize })
    } else if word.len() == 2 {
        Ok(word)
    } else {
        let c = word[0];
        if !is_alphabetic_char(c) || lowercase_of(c).len() != 1 || uppercase_of(c).len() != 1 {
            Err(LayoutFormatError::CaseConversion { c, row: row as usize, key: key as usize })
        } else {
            Ok(seq![lowercase_of(c)[0], uppercase_of(c)[0]])
        }
    }
}

/// The keys of the first `n` words of a row, or the first error met.
pub open spec fn parse_words(ws: Seq<Seq<char>>, row: int, n: int) -> Result<
    Seq<Seq<char>>,
    LayoutFormatError,
>
    decreases n,
{
    if n <= 0 {
        Ok(Seq::<Seq<char>>::empty())
    } else {
        match parse_words(ws, row, n - 1) {
            Err(e) => Err(e),
            Ok(keys) => if n - 1 >= 10 {
                Err(LayoutFormatError::TooManyKeys { row: (row + 1) as usize })
            } else {
                match parse_key(ws[n - 1], row, n - 1) {
                    Err(e) => Err(e),
                    Ok(key) => Ok(keys.push(key)),
                }
            },
        }
    }
}

/// The ten keys of a row, or the first error met.  An empty row is
/// reported as a row of one key.
pub open spec fn parse_row(line: Seq<char>, row: int) -> Result<
    Seq<Seq<char>>,
    LayoutFormatError,
> {
    let ws = words(line);
    match parse_words(ws, row, ws.len() as int) {
        Err(e) => Err(e),
        Ok(keys) => if ws.len() < 10 {
            Err(
                LayoutFormatError::TooFewKeys {
                    found: if ws.len() == 0 { 1 } else { ws.len() as usize },
                    row: row as usize,
                },
            )
        } else {
            Ok(keys)
        },
    }
}

/// The keys of the first `n` rows, or the first error met.
pub open spec fn parse_rows(rs: Seq<Seq<char>>, n: int) -> Result<
    Seq<Seq<char>>,
    LayoutFormatError,
>
    decreases n,
{
    if n <= 0 {
        Ok(Seq::<Seq<char>>::empty())
    } else {
        match parse_rows(rs, n - 1) {
            Err(e) => Err(e),
            Ok(keys) => match parse_row(rs[n - 1], n - 1) {
                Err(e) => Err(e),
                Ok(row_keys) => Ok(keys + row_keys),
            },
        }
    }
}

/// The thirty keys that a text describes, or the first error met.  The
/// text is read row by row and word by word; rows after the third are
/// not read.  A text without rows is reported as a text of one row.
pub open spec fn parse_layout(text: Seq<char>) -> Result<Seq<Seq<char>>, LayoutFormatError> {
    let rs = rows(text);
    let n = if rs.len() < 3 { rs.len() as int } else { 3 };
    match parse_rows(rs, n) {
        Err(e) => Err(e),
        Ok(keys) => if rs.len() < 3 {
            Err(
                LayoutFormatError::TooFewRows {
                    found: if rs.len() == 0 { 1 } else { rs.len() as usize },
                },
            )
        } else {
            Ok(keys)
        },
    }
}

/// An error among the first words of a row is the error of more words.
proof fn lemma_words_error(ws: Seq<Seq<char>>, row: int, n: int, m: int)
    requires
        0 <= n <= m,
        parse_words(ws, row, n) is Err,
    ensures
        parse_words(ws, row, m) == parse_words(ws, row, n),
    decreases m - n,
{
    if n < m {
        lemma_words_error(ws, row, n, m - 1);
    }
}

/// An error among the first rows is the error of more rows.
proof fn lemma_rows_error(rs: Seq<Seq<char>>, n: int, m: int)
    requires
        0 <= n <= m,
        parse_rows(rs, n) is Err,
    ensures
        parse_rows(rs, m) == parse_rows(rs, n),
    decreases m - n,
{
    if n < m {
        lemma_rows_error(rs, n, m - 1);
    }
}

/// Reads the two symbols of one key.
fn read_key(word: &Vec<char>, row: usize, key: usize) -> (r: Result<[char; 2], LayoutFormatError>)
    requires
        word@.len() >= 1,
    ensures
        match r {
            Ok(symbols) => parse_key(word@, row as int, key as int) == Ok::<
                Seq<char>,
                LayoutFormatError,
            >(symbols@),
            Err(e) => parse_key(word@, row as int, key as int) == Err::<
                Seq<char>,
                LayoutFormatError,
            >(e),
        },
{
    if word.len() >= 3 {
        return Err(LayoutFormatError::TooManyChars { row, key });
    }
    if word.len() == 2 {
        let symbols = [word[0], word[1]];
        assert(symbols@ =~= word@);
        return Ok(symbols);
    }
    let c = word[0];
    if !c.is_alphabetic() {
        return Err(LayoutFormatError::CaseConversion { c, row, key });
    }
    let lower = to_lowercase(c);
    let upper = to_uppercase(c);
    if lower.len() != 1 || upper.len() != 1 {
        return Err(LayoutFormatError::CaseConversion { c, row, key });
    }
    let symbols = [lower[0], upper[0]];
    assert(symbols@ =~= seq![lowercase_of(c)[0], uppercase_of(c)[0]]);
    Ok(symbols)
}

/// Reads the ten keys of one row into `layout`.
fn read_row(layout: &mut Layout, line: &Vec<char>, row: usize) -> (r: Result<
    (),
    LayoutFormatError,
>)
    requires
        row < 3,
    ensures
        match r {
            Ok(_) => parse_row(line@, row as int) == Ok::<Seq<Seq<char>>, LayoutFormatError>(
                layout_keys(*final(layout)).subrange(row * 10, row * 10 + 10),
            ) && layout_keys(*final(layout)).take(row * 10) == layout_keys(*old(layout)).take(
                row * 10,
            ),
            Err(e) => parse_row(line@, row as int) == Err::<Seq<Seq<char>>, LayoutFormatError>(e),
        },
{
    let ws = split_words(line);
    let ghost wv = words(line@);
    proof {
        lemma_words_nonempty(line@);
    }
    let mut k: usize = 0;
    assert(layout_keys(*layout).subrange(row * 10, row * 10 + 0) =~= Seq::<Seq<char>>::empty());
    while k < ws.len()
        invariant
            row < 3,
            k <= ws@.len(),
            k <= 10,
            views(ws@) == wv,
            wv == words(line@),
            forall|i: int| 0 <= i < wv.len() ==> (#[trigger] wv[i]).len() >= 1,
            parse_words(wv, row as int, k as int) == Ok::<Seq<Seq<char>>, LayoutFormatError>(
                layout_keys(*layout).subrange(row * 10, row * 10 + k),
            ),
            layout_keys(*layout).take(row * 10) == layout_keys(*old(layout)).take(row * 10),
        decreases ws@.len() - k,
    {
        if k >= 10 {
            proof {
                assert(parse_words(wv, row as int, k + 1) == Err::<
                    Seq<Seq<char>>,
                    LayoutFormatError,
                >(LayoutFormatError::TooManyKeys { row: (row + 1) as usize }));
                lemma_words_error(wv, row as int, k + 1, wv.len() as int);
            }
            return Err(LayoutFormatError::TooManyKeys { row: row + 1 });
        }
        assert(wv[k as int] == ws@[k as int]@);
        match read_key(&ws[k], row, k) {
            Ok(symbols) => {
                let ghost before = layout_keys(*layout);
                layout[row * 10 + k] = symbols;
                proof {
                    let after = layout_keys(*layout);
                    assert(after =~= before.update(row * 10 + k, symbols@));
                    assert(after.subrange(row * 10, row * 10 + k + 1) =~= before.subrange(
                        row * 10,
                        row * 10 + k,
                    ).push(symbols@));
                    assert(after.take(row * 10) =~= before.take(row * 10));
                }
            },
            Err(e) => {
                proof {
                    assert(parse_words(wv, row as int, k + 1) == Err::<
                        Seq<Seq<char>>,
                        LayoutFormatError,
                    >(e));
                    lemma_words_error(wv, row as int, k + 1, wv.len() as int);
                }
                return Err(e);
            },
        }
        k += 1;
    }
    if ws.len() < 10 {
        return Err(
            LayoutFormatError::TooFewKeys {
                found: if ws.len() == 0 { 1 } else { ws.len() },
                row,
            },
        );
    }
    Ok(())
}

/// Reads a layout from text: three rows of ten keys, the keys parted by
/// whitespace.  A key is written as its two symbols, or as one letter
/// that stands for its lower and its upper case.
pub fn layout_from_str(text: &str) -> (r: Result<Layout, LayoutFormatError>)
    ensures
        match r {
            Ok(layout) => parse_layout(text@) == Ok::<Seq<Seq<char>>, LayoutFormatError>(
                layout_keys(layout),
            ),
            Err(e) => parse_layout(text@) == Err::<Seq<Seq<char>>, LayoutFormatError>(e),
        },
{
    let chars = chars_of(text);
    let lines = split_rows(&chars);
    let ghost rs = rows(text@);
    let mut layout: Layout = [[' ';2];30];
    let n: usize = if lines.len() < 3 { lines.len() } else { 3 };
    let mut l: usize = 0;
    assert(layout_keys(layout).take(0) =~= Seq::<Seq<char>>::empty());
    while l < n
        invariant
            l <= n <= 3,
            n <= lines@.len(),
            views(lines@) == rs,
            rs == rows(text@),
            n == if rs.len() < 3 { rs.len() as int } else { 3 },
            parse_rows(rs, l as int) == Ok::<Seq<Seq<char>>, LayoutFormatError>(
                layout_keys(layout).take(l * 10),
            ),
        decreases n - l,
    {
        assert(rs[l as int] == lines@[l as int]@);
        let ghost before = layout_keys(layout);
        match read_row(&mut layout, &lines[l], l) {
            Ok(_) => {
                proof {
                    let after = layout_keys(layout);
                    assert(after.take((l + 1) * 10) =~= after.take(l * 10) + after.subrange(
                        l * 10,
                        l * 10 + 10,
                    ));
                }
            },
            Err(e) => {
                proof {
                    assert(parse_rows(rs, l + 1) == Err::<Seq<Seq<char>>, LayoutFormatError>(e));
                    lemma_rows_error(rs, l + 1, n as int);
                }
                return Err(e);
            },
        }
        l += 1;
    }
    if lines.len() < 3 {
        return Err(
            LayoutFormatError::TooFewRows {
                found: if lines.len() == 0 { 1 } else { lines.len() },
            },
        );
    }
    assert(layout_keys(layout).take(30) =~= layout_keys(layout));
    Ok(layout)
}

/// How a key is written: in three columns, as its unshifted symbol alone
/// if the shifted symbol is its upper case, and as both symbols if not.
pub open spec fn key_text(key: Seq<char>) -> Seq<char> {
    if lowercase_of(key[1]).len() > 0 && lowercase_of(key[1])[0] == key[0] {
        seq![' ', ' ', key[0]]
    } else {
        seq![' ', key[0], key[1]]
    }
}

/// How the first `n` keys are written, with a line feed after every
/// tenth key.
pub open spec fn keys_text(keys: Seq<Seq<char>>, n: int) -> Seq<char>
    decreases n,
{
    if n <= 0 {
        Seq::<char>::empty()
    } else if n % 10 == 0 {
        keys_text(keys, n - 1) + key_text(keys[n - 1]) + seq!['\n']
    } else {
        keys_text(keys, n - 1) + key_text(keys[n - 1])
    }
}

/// Writes a layout as three rows of ten keys.
pub fn layout_to_str(layout: &Layout) -> (text: String)
    ensures
        text@ == keys_text(layout_keys(*layout), 30),
{
    let mut out: Vec<char> = Vec::new();
    let ghost keys = layout_keys(*layout);
    let mut k: usize = 0;
    while k < 30
        invariant
            k <= 30,
            keys == layout_keys(*layout),
            out@ == keys_text(keys, k as int),
        decreases 30 - k,
    {
        let a = layout[k][0];
        let b = layout[k][1];
        let lower = to_lowercase(b);
        assert(keys[k as int] == layout[k as int]@);
        let ghost before = out@;
        out.push(' ');
        if lower.len() > 0 && lower[0] == a {
            out.push(' ');
            out.push(a);
        } else {
            out.push(a);
            out.push(b);
        }
        assert(out@ =~= before + key_text(keys[k as int]));
        if k % 10 == 9 {
            out.push('\n');
            assert(out@ =~= before + key_text(keys[k as int]) + seq!['\n']);
        }
        k += 1;
    }
    string_from_chars(&out)
}

/// The character that stands in a file name for a symbol: some symbols
/// do not work well in file names and are replaced by capital letters.
pub open spec fn filename_char(c: char) -> char {
    if c == '/' {
        'Z'
    } else if c == '?' {
        'S'
    } else if c == '<' {
        'L'
    } else if c == '>' {
        'G'
    } else if c == ':' {
        'I'
    } else if c == ';' {
        'J'
    } else if c == '\\' {
        'X'
    } else if c == '|' {
        'T'
    } else if c == '.' {
        'O'
    } else if c == ',' {
        'Q'
    } else if c == '\'' {
        'V'
    } else if c == '"' {
        'W'
    } else {
        c
    }
}

/// The name of the file of a layout: its thirty unshifted symbols, each
/// as `filename_char` gives it, and the ending `.kbl`.
pub open spec fn filename_text(layout: Layout) -> Seq<char> {
    Seq::new(30, |k: int| filename_char(layout[k][0])) + seq!['.', 'k', 'b', 'l']
}

/// The name of the file in which a layout is kept.
pub fn layout_to_filename(layout: &Layout) -> (name: String)
    ensures
        name@ == filename_text(*layout),
{
    let mut out: Vec<char> = Vec::new();
    let mut k: usize = 0;
    while k < 30
        invariant
            k <= 30,
            out@.len() == k,
            forall|i: int| 0 <= i < k ==> out@[i] == filename_char(layout[i][0]),
        decreases 30 - k,
    {
        let a = layout[k][0];
        out.push(
            match a {
                '/' => 'Z',
                '?' => 'S',
                '<' => 'L',
                '>' => 'G',
                ':' => 'I',
                ';' => 'J',
                '\\' => 'X',
                '|' => 'T',
                '.' => 'O',
                ',' => 'Q',
                '\'' => 'V',
                '"' => 'W',
                _ => a,
            },
        );
        k += 1;
    }
    out.push('.');
    out.push('k');
    out.push('b');
    out.push('l');
    assert(out@ =~= filename_text(*layout));
    string_from_chars(&out)
}

/// The layout with every row turned round, so that the hands are swapped.
pub open spec fn mirrored(layout: Layout) -> Seq<[char; 2]> {
    Seq::new(30, |k: int| layout[mirror_key_spec(k)])
}

/// Whether key `k` holds the full stop on one of its two levels.
pub open spec fn has_full_stop(layout: Layout, k: int) -> bool {
    layout[k][0] == '.' || layout[k][1] == '.'
}

/// Whether the first full stop of the layout is under the left hand.
pub open spec fn full_stop_on_left(layout: Layout) -> bool {
    exists|k: int|
        0 <= k < 30 && #[trigger] has_full_stop(layout, k) && k % 10 < 5 && forall|i: int|
            0 <= i < k ==> !#[trigger] has_full_stop(layout, i)
}

/// The layout or its mirror image, whichever has the full stop under the
/// right hand.  A model that treats the hands alike scores both the same,
/// so one of them stands for both.  Where the model does not, or the
/// layout has no full stop, the layout is left as it is.
pub fn canonical_layout(layout: &Layout, symmetrical: bool) -> (canonical: Layout)
    ensures
        canonical@ == if symmetrical && full_stop_on_left(*layout) {
            mirrored(*layout)
        } else {
            layout@
        },
{
    if !symmetrical {
        return *layout;
    }
    let mut k: usize = 0;
    while k < 30
        invariant
            k <= 30,
            symmetrical,
            forall|i: int| 0 <= i < k ==> !#[trigger] has_full_stop(*layout, i),
        decreases 30 - k,
    {
        if layout[k][0] == '.' || layout[k][1] == '.' {
            assert(has_full_stop(*layout, k as int));
            if k % 10 < 5 {
                let mut out: Layout = *layout;
                let mut i: usize = 0;
                assert(full_stop_on_left(*layout));
                while i < 30
                    invariant
                        i <= 30,
                        symmetrical,
                        full_stop_on_left(*layout),
                        forall|j: int| 0 <= j < i ==> out[j] == layout[mirror_key_spec(j)],
                    decreases 30 - i,
                {
                    out[i] = layout[i + 9 - 2 * (i % 10)];
                    i += 1;
                }
                assert(out@ =~= mirrored(*layout));
                return out;
            } else {
                assert(!full_stop_on_left(*layout)) by {
                    if full_stop_on_left(*layout) {
                        let w = choose|w: int|
                            0 <= w < 30 && #[trigger] has_full_stop(*layout, w) && w % 10 < 5
                                && forall|i: int|
                                0 <= i < w ==> !#[trigger] has_full_stop(*layout, i);
                        assert(w == k);
                    }
                }
                return *layout;
            }
        }
        k += 1;
    }
    *layout
}

/// How many of the first `n` characters of `line` are number signs.
pub open spec fn number_signs(line: Seq<char>, n: int) -> nat
    decreases n,
{
    if n <= 0 {
        0
    } else {
        number_signs(line, n - 1) + if line[n - 1] == '#' { 1nat } else { 0nat }
    }
}

/// How often a layout was found, as its file tells: the number signs in
/// the last row of the file, and at least once.
pub open spec fn popularity_of(text: Seq<char>) -> nat {
    let rs = rows(text);
    if rs.len() == 0 || number_signs(rs.last(), rs.last().len() as int) == 0 {
        1
    } else {
        number_signs(rs.last(), rs.last().len() as int)
    }
}

/// Reads from the text of a layout file how often the layout was found.
pub fn popularity(text: &str) -> (found: usize)
    ensures
        found == popularity_of(text@),
{
    let chars = chars_of(text);
    let lines = split_rows(&chars);
    if lines.len() == 0 {
        return 1;
    }
    let last = &lines[lines.len() - 1];
    assert(rows(text@).last() == last@) by {
        assert(views(lines@)[lines@.len() - 1] == lines@[lines@.len() - 1]@);
    }
    let mut n: usize = 0;
    let mut i: usize = 0;
    while i < last.len()
        invariant
            i <= last@.len(),
            n <= i,
            n == number_signs(last@, i as int),
        decreases last@.len() - i,
    {
        if last[i] == '#' {
            n += 1;
        }
        i += 1;
    }
    if n == 0 {
        1
    } else {
        n
    }
}

/// The character of a decimal digit.
pub open spec fn digit_char(d: int) -> char {
    if d == 0 {
        '0'
    } else if d == 1 {
        '1'
    } else if d == 2 {
        '2'
    } else if d == 3 {
        '3'
    } else if d == 4 {
        '4'
    } else if d == 5 {
        '5'
    } else if d == 6 {
        '6'
    } else if d == 7 {
        '7'
    } else if d == 8 {
        '8'
    } else {
        '9'
    }
}

/// A number written in decimal digits.
pub open spec fn decimal_text(n: nat) -> Seq<char>
    decreases n,
{
    if n < 10 {
        seq![digit_char(n as int)]
    } else {
        decimal_text(n / 10).push(digit_char((n % 10) as int))
    }
}

impl LayoutFormatError {
    /// The error in words.
    pub open spec fn text(self) -> Seq<char> {
        match self {
            LayoutFormatError::TooManyKeys { row } => "Too many keys on row "@ + decimal_text(
                row as nat,
            ) + ". Expected 10 keys per row"@,
            LayoutFormatError::TooManyChars { row, key } => "Too many characters on row "@
                + decimal_text(row as nat) + ", key "@ + decimal_text(key as nat)
                + ". Expected 1 or 2 characters per key"@,
            LayoutFormatError::CaseConversion { c, row, key } =>
                "Automatic case conversion failed for '"@ + seq![c] + "' at row "@ + decimal_text(
                    row as nat,
                ) + ", key "@ + decimal_text(key as nat),
            LayoutFormatError::TooFewKeys { found, row } => "Found only "@ + decimal_text(
                found as nat,
            ) + " keys in row "@ + decimal_text(row as nat) + ". Expected 10 keys per row"@,
            LayoutFormatError::TooFewRows { found } => "Found only "@ + decimal_text(found as nat)
                + " rows. Expected 3 rows"@,
        }
    }

    /// The error in words.
    pub fn message(&self) -> (msg: String)
        ensures
            msg@ == self.text(),
    {
        let mut out: Vec<char> = Vec::new();
        match *self {
            LayoutFormatError::TooManyKeys { row } => {
                push_text(&mut out, "Too many keys on row ");
                push_decimal(&mut out, row);
                push_text(&mut out, ". Expected 10 keys per row");
            },
            LayoutFormatError::TooManyChars { row, key } => {
                push_text(&mut out, "Too many characters on row ");
                push_decimal(&mut out, row);
                push_text(&mut out, ", key ");
                push_decimal(&mut out, key);
                push_text(&mut out, ". Expected 1 or 2 characters per key");
            },
            LayoutFormatError::CaseConversion { c, row, key } => {
                push_text(&mut out, "Automatic case conversion failed for '");
                let ghost before = out@;
                out.push(c);
                assert(out@ =~= before + seq![c]);
                push_text(&mut out, "' at row ");
                push_decimal(&mut out, row);
                push_text(&mut out, ", key ");
                push_decimal(&mut out, key);
            },
            LayoutFormatError::TooFewKeys { found, row } => {
                push_text(&mut out, "Found only ");
                push_decimal(&mut out, found);
                push_text(&mut out, " keys in row ");
                push_decimal(&mut out, row);
                push_text(&mut out, ". Expected 10 keys per row");
            },
            LayoutFormatError::TooFewRows { found } => {
                push_text(&mut out, "Found only ");
                push_decimal(&mut out, found);
                push_text(&mut out, " rows. Expected 3 rows");
            },
        }
        string_from_chars(&out)
    }
}

/// Adds the characters of `text` to `out`.
fn push_text(out: &mut Vec<char>, text: &str)
    ensures
        final(out)@ == old(out)@ + text@,
{
    let mut chars = chars_of(text);
    out.append(&mut chars);
}

/// Adds the decimal digits of `n` to `out`.
fn push_decimal(out: &mut Vec<char>, n: usize)
    ensures
        final(out)@ == old(out)@ + decimal_text(n as nat),
    decreases n,
{
    if n >= 10 {
        push_decimal(out, n / 10);
    }
    let d = n % 10;
    let c = if d == 0 {
        '0'
    } else if d == 1 {
        '1'
    } else if d == 2 {
        '2'
    } else if d == 3 {
        '3'
    } else if d == 4 {
        '4'
    } else if d == 5 {
        '5'
    } else if d == 6 {
        '6'
    } else if d == 7 {
        '7'
    } else if d == 8 {
        '8'
    } else {
        '9'
    };
    let ghost before = out@;
    out.push(c);
    proof {
        if n >= 10 {
            assert(out@ =~= old(out)@ + decimal_text((n / 10) as nat).push(c));
        } else {
            assert(out@ =~= old(out)@ + seq![c]);
        }
    }
}

} // verus!
