use vstd::prelude::*;

use crate::table::{CharTable, WordTable};
use crate::text::{chars_of, is_white_space, white_space};

verus! {

/// The pieces of `s` between occurrences of `sep`; text without `sep` is one piece.
pub open spec fn split_spec(s: Seq<char>, sep: char) -> Seq<Seq<char>>
    decreases s.len(),
{
    if s.len() == 0 {
        seq![Seq::empty()]
    } else {
        let r = split_spec(s.drop_last(), sep);
        if s.last() == sep {
            r.push(Seq::empty())
        } else {
            r.update(r.len() - 1, r.last().push(s.last()))
        }
    }
}

proof fn lemma_split_nonempty(s: Seq<char>, sep: char)
    ensures
        split_spec(s, sep).len() >= 1,
    decreases s.len(),
{
    if s.len() > 0 {
        lemma_split_nonempty(s.drop_last(), sep);
    }
}

/// `s` without its leading white space.
pub open spec fn trim_start_spec(s: Seq<char>) -> Seq<char>
    decreases s.len(),
{
    if s.len() > 0 && white_space(s[0]) {
        trim_start_spec(s.drop_first())
    } else {
        s
    }
}

/// `s` without its trailing white space.
pub open spec fn trim_end_spec(s: Seq<char>) -> Seq<char>
    decreases s.len(),
{
    if s.len() > 0 && white_space(s.last()) {
        trim_end_spec(s.drop_last())
    } else {
        s
    }
}

/// `s` without leading and trailing white space.
pub open spec fn trim_spec(s: Seq<char>) -> Seq<char> {
    trim_end_spec(trim_start_spec(s))
}

/// The pair that one line of a character table defines: the first character of
/// each trimmed field, where the line has exactly two comma-separated fields and
/// neither is blank.
pub open spec fn char_entry(line: Seq<char>) -> Option<(char, char)> {
    let fields = split_spec(line, ',');
    if fields.len() == 2 && trim_spec(fields[0]).len() > 0 && trim_spec(fields[1]).len() > 0 {
        Some((trim_spec(fields[0])[0], trim_spec(fields[1])[0]))
    } else {
        None
    }
}

/// The pair that one line of a word table defines: its two trimmed fields, where
/// the line has exactly two comma-separated fields.
pub open spec fn word_entry(line: Seq<char>) -> Option<(Seq<char>, Seq<char>)> {
    let fields = split_spec(line, ',');
    if fields.len() == 2 {
        Some((trim_spec(fields[0]), trim_spec(fields[1])))
    } else {
        None
    }
}

/// The character table that the first `n` lines define; a later line replaces
/// an earlier one with the same key.
pub open spec fn char_lines_map(lines: Seq<Seq<char>>, n: int) -> Map<char, char>
    decreases n,
{
    if n <= 0 {
        Map::empty()
    } else {
        let m = char_lines_map(lines, n - 1);
        match char_entry(lines[n - 1]) {
            Some(e) => m.insert(e.0, e.1),
            None => m,
        }
    }
}

/// The word table that the first `n` lines define; a later line replaces an
/// earlier one with the same key.
pub open spec fn word_lines_map(lines: Seq<Seq<char>>, n: int) -> Map<Seq<char>, Seq<char>>
    decreases n,
{
    if n <= 0 {
        Map::empty()
    } else {
        let m = word_lines_map(lines, n - 1);
        match word_entry(lines[n - 1]) {
            Some(e) => m.insert(e.0, e.1),
            None => m,
        }
    }
}

/// The character table that a definition text describes.
pub open spec fn char_table_spec(text: Seq<char>) -> Map<char, char> {
    let lines = split_spec(text, '\n');
    char_lines_map(lines, lines.len() as int)
}

/// The word table that a definition text describes.
pub open spec fn word_table_spec(text: Seq<char>) -> Map<Seq<char>, Seq<char>> {
    let lines = split_spec(text, '\n');
    word_lines_map(lines, lines.len() as int)
}

/// Builds the character table that `text` defines, one `key,value` pair per line.
pub fn generate_dic_char(text: &str) -> (r: CharTable)
    ensures
        r@ == char_table_spec(text@),
{
    let chars = chars_of(text);
    let lines = split(&chars, '\n');
    let ghost ls = lines@.map_values(|x: Vec<char>| x@);
    let mut dic = CharTable::new();
    let mut i: usize = 0;
    while i < lines.len()
        invariant
            i <= lines.len(),
            ls == lines@.map_values(|x: Vec<char>| x@),
            ls == split_spec(text@, '\n'),
            dic@ == char_lines_map(ls, i as int),
        decreases lines.len() - i,
    {
        let fields = split(&lines[i], ',');
        assert(ls[i as int] == lines@[i as int]@);
        if fields.len() == 2 {
            assert(fields@.map_values(|x: Vec<char>| x@)[0] == fields@[0]@);
            assert(fields@.map_values(|x: Vec<char>| x@)[1] == fields@[1]@);
            let key = trim(&fields[0]);
            let value = trim(&fields[1]);
            if key.len() > 0 && value.len() > 0 {
                dic.insert(key[0], value[0]);
            }
        }
        i = i + 1;
    }
    dic
}

/// Builds the word table that `text` defines, one `key,value` pair per line.
pub fn generate_dic_str(text: &str) -> (r: WordTable)
    ensures
        r@ == word_table_spec(text@),
{
    let chars = chars_of(text);
    let lines = split(&chars, '\n');
    let ghost ls = lines@.map_values(|x: Vec<char>| x@);
    let mut dic = WordTable::new();
    let mut i: usize = 0;
    while i < lines.len()
        invariant
            i <= lines.len(),
            ls == lines@.map_values(|x: Vec<char>| x@),
            ls == split_spec(text@, '\n'),
            dic@ == word_lines_map(ls, i as int),
        decreases lines.len() - i,
    {
        let fields = split(&lines[i], ',');
        assert(ls[i as int] == lines@[i as int]@);
        if fields.len() == 2 {
            assert(fields@.map_values(|x: Vec<char>| x@)[0] == fields@[0]@);
            assert(fields@.map_values(|x: Vec<char>| x@)[1] == fields@[1]@);
            let key = trim(&fields[0]);
            let value = trim(&fields[1]);
            dic.insert_chars(key, value);
        }
        i = i + 1;
    }
    dic
}

/// The three definition sources a dictionary is loaded from.
#[derive(Clone, Copy, Debug, PartialEq, Eq, Structural)]
pub enum DictionaryFile {
    /// Readings of single Hanja characters.
    HanjaChar,
    /// Initial-sound corrections of Hangul syllables.
    Dueum,
    /// Irregular readings of whole Hanja words.
    HanjaWord,
}

impl DictionaryFile {
    /// The conventional file name of this source.
    pub fn file_name(&self) -> (r: &'static str)
        ensures
            r@ == match *self {
                DictionaryFile::HanjaChar => "hanja_char.csv"@,
                DictionaryFile::Dueum => "dueum.csv"@,
                DictionaryFile::HanjaWord => "hanja_word.csv"@,
            },
    {
        match self {
            DictionaryFile::HanjaChar => "hanja_char.csv",
            DictionaryFile::Dueum => "dueum.csv",
            DictionaryFile::HanjaWord => "hanja_word.csv",
        }
    }
}

/// Builds the three tables from the texts of their definition sources, in the
/// order character readings, corrections, words. A source that could not be
/// read is given as `None`, and the first such source is the error.
pub fn load_dictionary(
    hanja_char: Option<&str>,
    dueum: Option<&str>,
    hanja_word: Option<&str>,
) -> (r: Result<(CharTable, CharTable, WordTable), DictionaryFile>)
    ensures
        hanja_char is None ==> r == Err::<(CharTable, CharTable, WordTable), _>(
            DictionaryFile::HanjaChar,
        ),
        hanja_char is Some && dueum is None ==> r == Err::<(CharTable, CharTable, WordTable), _>(
            DictionaryFile::Dueum,
        ),
        hanja_char is Some && dueum is Some && hanja_word is None ==> r == Err::<
            (CharTable, CharTable, WordTable),
            _,
        >(DictionaryFile::HanjaWord),
        r is Ok <==> (hanja_char is Some && dueum is Some && hanja_word is Some),
        r matches Ok(t) ==> {
            &&& t.0@ == char_table_spec(hanja_char->0@)
            &&& t.1@ == char_table_spec(dueum->0@)
            &&& t.2@ == word_table_spec(hanja_word->0@)
        },
{
    let char_dic = match hanja_char {
        Some(text) => generate_dic_char(text),
        None => return Err(DictionaryFile::HanjaChar),
    };
    let dueum_dic = match dueum {
        Some(text) => generate_dic_char(text),
        None => return Err(DictionaryFile::Dueum),
    };
    let word_dic = match hanja_word {
        Some(text) => generate_dic_str(text),
        None => return Err(DictionaryFile::HanjaWord),
    };
    Ok((char_dic, dueum_dic, word_dic))
}

/// The pieces of `v` between occurrences of `sep`.
fn split(v: &Vec<char>, sep: char) -> (r: Vec<Vec<char>>)
    ensures
        r@.map_values(|x: Vec<char>| x@) == split_spec(v@, sep),
{
    let mut out: Vec<Vec<char>> = Vec::new();
    let mut cur: Vec<char> = Vec::new();
    let mut i: usize = 0;
    while i < v.len()
        invariant
            i <= v.len(),
            out@.map_values(|x: Vec<char>| x@).push(cur@) == split_spec(v@.take(i as int), sep),
        decreases v.len() - i,
    {
        let ghost prev = out@.map_values(|x: Vec<char>| x@).push(cur@);
        assert(v@.take(i + 1).drop_last() == v@.take(i as int));
        assert(v@.take(i + 1).last() == v@[i as int]);
        if v[i] == sep {
            out.push(cur);
            cur = Vec::new();
            assert(out@.map_values(|x: Vec<char>| x@).push(cur@) == prev.push(Seq::empty()));
        } else {
            cur.push(v[i]);
            assert(out@.map_values(|x: Vec<char>| x@).push(cur@) == prev.update(
                prev.len() - 1,
                prev.last().push(v@[i as int]),
            ));
        }
        i = i + 1;
    }
    out.push(cur);
    assert(v@.take(v.len() as int) == v@);
    out
}

/// `v` without leading and trailing white space.
fn trim(v: &Vec<char>) -> (r: Vec<char>)
    ensures
        r@ == trim_spec(v@),
{
    let n = v.len();
    let mut a: usize = 0;
    assert(v@.subrange(0, n as int) == v@);
    while a < n && is_white_space(v[a])
        invariant
            n == v.len(),
            a <= n,
            trim_start_spec(v@.subrange(a as int, n as int)) == trim_start_spec(v@),
        decreases n - a,
    {
        assert(v@.subrange(a as int, n as int).drop_first() == v@.subrange(a + 1, n as int));
        a = a + 1;
    }
    let mut b: usize = n;
    while b > a && is_white_space(v[b - 1])
        invariant
            n == v.len(),
            a <= b <= n,
            trim_end_spec(v@.subrange(a as int, b as int)) == trim_end_spec(
                v@.subrange(a as int, n as int),
            ),
        decreases b,
    {
        assert(v@.subrange(a as int, b as int).drop_last() == v@.subrange(a as int, b - 1));
        b = b - 1;
    }
    let mut r: Vec<char> = Vec::new();
    let mut k: usize = a;
    while k < b
        invariant
            a <= k <= b <= n,
            n == v.len(),
            r@ == v@.subrange(a as int, k as int),
        decreases b - k,
    {
        r.push(v[k]);
        k = k + 1;
    }
    r
}

} // verus!
