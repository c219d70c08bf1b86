use vstd::prelude::*;

use crate::classify::{is_chi, is_kor_or_chi, spec_is_hangul, spec_is_hanja, spec_is_kor_or_chi};
use crate::table::{CharTable, WordTable};
use crate::text::{chars_of, string_of};

verus! {

/// The end of the run of Hanja characters that starts at `i`: the first index at
/// or after `i` that holds no Hanja, or the length of `s`.
pub open spec fn run_end(s: Seq<char>, i: int) -> int
    decreases s.len() - i,
{
    if 0 <= i < s.len() && spec_is_hanja(s[i]) {
        run_end(s, i + 1)
    } else {
        i
    }
}

proof fn lemma_run_end_bounds(s: Seq<char>, i: int)
    requires
        0 <= i <= s.len(),
    ensures
        i <= run_end(s, i) <= s.len(),
        forall|k: int| i <= k < run_end(s, i) ==> spec_is_hanja(#[trigger] s[k]),
        run_end(s, i) < s.len() ==> !spec_is_hanja(s[run_end(s, i)]),
    decreases s.len() - i,
{
    if i < s.len() && spec_is_hanja(s[i]) {
        lemma_run_end_bounds(s, i + 1);
    }
}

/// The character written for position `i` when it is converted on its own, and
/// whether a table supplied it. Only a Hanja is converted: it is read through
/// `base`, and that reading is corrected through `corr` when Hangul or Hanja
/// follows it.
pub open spec fn char_step(s: Seq<char>, i: int, base: Map<char, char>, corr: Map<char, char>) -> (
    char,
    bool,
) {
    let c = s[i];
    if !spec_is_hanja(c) {
        (c, false)
    } else {
        let mapped = if base.contains_key(c) {
            base[c]
        } else {
            c
        };
        if i + 1 < s.len() && spec_is_kor_or_chi(s[i + 1]) && corr.contains_key(mapped) {
            (corr[mapped], true)
        } else {
            (mapped, base.contains_key(c))
        }
    }
}

/// Whether a word of `words` replaces the Hanja run that starts at `i`.
pub open spec fn word_hit(s: Seq<char>, i: int, words: Map<Seq<char>, Seq<char>>) -> bool {
    run_end(s, i) > i && words.contains_key(s.subrange(i, run_end(s, i)))
}

/// The text produced from position `i` of `s` onward, and whether anything was
/// converted there.
pub open spec fn convert_from(
    s: Seq<char>,
    i: int,
    base: Map<char, char>,
    corr: Map<char, char>,
    words: Map<Seq<char>, Seq<char>>,
) -> (Seq<char>, bool)
    decreases s.len() - i,
    via convert_from_decreases
{
    if i < 0 || i >= s.len() {
        (Seq::empty(), false)
    } else if word_hit(s, i, words) {
        let rest = convert_from(s, run_end(s, i), base, corr, words);
        (words[s.subrange(i, run_end(s, i))] + rest.0, true)
    } else {
        let rest = convert_from(s, i + 1, base, corr, words);
        let step = char_step(s, i, base, corr);
        (seq![step.0] + rest.0, step.1 || rest.1)
    }
}

#[via_fn]
proof fn convert_from_decreases(
    s: Seq<char>,
    i: int,
    base: Map<char, char>,
    corr: Map<char, char>,
    words: Map<Seq<char>, Seq<char>>,
) {
    if 0 <= i < s.len() {
        lemma_run_end_bounds(s, i);
    }
}

/// The converted text of `s` and whether anything was converted.
pub open spec fn convert_spec(
    s: Seq<char>,
    base: Map<char, char>,
    corr: Map<char, char>,
    words: Map<Seq<char>, Seq<char>>,
) -> (Seq<char>, bool) {
    convert_from(s, 0, base, corr, words)
}

/// How many characters from position `i` onward are converted one by one,
/// rather than as part of a replaced word.
pub open spec fn single_count(s: Seq<char>, i: int, words: Map<Seq<char>, Seq<char>>) -> nat
    decreases s.len() - i,
    via single_count_decreases
{
    if i < 0 || i >= s.len() {
        0
    } else if word_hit(s, i, words) {
        single_count(s, run_end(s, i), words)
    } else {
        1 + single_count(s, i + 1, words)
    }
}

#[via_fn]
proof fn single_count_decreases(s: Seq<char>, i: int, words: Map<Seq<char>, Seq<char>>) {
    if 0 <= i < s.len() {
        lemma_run_end_bounds(s, i);
    }
}

/// Text without Hanja comes back as it was, and unchanged.
pub proof fn lemma_no_hanja_unchanged(
    s: Seq<char>,
    base: Map<char, char>,
    corr: Map<char, char>,
    words: Map<Seq<char>, Seq<char>>,
)
    requires
        forall|k: int| 0 <= k < s.len() ==> !spec_is_hanja(#[trigger] s[k]),
    ensures
        convert_spec(s, base, corr, words) == (s, false),
{
    lemma_no_hanja_from(s, 0, base, corr, words);
    assert(s.subrange(0, s.len() as int) == s);
}

proof fn lemma_no_hanja_from(
    s: Seq<char>,
    i: int,
    base: Map<char, char>,
    corr: Map<char, char>,
    words: Map<Seq<char>, Seq<char>>,
)
    requires
        0 <= i <= s.len(),
        forall|k: int| 0 <= k < s.len() ==> !spec_is_hanja(#[trigger] s[k]),
    ensures
        convert_from(s, i, base, corr, words) == (s.subrange(i, s.len() as int), false),
    decreases s.len() - i,
{
    if i < s.len() {
        lemma_no_hanja_from(s, i + 1, base, corr, words);
        assert(seq![s[i]] + s.subrange(i + 1, s.len() as int) == s.subrange(i, s.len() as int));
    }
}

/// Text made of Hangul syllables alone comes back unchanged.
pub proof fn lemma_hangul_text_unchanged(
    s: Seq<char>,
    base: Map<char, char>,
    corr: Map<char, char>,
    words: Map<Seq<char>, Seq<char>>,
)
    requires
        forall|k: int| 0 <= k < s.len() ==> spec_is_hangul(#[trigger] s[k]),
    ensures
        !convert_spec(s, base, corr, words).1,
        convert_spec(s, base, corr, words).0 == s,
{
    assert forall|k: int| 0 <= k < s.len() implies !spec_is_hanja(#[trigger] s[k]) by {
        assert(spec_is_hangul(s[k]));
    }
    lemma_no_hanja_unchanged(s, base, corr, words);
}

/// Text holding a Hanja that `base` knows is reported changed, and the result
/// has at least one character for each character converted one by one.
pub proof fn lemma_known_hanja_changed(
    s: Seq<char>,
    base: Map<char, char>,
    corr: Map<char, char>,
    words: Map<Seq<char>, Seq<char>>,
    k: int,
)
    requires
        0 <= k < s.len(),
        spec_is_hanja(s[k]),
        base.contains_key(s[k]),
    ensures
        convert_spec(s, base, corr, words).1,
        convert_spec(s, base, corr, words).0.len() >= single_count(s, 0, words),
{
    lemma_known_hanja_from(s, 0, base, corr, words, k);
    lemma_length_from(s, 0, base, corr, words);
}

proof fn lemma_known_hanja_from(
    s: Seq<char>,
    i: int,
    base: Map<char, char>,
    corr: Map<char, char>,
    words: Map<Seq<char>, Seq<char>>,
    k: int,
)
    requires
        0 <= i <= k < s.len(),
        spec_is_hanja(s[k]),
        base.contains_key(s[k]),
    ensures
        convert_from(s, i, base, corr, words).1,
    decreases s.len() - i,
{
    if !word_hit(s, i, words) && i < k {
        lemma_known_hanja_from(s, i + 1, base, corr, words, k);
    }
}

proof fn lemma_length_from(
    s: Seq<char>,
    i: int,
    base: Map<char, char>,
    corr: Map<char, char>,
    words: Map<Seq<char>, Seq<char>>,
)
    requires
        0 <= i <= s.len(),
    ensures
        convert_from(s, i, base, corr, words).0.len() >= single_count(s, i, words),
    decreases s.len() - i,
{
    if i < s.len() {
        lemma_run_end_bounds(s, i);
        if word_hit(s, i, words) {
            lemma_length_from(s, run_end(s, i), base, corr, words);
        } else {
            lemma_length_from(s, i + 1, base, corr, words);
        }
    }
}

/// Converts the Hanja in `input_str` to Hangul. Each maximal run of Hanja that
/// `word_dic` holds is replaced whole; any other Hanja is read through
/// `char_dic`, and that reading is corrected through `dueum_dic` when Hangul or
/// Hanja follows it. Returns `None` when no table supplied anything.
pub fn chi2kor_str(
    input_str: &str,
    char_dic: &CharTable,
    dueum_dic: &CharTable,
    word_dic: &WordTable,
) -> (r: Option<String>)
    ensures
        match r {
            Some(t) => convert_spec(input_str@, char_dic@, dueum_dic@, word_dic@).1 && t@
                == convert_spec(input_str@, char_dic@, dueum_dic@, word_dic@).0,
            None => !convert_spec(input_str@, char_dic@, dueum_dic@, word_dic@).1,
        },
{
    let chars = chars_of(input_str);
    let n = chars.len();
    let ghost s = chars@;
    let ghost base = char_dic@;
    let ghost corr = dueum_dic@;
    let ghost words = word_dic@;
    let ghost whole = convert_from(s, 0, base, corr, words);
    let mut out: Vec<char> = Vec::new();
    let mut changed = false;
    let mut i: usize = 0;
    while i < n
        invariant
            n == chars.len(),
            s == chars@,
            base == char_dic@,
            corr == dueum_dic@,
            words == word_dic@,
            whole == convert_from(s, 0, base, corr, words),
            i <= n,
            out@ + convert_from(s, i as int, base, corr, words).0 == whole.0,
            (changed || convert_from(s, i as int, base, corr, words).1) == whole.1,
        decreases n - i,
    {
        proof {
            lemma_run_end_bounds(s, i as int);
        }
        let mut j: usize = i;
        while j < n && is_chi(&chars[j])
            invariant
                n == chars.len(),
                s == chars@,
                i <= j <= n,
                i < n,
                run_end(s, i as int) == run_end(s, j as int),
            decreases n - j,
        {
            j = j + 1;
        }
        if j > i {
            match word_dic.lookup(&chars, i, j) {
                Some(v) => {
                    let ghost before = out@;
                    let mut k: usize = 0;
                    while k < v.len()
                        invariant
                            k <= v.len(),
                            out@ == before + v@.take(k as int),
                        decreases v.len() - k,
                    {
                        out.push(v[k]);
                        k = k + 1;
                    }
                    assert(v@.take(v.len() as int) == v@);
                    assert(out@ + convert_from(s, j as int, base, corr, words).0 == before + (v@
                        + convert_from(s, j as int, base, corr, words).0));
                    changed = true;
                    i = j;
                    continue;
                },
                None => {},
            }
        }
        let c = chars[i];
        let mut new_c = c;
        if is_chi(&c) {
            match char_dic.get(&c) {
                Some(v) => {
                    new_c = v;
                    changed = true;
                },
                None => {},
            }
            if i + 1 < n && is_kor_or_chi(&chars[i + 1]) {
                match dueum_dic.get(&new_c) {
                    Some(v) => {
                        new_c = v;
                        changed = true;
                    },
                    None => {},
                }
            }
        }
        let ghost before = out@;
        out.push(new_c);
        assert(out@ + convert_from(s, i + 1, base, corr, words).0 == before + (seq![new_c]
            + convert_from(s, i + 1, base, corr, words).0));
        i = i + 1;
    }
    assert(out@ + convert_from(s, n as int, base, corr, words).0 == out@);
    if !changed {
        return None;
    }
    Some(string_of(&out))
}

} // verus!
