use std::collections::HashMap;
use vstd::prelude::*;

use crate::text::chars_of;

verus! {

broadcast use vstd::std_specs::hash::group_hash_axioms;

/// Two characters with one code point are one character.
proof fn lemma_code_point_injective(a: char, b: char)
    requires
        a as u32 == b as u32,
    ensures
        a == b,
{
}

/// A table from characters to characters, keyed by code point.
pub struct CharTable {
    map: HashMap<u32, char>,
}

impl View for CharTable {
    type V = Map<char, char>;

    closed spec fn view(&self) -> Map<char, char> {
        Map::new(|c: char| self.map@.contains_key(c as u32), |c: char| self.map@[c as u32])
    }
}

impl CharTable {
    /// An empty table.
    pub fn new() -> (r: CharTable)
        ensures
            r@ == Map::<char, char>::empty(),
    {
        let r = CharTable { map: HashMap::new() };
        assert(r@ =~= Map::<char, char>::empty());
        r
    }

    /// Maps `key` to `value`, replacing what `key` mapped to before.
    pub fn insert(&mut self, key: char, value: char)
        ensures
            final(self)@ == old(self)@.insert(key, value),
    {
        self.map.insert(key as u32, value);
        let ghost m = old(self)@.insert(key, value);
        assert forall|c: char| #[trigger] self@.contains_key(c) == m.contains_key(c) && (
        self@.contains_key(c) ==> self@[c] == m[c]) by {
            if c as u32 == key as u32 {
                lemma_code_point_injective(c, key);
            }
        }
        assert(self@ =~= m);
    }

    /// What `key` maps to, if anything.
    pub fn get(&self, key: &char) -> (r: Option<char>)
        ensures
            r == (if self@.contains_key(*key) {
                Some(self@[*key])
            } else {
                None::<char>
            }),
    {
        match self.map.get(&(*key as u32)) {
            Some(v) => Some(*v),
            None => None,
        }
    }
}

/// The map that the first `n` entries of a word table describe: a later entry
/// replaces an earlier one with the same key.
pub open spec fn entries_map(keys: Seq<Seq<char>>, values: Seq<Seq<char>>, n: int) -> Map<
    Seq<char>,
    Seq<char>,
>
    decreases n,
{
    if n <= 0 {
        Map::empty()
    } else {
        entries_map(keys, values, n - 1).insert(keys[n - 1], values[n - 1])
    }
}

/// A table from words to words. Entries are kept in the order they were made;
/// the last entry for a key is the one that counts.
pub struct WordTable {
    entries: Vec<(Vec<char>, Vec<char>)>,
}

impl WordTable {
    closed spec fn key_seqs(&self) -> Seq<Seq<char>> {
        self.entries@.map_values(|e: (Vec<char>, Vec<char>)| e.0@)
    }

    closed spec fn value_seqs(&self) -> Seq<Seq<char>> {
        self.entries@.map_values(|e: (Vec<char>, Vec<char>)| e.1@)
    }
}

impl View for WordTable {
    type V = Map<Seq<char>, Seq<char>>;

    closed spec fn view(&self) -> Map<Seq<char>, Seq<char>> {
        entries_map(self.key_seqs(), self.value_seqs(), self.entries.len() as int)
    }
}

/// Entries at or after `m` do not hold `k`, so the first `m` entries decide it.
proof fn lemma_entries_unmatched(
    keys: Seq<Seq<char>>,
    values: Seq<Seq<char>>,
    m: int,
    n: int,
    k: Seq<char>,
)
    requires
        0 <= m <= n <= keys.len(),
        forall|j: int| m <= j < n ==> keys[j] != k,
    ensures
        entries_map(keys, values, n).contains_key(k) == entries_map(keys, values, m).contains_key(
            k,
        ),
        entries_map(keys, values, n)[k] == entries_map(keys, values, m)[k],
    decreases n - m,
{
    if n > m {
        lemma_entries_unmatched(keys, values, m, n - 1, k);
    }
}

impl WordTable {
    /// An empty table.
    pub fn new() -> (r: WordTable)
        ensures
            r@ == Map::<Seq<char>, Seq<char>>::empty(),
    {
        WordTable { entries: Vec::new() }
    }

    /// Maps `key` to `value`, replacing what `key` mapped to before.
    pub fn insert(&mut self, key: &str, value: &str)
        ensures
            final(self)@ == old(self)@.insert(key@, value@),
    {
        self.insert_chars(chars_of(key), chars_of(value));
    }

    /// Maps the word `key` to `value`, replacing what `key` mapped to before.
    pub(crate) fn insert_chars(&mut self, key: Vec<char>, value: Vec<char>)
        ensures
            final(self)@ == old(self)@.insert(key@, value@),
    {
        let ghost n = self.entries.len() as int;
        let ghost k = key@;
        let ghost v = value@;
        self.entries.push((key, value));
        assert(self.key_seqs().take(n) == old(self).key_seqs());
        assert(self.value_seqs().take(n) == old(self).value_seqs());
        assert(self.key_seqs()[n] == k);
        assert(self.value_seqs()[n] == v);
        assert forall|m: int| 0 <= m <= n implies entries_map(
            self.key_seqs(),
            self.value_seqs(),
            m,
        ) == entries_map(old(self).key_seqs(), old(self).value_seqs(), m) by {
            lemma_entries_prefix(
                self.key_seqs(),
                self.value_seqs(),
                old(self).key_seqs(),
                old(self).value_seqs(),
                m,
            );
        }
    }

    /// What the word `s[lo..hi]` maps to, if anything.
    pub fn lookup(&self, s: &Vec<char>, lo: usize, hi: usize) -> (r: Option<&Vec<char>>)
        requires
            lo <= hi <= s.len(),
        ensures
            ({
                let w = s@.subrange(lo as int, hi as int);
                match r {
                    Some(v) => self@.contains_key(w) && v@ == self@[w],
                    None => !self@.contains_key(w),
                }
            }),
    {
        let ghost w = s@.subrange(lo as int, hi as int);
        let mut j: usize = self.entries.len();
        while j > 0
            invariant
                lo <= hi <= s.len(),
                w == s@.subrange(lo as int, hi as int),
                j <= self.entries.len(),
                forall|m: int| j <= m < self.entries.len() ==> self.key_seqs()[m] != w,
            decreases j,
        {
            j = j - 1;
            if same_word(&self.entries[j].0, s, lo, hi) {
                proof {
                    let ks = self.key_seqs();
                    let vs = self.value_seqs();
                    lemma_entries_unmatched(ks, vs, j + 1, self.entries.len() as int, w);
                    assert(ks[j as int] == w);
                    assert(entries_map(ks, vs, j + 1) == entries_map(ks, vs, j as int).insert(
                        ks[j as int],
                        vs[j as int],
                    ));
                }
                return Some(&self.entries[j].1);
            }
        }
        proof {
            lemma_entries_unmatched(self.key_seqs(), self.value_seqs(), 0, self.entries.len() as int, w);
        }
        None
    }
}

/// Maps built from two entry lists that agree on their first `m` entries agree.
proof fn lemma_entries_prefix(
    k1: Seq<Seq<char>>,
    v1: Seq<Seq<char>>,
    k2: Seq<Seq<char>>,
    v2: Seq<Seq<char>>,
    m: int,
)
    requires
        0 <= m <= k1.len(),
        m <= k2.len(),
        m <= v1.len(),
        m <= v2.len(),
        forall|j: int| 0 <= j < m ==> k1[j] == k2[j] && v1[j] == v2[j],
    ensures
        entries_map(k1, v1, m) == entries_map(k2, v2, m),
    decreases m,
{
    if m > 0 {
        lemma_entries_prefix(k1, v1, k2, v2, m - 1);
    }
}

/// Whether `k` holds the same characters as `s[lo..hi]`.
fn same_word(k: &Vec<char>, s: &Vec<char>, lo: usize, hi: usize) -> (r: bool)
    requires
        lo <= hi <= s.len(),
    ensures
        r == (k@ == s@.subrange(lo as int, hi as int)),
{
    if k.len() != hi - lo {
        return false;
    }
    let mut i: usize = 0;
    while i < k.len()
        invariant
            k.len() == hi - lo,
            lo <= hi <= s.len(),
            i <= k.len(),
            forall|m: int| 0 <= m < i ==> k@[m] == s@[lo + m],
        decreases k.len() - i,
    {
        if k[i] != s[lo + i] {
            return false;
        }
        i = i + 1;
    }
    assert(k@ =~= s@.subrange(lo as int, hi as int));
    true
}

} // verus!
