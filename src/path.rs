use vstd::prelude::*;

use crate::text::{chars_of, string_of};

verus! {

/// The text inserted into a file name to name its converted copy.
pub open spec fn converted_suffix() -> Seq<char> {
    seq!['(', '한', '글', '화', ')']
}

/// Where the final extension of the file name `p` starts: the index of its last
/// `.` that no path separator follows, or -1 where there is none.
pub open spec fn extension_start(p: Seq<char>) -> int
    decreases p.len(),
{
    if p.len() == 0 {
        -1
    } else if p.last() == '.' {
        p.len() - 1
    } else if p.last() == '/' || p.last() == '\\' {
        -1
    } else {
        extension_start(p.drop_last())
    }
}

proof fn lemma_extension_start_bounds(p: Seq<char>)
    ensures
        -1 <= extension_start(p) < p.len(),
    decreases p.len(),
{
    if p.len() > 0 {
        lemma_extension_start_bounds(p.drop_last());
    }
}

/// The name of the converted copy of the file `p`: the suffix stands before the
/// final extension, or at the end where there is no extension.
pub open spec fn new_file_path_spec(p: Seq<char>) -> Seq<char> {
    let d = extension_start(p);
    if d >= 0 {
        p.take(d) + converted_suffix() + p.skip(d)
    } else {
        p + converted_suffix()
    }
}

/// Derives the name of the converted copy of `file_path`:
/// `hello.txt` becomes `hello(한글화).txt`.
pub fn get_new_file_path(file_path: &str) -> (r: String)
    ensures
        r@ == new_file_path_spec(file_path@),
{
    let p = chars_of(file_path);
    let ghost ps = p@;
    let n = p.len();
    let mut j: usize = n;
    assert(ps.take(n as int) == ps);
    while j > 0 && p[j - 1] != '.' && p[j - 1] != '/' && p[j - 1] != '\\'
        invariant
            j <= n,
            n == p.len(),
            ps == p@,
            extension_start(ps.take(j as int)) == extension_start(ps),
        decreases j,
    {
        assert(ps.take(j as int).drop_last() == ps.take(j - 1));
        j = j - 1;
    }
    let has_ext = j > 0 && p[j - 1] == '.';
    let cut: usize = if has_ext {
        j - 1
    } else {
        n
    };
    proof {
        lemma_extension_start_bounds(ps);
        if has_ext {
            assert(extension_start(ps) == j - 1);
        } else {
            assert(extension_start(ps) == -1);
        }
    }
    let suffix = chars_of("(한글화)");
    proof {
        reveal_strlit("(한글화)");
    }
    let mut out: Vec<char> = Vec::new();
    let mut k: usize = 0;
    while k < cut
        invariant
            k <= cut <= n,
            n == p.len(),
            ps == p@,
            out@ == ps.take(k as int),
        decreases cut - k,
    {
        out.push(p[k]);
        k = k + 1;
    }
    let mut m: usize = 0;
    while m < suffix.len()
        invariant
            m <= suffix.len(),
            out@ == ps.take(cut as int) + suffix@.take(m as int),
        decreases suffix.len() - m,
    {
        out.push(suffix[m]);
        m = m + 1;
    }
    assert(suffix@.take(suffix.len() as int) == suffix@);
    while k < n
        invariant
            cut <= k <= n,
            n == p.len(),
            ps == p@,
            out@ == ps.take(cut as int) + suffix@ + ps.subrange(cut as int, k as int),
        decreases n - k,
    {
        out.push(p[k]);
        k = k + 1;
    }
    assert(ps.subrange(cut as int, n as int) == ps.skip(cut as int));
    string_of(&out)
}

} // verus!
