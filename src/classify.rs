use vstd::prelude::*;

verus! {

/// First code point of the Hangul syllables block.
pub const KO_START: u32 = 44032;
/// Last code point of the Hangul syllables block.
pub const KO_END: u32 = 55203;

/// CJK Unified Ideographs Extension A.
pub const CHI_S1: u32 = 13312;
pub const CHI_E1: u32 = 19903;

/// CJK Unified Ideographs.
pub const CHI_S2: u32 = 19968;
pub const CHI_E2: u32 = 40959;

/// CJK Compatibility Ideographs, first part.
pub const CHI_S3: u32 = 63744;
pub const CHI_E3: u32 = 64045;

/// CJK Compatibility Ideographs, second part.
pub const CHI_S4: u32 = 64048;
pub const CHI_E4: u32 = 64109;

/// A code point inside one of the four Hanja blocks.
pub open spec fn spec_is_hanja(c: char) -> bool {
    let n = c as u32;
    (CHI_S1 <= n <= CHI_E1) || (CHI_S2 <= n <= CHI_E2) || (CHI_S3 <= n <= CHI_E3) || (CHI_S4
        <= n <= CHI_E4)
}

/// A code point inside the Hangul syllables block.
pub open spec fn spec_is_hangul(c: char) -> bool {
    KO_START <= c as u32 <= KO_END
}

/// A character that continues Korean text: a Hangul syllable or a Hanja.
pub open spec fn spec_is_kor_or_chi(c: char) -> bool {
    spec_is_hangul(c) || spec_is_hanja(c)
}

/// Whether `c` is a Hanja character.
pub fn is_chi(c: &char) -> (r: bool)
    ensures
        r == spec_is_hanja(*c),
{
    let n = *c as u32;
    (CHI_S1 <= n && n <= CHI_E1) || (CHI_S2 <= n && n <= CHI_E2) || (CHI_S3 <= n && n <= CHI_E3)
        || (CHI_S4 <= n && n <= CHI_E4)
}

/// Whether `c` is a Hangul syllable or a Hanja character.
pub fn is_kor_or_chi(c: &char) -> (r: bool)
    ensures
        r == spec_is_kor_or_chi(*c),
{
    let n = *c as u32;
    (KO_START <= n && n <= KO_END) || is_chi(c)
}

} // verus!
