//! Conversion of Hanja (Han characters) in Korean text to Hangul.
//!
//! A conversion reads three tables: readings of single Hanja, initial-sound
//! corrections of Hangul syllables, and irregular readings of whole Hanja
//! words. The tables are built from plain `key,value` definition texts.
use vstd::prelude::*;

pub mod classify;
pub mod convert;
pub mod dictionary;
pub mod path;
pub mod table;
pub mod text;

pub use classify::{is_chi, is_kor_or_chi};
pub use convert::chi2kor_str;
pub use dictionary::{generate_dic_char, generate_dic_str, load_dictionary, DictionaryFile};
pub use path::get_new_file_path;
pub use table::{CharTable, WordTable};

verus! {

} // verus!
