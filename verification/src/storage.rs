//! Paths and names for the on-disk layout store. Reading and writing the
//! files is host work; which file a layout lives in, how a layout's name is
//! made safe for the filesystem, and how timestamps are rendered is decided
//! here.

use vstd::prelude::*;
use crate::text::{char_is_alphanumeric, is_alnum, str_eq};

verus! {

/// A character as the filename sanitizer leaves it: alphanumeric characters,
/// dashes, underscores and spaces stay; everything else becomes an
/// underscore.
pub open spec fn sanitized_char(c: char) -> char {
    if is_alnum(c) || c == '-' || c == '_' || c == ' ' {
        c
    } else {
        '_'
    }
}

/// A name after sanitizing, character for character.
pub open spec fn sanitized(s: Seq<char>) -> Seq<char> {
    s.map_values(|c: char| sanitized_char(c))
}

/// Sanitize a layout name to be safe for the filesystem.
pub fn sanitize_filename(name: &str) -> (safe: String)
    ensures
        safe@ == sanitized(name@),
{
    let n = name.unicode_len();
    let mut out = String::new();
    let mut i: usize = 0;
    while i < n
        invariant
            i <= n,
            n == name@.len(),
            out@.len() == i,
            forall|j: int| 0 <= j < i ==> out@[j] == sanitized_char(name@[j]),
        decreases n - i,
    {
        let c = name.get_char(i);
        if char_is_alphanumeric(c) || c == '-' || c == '_' || c == ' ' {
            let piece = name.substring_char(i, i + 1);
            proof {
                assert(piece@ =~= seq![name@[i as int]]);
            }
            out.append(piece);
        } else {
            proof {
                reveal_strlit("_");
                assert("_"@ =~= seq!['_']);
            }
            out.append("_");
        }
        i = i + 1;
    }
    proof {
        assert(out@ =~= sanitized(name@));
    }
    out
}

/// The character for one decimal digit.
pub open spec fn digit_char(d: int) -> char {
    if d == 0 {
        '0'
    } else if d == 1 {
        '1'
    } else if d == 2 {
        '2'
    } else if d == 3 {
        '3'
    } else if d == 4 {
        '4'
    } else if d == 5 {
        '5'
    } else if d == 6 {
        '6'
    } else if d == 7 {
        '7'
    } else if d == 8 {
        '8'
    } else {
        '9'
    }
}

/// A number written in decimal, most significant digit first, no sign and no
/// leading zeroes.
pub open spec fn spec_decimal(n: int) -> Seq<char>
    recommends
        n >= 0,
    decreases n,
{
    if n < 10 {
        seq![digit_char(n)]
    } else {
        spec_decimal(n / 10).push(digit_char(n % 10))
    }
}

/// One decimal digit as a string.
fn digit_str(d: u64) -> (s: &'static str)
    requires
        d < 10,
    ensures
        s@ == seq![digit_char(d as int)],
{
    proof {
        reveal_strlit("0");
        reveal_strlit("1");
        reveal_strlit("2");
        reveal_strlit("3");
        reveal_strlit("4");
        reveal_strlit("5");
        reveal_strlit("6");
        reveal_strlit("7");
        reveal_strlit("8");
        reveal_strlit("9");
    }
    let s = if d == 0 {
        "0"
    } else if d == 1 {
        "1"
    } else if d == 2 {
        "2"
    } else if d == 3 {
        "3"
    } else if d == 4 {
        "4"
    } else if d == 5 {
        "5"
    } else if d == 6 {
        "6"
    } else if d == 7 {
        "7"
    } else if d == 8 {
        "8"
    } else {
        "9"
    };
    proof {
        assert(s@ =~= seq![digit_char(d as int)]);
    }
    s
}

/// Render a timestamp, given as whole seconds, as its decimal digits.
pub fn timestamp_string(secs: u64) -> (text: String)
    ensures
        text@ == spec_decimal(secs as int),
    decreases secs,
{
    if secs < 10 {
        let mut out = String::new();
        out.append(digit_str(secs));
        proof {
            assert(out@ =~= spec_decimal(secs as int));
        }
        out
    } else {
        let mut out = timestamp_string(secs / 10);
        out.append(digit_str(secs % 10));
        proof {
            assert(out@ =~= spec_decimal(secs as int));
        }
        out
    }
}

/// The layout name a directory entry stands for: the file name without its
/// `.json` ending, or nothing when the ending differs.
pub fn layout_stem(file_name: &str) -> (stem: Option<String>)
    ensures
        match stem {
            Some(s) => file_name@.len() >= 5 && file_name@.subrange(
                file_name@.len() - 5,
                file_name@.len() as int,
            ) == ".json"@ && s@ == file_name@.take(file_name@.len() - 5),
            None => !(file_name@.len() >= 5 && file_name@.subrange(
                file_name@.len() - 5,
                file_name@.len() as int,
            ) == ".json"@),
        },
{
    let n = file_name.unicode_len();
    if n < 5 {
        return None;
    }
    let ending = file_name.substring_char(n - 5, n);
    if str_eq(ending, ".json") {
        Some(file_name.substring_char(0, n - 5).to_owned())
    } else {
        None
    }
}

/// File storage for layouts and configuration, rooted at a data directory
/// the host chose.
pub struct Storage {
    data_dir: String,
}

impl Storage {
    /// The directory all paths are rooted at.
    pub closed spec fn spec_data_dir(&self) -> Seq<char> {
        self.data_dir@
    }

    /// A storage rooted at the given data directory.
    pub fn from_dir(data_dir: String) -> (storage: Storage)
        ensures
            storage.spec_data_dir() == data_dir@,
    {
        Storage { data_dir }
    }

    /// The directory all paths are rooted at.
    pub fn data_dir(&self) -> (dir: &str)
        ensures
            dir@ == self.spec_data_dir(),
    {
        self.data_dir.as_str()
    }

    /// Get the auto-save path.
    pub fn autosave_path(&self) -> (path: String)
        ensures
            path@ == self.spec_data_dir() + "/autosave.json"@,
    {
        self.data_dir.clone().concat("/autosave.json")
    }

    /// The directory that holds the named layouts.
    pub fn layouts_dir(&self) -> (path: String)
        ensures
            path@ == self.spec_data_dir() + "/layouts"@,
    {
        self.data_dir.clone().concat("/layouts")
    }

    /// The file a named layout is stored in, under the layouts directory and
    /// with its name sanitized.
    pub fn layout_path(&self, name: &str) -> (path: String)
        ensures
            path@ == self.spec_data_dir() + "/layouts/"@ + sanitized(name@) + ".json"@,
    {
        let mut path = self.data_dir.clone();
        path.append("/layouts/");
        let safe = sanitize_filename(name);
        path.append(safe.as_str());
        path.append(".json");
        path
    }
}

} // verus!
