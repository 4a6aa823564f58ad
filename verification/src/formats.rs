use vstd::prelude::*;

verus! {

/// The closed set of supported input formats; each maps to exactly one
/// decode backend.
#[derive(Clone, Copy, Debug, PartialEq, Eq, Structural)]
pub enum FormatTag {
    Arw,
    Cr2,
    Raf,
    Jpg,
}

/// The index of the last occurrence of `c` in `s`, or -1 if `c` does not
/// occur at all.
pub open spec fn last_index_of_char(s: Seq<char>, c: char) -> int
    decreases s.len(),
{
    if s.len() == 0 {
        -1
    } else if s.last() == c {
        s.len() - 1
    } else {
        last_index_of_char(s.drop_last(), c)
    }
}

pub proof fn lemma_last_index_of_char_in_range(s: Seq<char>, c: char)
    ensures
        -1 <= last_index_of_char(s, c) < s.len(),
        last_index_of_char(s, c) >= 0 ==> s[last_index_of_char(s, c)] == c,
    decreases s.len(),
{
    if s.len() > 0 && s.last() != c {
        lemma_last_index_of_char_in_range(s.drop_last(), c);
    }
}

/// An occurrence with no later occurrence is the last one.
pub proof fn lemma_last_index_of_char_unique(s: Seq<char>, c: char, j: int)
    requires
        0 <= j < s.len(),
        s[j] == c,
        forall|k: int| j < k < s.len() ==> s[k] != c,
    ensures
        last_index_of_char(s, c) == j,
    decreases s.len(),
{
    if j < s.len() - 1 {
        lemma_last_index_of_char_unique(s.drop_last(), c, j);
    }
}

/// With no occurrence at all, the last index is -1.
pub proof fn lemma_last_index_of_char_none(s: Seq<char>, c: char)
    requires
        forall|k: int| 0 <= k < s.len() ==> s[k] != c,
    ensures
        last_index_of_char(s, c) == -1,
    decreases s.len(),
{
    if s.len() > 0 {
        lemma_last_index_of_char_none(s.drop_last(), c);
    }
}

/// The index just past the last occurrence of `c`, or `None`.
fn last_index_of(s: &str, c: char) -> (r: Option<usize>)
    ensures
        match r {
            Some(j) => j == last_index_of_char(s@, c),
            None => last_index_of_char(s@, c) == -1,
        },
{
    let n: usize = s.unicode_len();
    let mut j: usize = n;
    while j > 0
        invariant
            j <= n,
            n == s@.len(),
            forall|k: int| j <= k < s@.len() ==> s@[k] != c,
        decreases j,
    {
        if s.get_char(j - 1) == c {
            proof {
                lemma_last_index_of_char_unique(s@, c, j - 1);
            }
            return Some(j - 1);
        }
        j = j - 1;
    }
    proof {
        lemma_last_index_of_char_none(s@, c);
    }
    None
}

/// The final path component: what follows the last `/` separator.
pub open spec fn file_name_spec(path: Seq<char>) -> Seq<char> {
    path.skip(last_index_of_char(path, '/') + 1)
}

/// The extension of the final path component: what follows its last `.`,
/// unless the component holds no `.` past its first character.
pub open spec fn extension_spec(path: Seq<char>) -> Option<Seq<char>> {
    let name = file_name_spec(path);
    let d = last_index_of_char(name, '.');
    if d <= 0 {
        None
    } else {
        Some(name.skip(d + 1))
    }
}

/// Returns the final path component, used as the display filename of a
/// thumbnail record.
pub fn file_name(path: &String) -> (r: String)
    ensures
        r@ == file_name_spec(path@),
{
    let s: &str = path.as_str();
    let n: usize = s.unicode_len();
    let start: usize = match last_index_of(s, '/') {
        Some(j) => {
            proof {
                lemma_last_index_of_char_in_range(s@, '/');
            }
            j + 1
        },
        None => 0,
    };
    s.substring_char(start, n).to_owned()
}

/// Returns the extension of the final path component, if it has one.
pub fn file_extension(path: &String) -> (r: Option<String>)
    ensures
        match r {
            Some(e) => extension_spec(path@) == Some(e@),
            None => extension_spec(path@) is None,
        },
{
    let name = file_name(path);
    let s: &str = name.as_str();
    let n: usize = s.unicode_len();
    match last_index_of(s, '.') {
        Some(d) => {
            if d == 0 {
                None
            } else {
                proof {
                    lemma_last_index_of_char_in_range(s@, '.');
                }
                Some(s.substring_char(d + 1, n).to_owned())
            }
        },
        None => None,
    }
}

/// ASCII lower-casing of one character; all others are unchanged.
pub open spec fn lower_char_spec(c: char) -> char {
    if 65 <= c as u32 <= 90 {
        (((c as u32) + 32) as u8) as char
    } else {
        c
    }
}

/// The character-wise ASCII lower-casing of a sequence.
pub open spec fn lower_seq(s: Seq<char>) -> Seq<char> {
    s.map_values(|c: char| lower_char_spec(c))
}

fn lower_char(c: char) -> (r: char)
    ensures
        r == lower_char_spec(c),
{
    let u: u32 = c as u32;
    if 65 <= u && u <= 90 {
        ((u + 32) as u8) as char
    } else {
        c
    }
}

/// The backend an extension selects, compared case-insensitively.
pub open spec fn format_of_ext(e: Seq<char>) -> Option<FormatTag> {
    let l = lower_seq(e);
    if l == "arw"@ {
        Some(FormatTag::Arw)
    } else if l == "cr2"@ {
        Some(FormatTag::Cr2)
    } else if l == "raf"@ {
        Some(FormatTag::Raf)
    } else if l == "jpg"@ {
        Some(FormatTag::Jpg)
    } else {
        None
    }
}

/// The backend a path selects through its extension, if any.
pub open spec fn format_spec(path: Seq<char>) -> Option<FormatTag> {
    match extension_spec(path) {
        Some(e) => format_of_ext(e),
        None => None,
    }
}

/// Maps an extension to its decode backend, case-insensitively.
pub fn format_of_extension(ext: &String) -> (r: Option<FormatTag>)
    ensures
        r == format_of_ext(ext@),
{
    proof {
        reveal_strlit("arw");
        reveal_strlit("cr2");
        reveal_strlit("raf");
        reveal_strlit("jpg");
    }
    let s: &str = ext.as_str();
    let n: usize = s.unicode_len();
    if n != 3 {
        proof {
            assert(lower_seq(ext@).len() == ext@.len());
        }
        return None;
    }
    let c0 = lower_char(s.get_char(0));
    let c1 = lower_char(s.get_char(1));
    let c2 = lower_char(s.get_char(2));
    proof {
        assert(lower_seq(ext@) =~= seq![c0, c1, c2]);
    }
    if c0 == 'a' && c1 == 'r' && c2 == 'w' {
        proof {
            assert(lower_seq(ext@) =~= "arw"@);
        }
        Some(FormatTag::Arw)
    } else if c0 == 'c' && c1 == 'r' && c2 == '2' {
        proof {
            assert(lower_seq(ext@) =~= "cr2"@);
        }
        Some(FormatTag::Cr2)
    } else if c0 == 'r' && c1 == 'a' && c2 == 'f' {
        proof {
            assert(lower_seq(ext@) =~= "raf"@);
        }
        Some(FormatTag::Raf)
    } else if c0 == 'j' && c1 == 'p' && c2 == 'g' {
        proof {
            assert(lower_seq(ext@) =~= "jpg"@);
        }
        Some(FormatTag::Jpg)
    } else {
        None
    }
}

/// Determines the decode backend for a file from its extension.
pub fn detect_format(path: &String) -> (r: Option<FormatTag>)
    ensures
        r == format_spec(path@),
{
    match file_extension(path) {
        Some(e) => format_of_extension(&e),
        None => None,
    }
}

/// A file is supported exactly when its extension, case-insensitively,
/// stands on the allow-list.
pub open spec fn is_supported_spec(path: Seq<char>) -> bool {
    format_spec(path) is Some
}

/// The supported-extension allow-list check that gates a directory scan.
pub fn is_supported_file(path: &String) -> (r: bool)
    ensures
        r == is_supported_spec(path@),
{
    detect_format(path).is_some()
}

} // verus!
