//! Destination-name helpers: stripping characters a file name may not
//! carry, choosing the output suffix, and recognising input extensions.

use vstd::prelude::*;
use crate::common::FileType;

verus! {

/// A character that is stripped from a display name before it becomes a
/// file name.
pub open spec fn is_forbidden_char(c: char) -> bool {
    c == '\\' || c == '/' || c == ':' || c == '*' || c == '"' || c == '<' || c == '>' || c == '|'
}

/// A display name with every forbidden character removed, the rest kept in
/// order.
pub open spec fn clean_name_spec(s: Seq<char>) -> Seq<char> {
    s.filter(|c: char| !is_forbidden_char(c))
}

/// Removes the characters that a destination file name may not carry.
pub fn clean_file_name(file_name: &String) -> (r: String)
    ensures
        r@ == clean_name_spec(file_name@),
{
    let s = file_name.as_str();
    let n = s.unicode_len();
    let mut out = String::new();
    let mut i: usize = 0;
    while i < n
        invariant
            s@ == file_name@,
            n == file_name@.len(),
            i <= n,
            out@ == clean_name_spec(file_name@.take(i as int)),
        decreases n - i,
    {
        let c = s.get_char(i);
        if !(c == '\\' || c == '/' || c == ':' || c == '*' || c == '"' || c == '<' || c == '>'
            || c == '|') {
            out.push(c);
        }
        proof {
            reveal(Seq::filter);
            assert(file_name@.take(i + 1 as int).drop_last() =~= file_name@.take(i as int));
            assert(file_name@.take(i + 1 as int).last() == file_name@[i as int]);
        }
        i = i + 1;
    }
    proof {
        assert(file_name@.take(n as int) =~= file_name@);
    }
    out
}

/// The output suffix that belongs to a decoded container format.
pub open spec fn spec_suffix_for(file_type: FileType) -> Seq<char> {
    match file_type {
        FileType::NCSD => "3ds"@,
        FileType::NCCH => "standard.cia"@,
    }
}

/// The standard suffix for a decoded container format; a caller may pass
/// another one to `output_file_name` instead.
pub fn default_suffix_for(file_type: &FileType) -> (r: String)
    ensures
        r@ == spec_suffix_for(*file_type),
{
    match file_type {
        FileType::NCSD => String::from_str("3ds"),
        FileType::NCCH => String::from_str("standard.cia"),
    }
}

/// Joins a cleaned display name and a suffix with a dot.
pub fn output_file_name(clean_name: &String, suffix: &String) -> (r: String)
    ensures
        r@ == clean_name@ + "."@ + suffix@,
{
    let mut out = clean_name.clone();
    out.append(".");
    out.append(suffix.as_str());
    proof {
        assert(out@ =~= clean_name@ + "."@ + suffix@);
    }
    out
}

/// True of a file name ending in one of the two recognised extensions.
pub open spec fn spec_has_recognized_extension(name: Seq<char>) -> bool {
    name.len() >= 3 && (name.subrange(name.len() - 3, name.len() as int) == "3ds"@
        || name.subrange(name.len() - 3, name.len() as int) == "cia"@)
}

/// Decides whether a file name carries one of the two recognised
/// extensions; names shorter than an extension are rejected.
pub fn has_recognized_extension(name: &String) -> (r: bool)
    ensures
        r == spec_has_recognized_extension(name@),
{
    let s = name.as_str();
    let n = s.unicode_len();
    if n < 3 {
        return false;
    }
    let tail = s.substring_char(n - 3, n).to_owned();
    tail == String::from_str("3ds") || tail == String::from_str("cia")
}

} // verus!
