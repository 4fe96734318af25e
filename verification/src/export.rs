//! Names of the files that the preset export writes: one per preset, the
//! domain prefix, an underscore and the button label lower-cased without its
//! dots ("Fund." of the spectrum presets becomes `spec_fund.txt`). Creating
//! the timestamped folder and writing the files is the program's part.
use vstd::prelude::*;

use crate::text::{chars_of, push_char, push_str};

verus! {

broadcast use vstd::string::group_string_axioms;

/// What std's `str::to_lowercase` gives for `s` (Unicode lower-casing, the
/// same on every machine).
pub uninterp spec fn lowercase(s: Seq<char>) -> Seq<char>;

/// `str::to_lowercase`, as named by `lowercase`.
#[verifier::external_body]
fn to_lowercase(s: &str) -> (res: String)
    ensures
        res@ == lowercase(s@),
{
    s.to_lowercase()
}

/// `s` without its dots.
pub open spec fn without_dots(s: Seq<char>) -> Seq<char>
    decreases s.len(),
{
    if s.len() == 0 {
        s
    } else if s.last() == '.' {
        without_dots(s.drop_last())
    } else {
        without_dots(s.drop_last()).push(s.last())
    }
}

/// The file name for a preset whose label, lower-cased, is `lower`.
pub fn file_name_of(prefix: &str, lower: &str) -> (res: String)
    ensures
        res@ == prefix@ + "_"@ + without_dots(lower@) + ".txt"@,
{
    let mut res = String::new();
    push_str(&mut res, prefix);
    push_str(&mut res, "_");
    let ghost head = res@;
    let cs = chars_of(lower);
    let mut i: usize = 0;
    assert(cs@.take(0) =~= Seq::<char>::empty());
    while i < cs.len()
        invariant
            i <= cs@.len(),
            res@ == head + without_dots(cs@.take(i as int)),
        decreases cs@.len() - i,
    {
        let c = cs[i];
        assert(cs@.take(i as int + 1).drop_last() =~= cs@.take(i as int));
        assert(cs@.take(i as int + 1).last() == c);
        if c != '.' {
            push_char(&mut res, c);
            assert(res@ =~= head + without_dots(cs@.take(i as int + 1)));
        }
        i = i + 1;
    }
    assert(cs@.take(i as int) =~= cs@);
    push_str(&mut res, ".txt");
    res
}

/// The file name for the preset labelled `name`: `prefix`, `_`, the label
/// lower-cased without dots, and `.txt`.
pub fn preset_file_name(prefix: &str, name: &str) -> (res: String)
    ensures
        res@ == prefix@ + "_"@ + without_dots(lowercase(name@)) + ".txt"@,
{
    let lower = to_lowercase(name);
    file_name_of(prefix, lower.as_str())
}

} // verus!
