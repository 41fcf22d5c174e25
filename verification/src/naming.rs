//! Names on disk: which media an asset is, which file name it gets, which
//! year it belongs to, and how a name is made safe for a Windows folder.

use vstd::prelude::*;
use crate::model::{Asset, MediaMode};
use crate::state::ImmichApp;
use crate::text::{
    all_ws, chars_of, digit_value, eq_str, is_blank, is_digit, is_ws, last_segment, owned, push_all,
    push_str_chars, string_of, trim, trim_chars,
};

verus! {

// ---------------------------------------------------------------------------
// Specifications
// ---------------------------------------------------------------------------

/// The asset is of the kind the media mode takes.
pub open spec fn media_matches_spec(asset: Asset, mode: MediaMode) -> bool {
    match mode {
        MediaMode::All => true,
        MediaMode::Photos => asset.asset_type@ == "IMAGE"@,
        MediaMode::Videos => asset.asset_type@ == "VIDEO"@,
    }
}

/// A character that a Windows file name cannot hold.
pub open spec fn is_reserved(c: char) -> bool {
    ||| c == '<'
    ||| c == '>'
    ||| c == ':'
    ||| c == '"'
    ||| c == '/'
    ||| c == '\\'
    ||| c == '|'
    ||| c == '?'
    ||| c == '*'
    ||| (c as u32) < 0x20
}

/// A character as a file name keeps it: reserved ones become `_`.
pub open spec fn safe_char(c: char) -> char {
    if is_reserved(c) {
        '_'
    } else {
        c
    }
}

/// `s` without the dots and spaces at its end.
pub open spec fn strip_dots_spaces(s: Seq<char>) -> Seq<char>
    decreases s.len(),
{
    if s.len() > 0 && (s.last() == '.' || s.last() == ' ') {
        strip_dots_spaces(s.drop_last())
    } else {
        s
    }
}

/// The file or folder name that `name` becomes: reserved characters
/// replaced by `_`, dots and spaces at the end removed, and `Unbenannt`
/// where nothing is left.
pub open spec fn sanitized(name: Seq<char>) -> Seq<char> {
    let t = strip_dots_spaces(name.map_values(|c: char| safe_char(c)));
    if t.len() == 0 {
        "Unbenannt"@
    } else {
        t
    }
}

/// `x` occurs in `s` as a contiguous piece.
pub open spec fn is_infix(x: Seq<char>, s: Seq<char>) -> bool {
    exists|i: int, j: int| 0 <= i <= j <= s.len() && s.subrange(i, j) == x
}

/// A path whose last component every platform finds the same way: it
/// holds no `\` and no `:` (which some platforms read as separators or
/// drive prefixes), does not begin with `//` (a network prefix on some
/// platforms), and its text after the last `/` is a name other than `.` and
/// `..`. Its last component is that text.
pub open spec fn has_common_leaf(s: Seq<char>) -> bool {
    &&& !s.contains('\\')
    &&& !s.contains(':')
    &&& !(s.len() >= 2 && s[0] == '/' && s[1] == '/')
    &&& last_segment(s).len() > 0
    &&& last_segment(s) != seq!['.']
    &&& last_segment(s) != seq!['.', '.']
}

/// `r` is what the last component of the path `s` may be, or `s` itself
/// where it has none: the text after the last `/` where every platform
/// agrees on it, otherwise `s` or a non-empty piece of `s` without a `/`.
pub open spec fn leaf_of(r: Seq<char>, s: Seq<char>) -> bool {
    if has_common_leaf(s) {
        r == last_segment(s)
    } else {
        r == s || (r.len() > 0 && is_infix(r, s) && !r.contains('/'))
    }
}

/// `name` is a file name that `asset_file_name` may give the asset: from
/// the original file name where that is not blank, else from the device
/// asset id where that is not blank, else the asset id with `.bin`.
pub open spec fn file_name_ok(asset: Asset, name: Seq<char>) -> bool {
    if !all_ws(asset.original_file_name@) {
        leaf_of(name, asset.original_file_name@)
    } else if !all_ws(asset.device_asset_id@) {
        leaf_of(name, asset.device_asset_id@)
    } else {
        name == asset.id@ + ".bin"@
    }
}

/// The first four characters of a date, where they are four digits.
pub open spec fn year_of_date(dt: Seq<char>) -> Option<Seq<char>> {
    if dt.len() >= 4 && is_digit(dt[0]) && is_digit(dt[1]) && is_digit(dt[2]) && is_digit(dt[3]) {
        Some(dt.take(4))
    } else {
        None
    }
}

/// The digits of `s`, in order.
pub open spec fn digits_of(s: Seq<char>) -> Seq<char>
    decreases s.len(),
{
    if s.len() == 0 {
        s
    } else if is_digit(s.last()) {
        digits_of(s.drop_last()).push(s.last())
    } else {
        digits_of(s.drop_last())
    }
}

/// The number that the four digits of `d` from `i` on make.
pub open spec fn four_digit_value(d: Seq<char>, i: int) -> int {
    1000 * digit_value(d[i]) + 100 * digit_value(d[i + 1]) + 10 * digit_value(d[i + 2])
        + digit_value(d[i + 3])
}

/// The first position from `i` on where four digits of `d` make a year
/// between 1900 and 2100.
pub open spec fn first_year_at(d: Seq<char>, i: int) -> Option<int>
    decreases d.len() - i,
{
    if i < 0 || i + 4 > d.len() {
        None
    } else if 1900 <= four_digit_value(d, i) && four_digit_value(d, i) <= 2100 {
        Some(i)
    } else {
        first_year_at(d, i + 1)
    }
}

/// The year a file name shows: the first four consecutive digits of its
/// digits that make a year between 1900 and 2100, else `Unbekannt`.
pub open spec fn year_in_name(name: Seq<char>) -> Seq<char> {
    let d = digits_of(name);
    match first_year_at(d, 0) {
        Some(i) => d.subrange(i, i + 4),
        None => "Unbekannt"@,
    }
}

/// `y` is a year `asset_year` may give the asset: from its date where that
/// starts with four digits, else from a file name it may have.
pub open spec fn year_ok(asset: Asset, y: Seq<char>) -> bool {
    match year_of_date(trim(asset.local_date_time@)) {
        Some(d) => y == d,
        None => exists|name: Seq<char>| file_name_ok(asset, name) && y == year_in_name(name),
    }
}

// ---------------------------------------------------------------------------
// Trusted item of `std`
// ---------------------------------------------------------------------------

/// `Path::file_name`, as text. `/` separates components on every platform;
/// which other characters separate components or start a prefix depends on
/// the platform. So the contract states only what holds everywhere: a path
/// without `\`, `:` and a leading `//` whose text after the last `/` is a
/// name other than `.` and `..` has that text as its file name, and any file
/// name is a non-empty piece of the path without `/`. For other paths it
/// does not state which piece it is, nor whether there is one.
#[verifier::external_body]
fn path_file_name(s: &str) -> (leaf: Option<String>)
    ensures
        has_common_leaf(s@) ==> leaf is Some && leaf->0@ == last_segment(s@),
        leaf is Some ==> leaf->0@.len() > 0 && is_infix(leaf->0@, s@) && !leaf->0@.contains('/'),
{
    match std::path::Path::new(s).file_name() {
        Some(x) => Some(x.to_string_lossy().to_string()),
        None => None,
    }
}

// ---------------------------------------------------------------------------
// Executable functions
// ---------------------------------------------------------------------------

/// The digits of `s`, in order.
fn digits_in(s: &Vec<char>) -> (out: Vec<char>)
    ensures
        out@ == digits_of(s@),
{
    let mut out: Vec<char> = Vec::new();
    let mut i: usize = 0;
    while i < s.len()
        invariant
            i <= s.len(),
            out@ == digits_of(s@.take(i as int)),
        decreases s.len() - i,
    {
        proof {
            assert(s@.take(i + 1).drop_last() =~= s@.take(i as int));
        }
        if '0' <= s[i] && s[i] <= '9' {
            out.push(s[i]);
        }
        i = i + 1;
    }
    proof {
        assert(s@.take(s.len() as int) =~= s@);
    }
    out
}

/// The last component of a path, or the whole text where it has none.
fn leaf_name(s: &String) -> (out: String)
    ensures
        leaf_of(out@, s@),
{
    match path_file_name(s.as_str()) {
        Some(x) => x,
        None => s.clone(),
    }
}

/// The year a file name shows: the first four consecutive digits among its
/// digits that make a year between 1900 and 2100, else `Unbekannt`.
pub fn year_from_file_name(name: &str) -> (out: String)
    ensures
        out@ == year_in_name(name@),
{
    let d = digits_in(&chars_of(name));
    let mut i: usize = 0;
    while i < d.len() && d.len() - i >= 4
        invariant
            i <= d.len(),
            d@ == digits_of(name@),
            first_year_at(d@, 0) == first_year_at(d@, i as int),
        decreases d.len() - i,
    {
        proof {
            assert forall|k: int| 0 <= k < d@.len() implies is_digit(#[trigger] d@[k]) by {
                lemma_digits_are_digits(name@, k);
            }
        }
        let v: u32 = 1000 * ((d[i] as u32) - 48) + 100 * ((d[i + 1] as u32) - 48) + 10 * ((d[
            i + 2
        ] as u32) - 48) + ((d[i + 3] as u32) - 48);
        proof {
            assert(v == four_digit_value(d@, i as int));
        }
        if 1900 <= v && v <= 2100 {
            let mut out: Vec<char> = Vec::new();
            out.push(d[i]);
            out.push(d[i + 1]);
            out.push(d[i + 2]);
            out.push(d[i + 3]);
            proof {
                assert(out@ =~= d@.subrange(i as int, i + 4));
            }
            return string_of(&out);
        }
        i = i + 1;
    }
    owned("Unbekannt")
}

/// Every character that `digits_of` keeps is a digit.
proof fn lemma_digits_are_digits(s: Seq<char>, k: int)
    requires
        0 <= k < digits_of(s).len(),
    ensures
        is_digit(digits_of(s)[k]),
    decreases s.len(),
{
    if s.len() > 0 {
        if is_digit(s.last()) {
            if k < digits_of(s.drop_last()).len() {
                lemma_digits_are_digits(s.drop_last(), k);
            }
        } else {
            lemma_digits_are_digits(s.drop_last(), k);
        }
    }
}

impl ImmichApp {
    /// Whether the asset is of the kind the media mode takes: any for `All`,
    /// type `IMAGE` for photos, type `VIDEO` for videos.
    pub fn media_matches(asset: &Asset, mode: MediaMode) -> (b: bool)
        ensures
            b == media_matches_spec(*asset, mode),
    {
        match mode {
            MediaMode::All => true,
            MediaMode::Photos => eq_str(&asset.asset_type, "IMAGE"),
            MediaMode::Videos => eq_str(&asset.asset_type, "VIDEO"),
        }
    }

    /// The name a file or folder gets on disk: reserved characters become
    /// `_`, dots and spaces at the end go, and an empty result becomes
    /// `Unbenannt`.
    pub fn sanitize_file_name(name: &str) -> (out: String)
        ensures
            out@ == sanitized(name@),
    {
        let v = chars_of(name);
        let mut mapped: Vec<char> = Vec::new();
        let mut i: usize = 0;
        while i < v.len()
            invariant
                i <= v.len(),
                v@ == name@,
                mapped@ == name@.take(i as int).map_values(|c: char| safe_char(c)),
            decreases v.len() - i,
        {
            let c = v[i];
            let reserved = c == '<' || c == '>' || c == ':' || c == '"' || c == '/' || c == '\\'
                || c == '|' || c == '?' || c == '*' || (c as u32) < 0x20;
            mapped.push(if reserved { '_' } else { c });
            proof {
                assert(name@.take(i + 1).map_values(|c: char| safe_char(c)) =~= name@.take(
                    i as int,
                ).map_values(|c: char| safe_char(c)).push(safe_char(c)));
            }
            i = i + 1;
        }
        proof {
            assert(name@.take(v.len() as int) =~= name@);
        }
        let ghost full = mapped@;
        let mut hi: usize = mapped.len();
        proof {
            assert(mapped@.take(hi as int) =~= mapped@);
        }
        while hi > 0 && (mapped[hi - 1] == '.' || mapped[hi - 1] == ' ')
            invariant
                hi <= mapped.len(),
                mapped@ == full,
                strip_dots_spaces(full) == strip_dots_spaces(full.take(hi as int)),
            decreases hi,
        {
            proof {
                assert(full.take(hi as int).drop_last() =~= full.take(hi - 1));
            }
            hi = hi - 1;
        }
        if hi == 0 {
            return owned("Unbenannt");
        }
        mapped.truncate(hi);
        proof {
            assert(mapped@ =~= full.take(hi as int));
        }
        string_of(&mapped)
    }

    /// The file name of an asset: the last component of its original file
    /// name, else of its device asset id, else its id with `.bin`.
    pub fn asset_file_name(asset: &Asset) -> (out: String)
        ensures
            file_name_ok(*asset, out@),
    {
        if !is_blank(asset.original_file_name.as_str()) {
            return leaf_name(&asset.original_file_name);
        }
        if !is_blank(asset.device_asset_id.as_str()) {
            return leaf_name(&asset.device_asset_id);
        }
        let mut v: Vec<char> = Vec::new();
        push_str_chars(&mut v, asset.id.as_str());
        push_str_chars(&mut v, ".bin");
        proof {
            assert(v@ =~= asset.id@ + ".bin"@);
        }
        string_of(&v)
    }

    /// The year an asset belongs to: the first four characters of its local
    /// date-time where they are digits, else the year its file name shows.
    pub fn asset_year(asset: &Asset) -> (out: String)
        ensures
            year_ok(*asset, out@),
    {
        let dt = trim_chars(&chars_of(asset.local_date_time.as_str()));
        if dt.len() >= 4 && '0' <= dt[0] && dt[0] <= '9' && '0' <= dt[1] && dt[1] <= '9' && '0'
            <= dt[2] && dt[2] <= '9' && '0' <= dt[3] && dt[3] <= '9' {
            let mut out: Vec<char> = Vec::new();
            out.push(dt[0]);
            out.push(dt[1]);
            out.push(dt[2]);
            out.push(dt[3]);
            proof {
                assert(out@ =~= dt@.take(4));
            }
            return string_of(&out);
        }
        let name = Self::asset_file_name(asset);
        year_from_file_name(name.as_str())
    }
}


} // verus!
