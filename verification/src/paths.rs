//! File names: the name under which a configuration file is reported, and the
//! insertion of a suffix or a time stamp in front of a file's extension.

use vstd::prelude::*;
use crate::text::{decimal, u64_to_string, lowercase, to_lowercase, ends_with, str_ends_with};

verus! {

/// The index of the last occurrence of `c` in `s`, if there is one.
pub open spec fn last_index_of(s: Seq<char>, c: char) -> Option<int>
    decreases s.len(),
{
    if s.len() == 0 {
        None
    } else if s.last() == c {
        Some(s.len() - 1)
    } else {
        last_index_of(s.drop_last(), c)
    }
}

/// `last_index_of` finds the last occurrence, and finds none exactly when there is none.
pub proof fn lemma_last_index_of(s: Seq<char>, c: char)
    ensures
        match last_index_of(s, c) {
            Some(k) => 0 <= k < s.len() && s[k] == c && forall|j: int| k < j < s.len() ==> s[j] != c,
            None => forall|j: int| 0 <= j < s.len() ==> s[j] != c,
        },
    decreases s.len(),
{
    if s.len() > 0 && s.last() != c {
        lemma_last_index_of(s.drop_last(), c);
        assert forall|j: int| 0 <= j < s.len() - 1 implies s.drop_last()[j] == s[j] by {}
    }
}

/// `piece` put in front of the extension of `path` (its last `.`), or at its end when
/// it has no `.`.
pub open spec fn before_extension(path: Seq<char>, piece: Seq<char>) -> Seq<char> {
    match last_index_of(path, '.') {
        Some(d) => path.take(d) + piece + path.skip(d),
        None => path + piece,
    }
}

/// The index of the last `.` of `path`.
fn find_last_dot(path: &str) -> (r: Option<usize>)
    ensures
        r matches Some(d) ==> d < path@.len() && last_index_of(path@, '.') == Some(d as int),
        r is None ==> last_index_of(path@, '.') is None,
{
    let n = path.unicode_len();
    let mut i: usize = n;
    while i > 0
        invariant
            n == path@.len(),
            i <= n,
            forall|j: int| i <= j < n ==> path@[j] != '.',
        decreases i,
    {
        if path.get_char(i - 1) == '.' {
            let d = i - 1;
            proof {
                lemma_last_index_of(path@, '.');
                assert(path@[d as int] == '.');
            }
            return Some(d);
        }
        i = i - 1;
    }
    proof {
        lemma_last_index_of(path@, '.');
    }
    None
}

/// Puts `piece` in front of the extension of `path`.
fn insert_before_extension(path: &str, piece: &str) -> (r: String)
    ensures
        r@ == before_extension(path@, piece@),
{
    match find_last_dot(path) {
        Some(d) => {
            let n = path.unicode_len();
            let head = path.substring_char(0, d);
            let tail = path.substring_char(d, n);
            let mut out = String::from_str(head);
            out.append(piece);
            out.append(tail);
            assert(path@.subrange(0, d as int) =~= path@.take(d as int));
            assert(path@.subrange(d as int, n as int) =~= path@.skip(d as int));
            out
        },
        None => {
            let mut out = String::from_str(path);
            out.append(piece);
            out
        },
    }
}

/// `path` with `suffix` in front of its extension: `out.csv` with `_merged` gives
/// `out_merged.csv`, and `out` gives `out_merged`.
pub fn add_suffix_to_filename(path: &str, suffix: &str) -> (r: String)
    ensures
        r@ == before_extension(path@, suffix@),
{
    insert_before_extension(path, suffix)
}

/// The seconds since the Unix epoch on the system clock, 0 for a clock set before it
/// (`SystemTime::now`, `duration_since(UNIX_EPOCH)`, `as_secs`). What comes back
/// depends on the clock: nothing is said of it.
#[verifier::external_body]
fn unix_seconds() -> (r: u64) {
    std::time::SystemTime::now().duration_since(std::time::UNIX_EPOCH).unwrap_or_default().as_secs()
}

/// The current time as the decimal count of seconds since the Unix epoch.
pub fn chrono_local_now() -> (r: String)
    ensures
        exists|secs: u64| r@ == decimal(secs as nat),
{
    let secs = unix_seconds();
    u64_to_string(secs)
}

/// `path` with `_` and the time stamp `stamp` in front of its extension.
pub open spec fn stamped_path(path: Seq<char>, stamp: Seq<char>) -> Seq<char> {
    before_extension(path, "_"@ + stamp)
}

/// `path` with `_` and `stamp` in front of its extension: `out.csv` with `1700000000`
/// gives `out_1700000000.csv`.
pub fn append_stamp(path: &str, stamp: &str) -> (r: String)
    ensures
        r@ == stamped_path(path@, stamp@),
{
    let mut piece = String::from_str("_");
    piece.append(stamp);
    proof {
        reveal_strlit("_");
    }
    insert_before_extension(path, piece.as_str())
}

/// `path` with `_` and the current time (seconds since the Unix epoch) in front of its
/// extension.
pub fn append_timestamp(path: &str) -> (r: String)
    ensures
        exists|secs: u64| r@ == stamped_path(path@, decimal(secs as nat)),
{
    let now = chrono_local_now();
    append_stamp(path, now.as_str())
}

/// The final component of a path, as `Path::file_name` gives it (`None` for a path
/// that ends in `..` or has no component). It depends on the path alone, for a given
/// target: which characters separate components follows the target's path
/// conventions (`/` on Unix; `\` and `/` on Windows).
pub uninterp spec fn file_name_of(path: Seq<char>) -> Option<Seq<char>>;

/// The final component of `path` (`Path::file_name`), named by `file_name_of`; the
/// `&str` it was made from is valid UTF-8, so the conversion back loses nothing.
#[verifier::external_body]
fn path_file_name(path: &str) -> (r: Option<String>)
    ensures
        match r {
            Some(n) => file_name_of(path@) == Some(n@),
            None => file_name_of(path@) is None,
        },
{
    std::path::Path::new(path).file_name().map(|n| n.to_string_lossy().to_string())
}

/// The name under which a configuration file is reported: its file name, without a
/// `.toml` extension in any letter case.
pub open spec fn config_name(path: Seq<char>) -> Seq<char> {
    let f = match file_name_of(path) {
        Some(n) => n,
        None => path,
    };
    if ends_with(lowercase(f), ".toml"@) && f.len() >= 5 {
        f.take(f.len() - 5)
    } else {
        f
    }
}

/// The name under which the configuration file at `path` is reported:
/// `configs/Fast.TOML` gives `Fast`.
pub fn config_name_from_path(path: &str) -> (r: String)
    ensures
        r@ == config_name(path@),
{
    let file_name = match path_file_name(path) {
        Some(n) => n,
        None => String::from_str(path),
    };
    let lower = to_lowercase(file_name.as_str());
    let n = file_name.as_str().unicode_len();
    if str_ends_with(lower.as_str(), ".toml") && n >= 5 {
        proof {
            reveal_strlit(".toml");
        }
        let head = file_name.as_str().substring_char(0, n - 5);
        assert(file_name@.subrange(0, n - 5) =~= file_name@.take(n - 5));
        String::from_str(head)
    } else {
        proof {
            reveal_strlit(".toml");
        }
        file_name
    }
}

} // verus!
