//! The decisions of a launch: which file of an installed tree is the game,
//! and with which program and argument it is started.

use crate::orchestrator::BuildOs;
use crate::text::{chars_of, last_index_of};
use regex::Regex;
use vstd::prelude::*;

verus! {

/// The error type of the `regex` crate, carried through as an opaque value.
#[verifier::external_type_specification]
#[verifier::external_body]
pub struct ExRegexError(regex::Error);

/// The lowercase form of a text, as `str::to_lowercase` gives it.
pub uninterp spec fn lowercase_of(text: Seq<char>) -> Seq<char>;

/// What `Regex::replace` makes of `text` when the first match of `pattern`
/// is replaced by `with`; `None` where `pattern` is no regular expression.
pub uninterp spec fn regex_replaced(pattern: Seq<char>, text: Seq<char>, with: Seq<char>)
    -> Option<Seq<char>>;

/// Lowers the case of a text.
///
/// Trusted: wraps `str::to_lowercase`. The contract names the outcome and
/// claims nothing more of it.
#[verifier::external_body]
fn lowercase(text: &str) -> (r: String)
    ensures
        r@ == lowercase_of(text@),
{
    text.to_lowercase()
}

/// Replaces the first match of a pattern.
///
/// Trusted: compiles the pattern with `Regex::new` and calls
/// `Regex::replace` on the text. The contract names the outcome and claims
/// nothing more of it.
#[verifier::external_body]
fn regex_replace(pattern: &str, text: &str, with: &str) -> (r: Result<String, regex::Error>)
    ensures
        match r {
            Ok(s) => regex_replaced(pattern@, text@, with@) == Some(s@),
            Err(_) => regex_replaced(pattern@, text@, with@) is None,
        },
{
    let compiled = Regex::new(pattern)?;
    Ok(compiled.replace(text, with).into_owned())
}

/// The system that the engine runs on.
#[derive(Clone, Copy, Debug, PartialEq, Eq, Structural)]
pub enum Host {
    Windows,
    Mac,
    Linux,
}

/// Why a game cannot be launched.
#[derive(Clone, Copy, Debug, PartialEq, Eq, Structural)]
pub enum LaunchError {
    /// A Windows game on another system needs a Wine binary, and none was
    /// given.
    NeedsWine,
    /// A macOS game can only be launched on macOS.
    NeedsMac,
    /// Linux games cannot be launched.
    Unsupported,
    /// The product's slug cannot be made into a pattern.
    BadSlug,
}

/// The extension of a file name: what follows its last `.`, unless the
/// name has no `.` or only one at its very beginning.
pub open spec fn extension_of(name: Seq<char>) -> Option<Seq<char>> {
    if last_index_of(name, '.') <= 0 {
        None
    } else {
        Some(name.skip(last_index_of(name, '.') + 1))
    }
}

/// Whether `needle` occurs in `text`.
pub open spec fn occurs_in(needle: Seq<char>, text: Seq<char>) -> bool {
    exists|i: int|
        0 <= i && i + needle.len() <= text.len() && #[trigger] text.subrange(i, i + needle.len())
            == needle
}

/// Whether a file name, with its lowercase form, is that of a game's
/// executable: its extension is `exe`, and it is neither a setup program
/// nor an uninstaller.
pub open spec fn is_game_exe(name: Seq<char>, lowered: Seq<char>) -> bool {
    &&& extension_of(name) == Some("exe"@)
    &&& !occurs_in("setup"@, lowered)
    &&& !occurs_in("unins"@, lowered)
}

/// Whether a name is that of an application bundle: its extension is `app`.
pub open spec fn is_app(name: Seq<char>) -> bool {
    extension_of(name) == Some("app"@)
}

/// The pattern for the slug of a product as the first component of a path:
/// the slug at the start of the text, followed by a backslash.
pub open spec fn slug_pattern(slug: Seq<char>) -> Seq<char> {
    seq!['^'] + slug + seq!['\\', '\\']
}

/// Whether `text` at `at` reads `needle`.
fn reads_at(text: &Vec<char>, at: usize, needle: &Vec<char>) -> (r: bool)
    requires
        at + needle.len() <= text.len(),
    ensures
        r == (text@.subrange(at as int, at + needle.len()) == needle@),
{
    let ghost piece = text@.subrange(at as int, at + needle.len());
    let mut i: usize = 0;
    while i < needle.len()
        invariant
            i <= needle.len(),
            at + needle.len() <= text.len(),
            piece == text@.subrange(at as int, at + needle.len()),
            forall|j: int| 0 <= j < i ==> piece[j] == needle@[j],
        decreases needle.len() - i,
    {
        if text[at + i] != needle[i] {
            assert(piece[i as int] != needle@[i as int]);
            return false;
        }
        i += 1;
    }
    assert(piece =~= needle@);
    true
}

/// Whether `needle` occurs in `text`.
pub fn contains_text(text: &str, needle: &str) -> (r: bool)
    ensures
        r == occurs_in(needle@, text@),
{
    let hay = chars_of(text);
    let pin = chars_of(needle);
    if pin.len() > hay.len() {
        return false;
    }
    let last: usize = hay.len() - pin.len();
    let mut at: usize = 0;
    while at < last
        invariant
            at <= last,
            last == hay.len() - pin.len(),
            pin.len() <= hay.len(),
            hay@ == text@,
            pin@ == needle@,
            forall|j: int| 0 <= j < at ==> #[trigger] hay@.subrange(j, j + pin.len()) != pin@,
        decreases last - at,
    {
        if reads_at(&hay, at, &pin) {
            return true;
        }
        at += 1;
    }
    reads_at(&hay, last, &pin)
}

/// The extension of a file name.
pub fn extension(name: &str) -> (r: Option<String>)
    ensures
        match r {
            Some(ext) => extension_of(name@) == Some(ext@),
            None => extension_of(name@) is None,
        },
{
    let chars = chars_of(name);
    let mut start: usize = chars.len();
    assert(chars@.take(chars.len() as int) =~= chars@);
    while start > 0 && chars[start - 1] != '.'
        invariant
            start <= chars.len(),
            last_index_of(chars@, '.') == last_index_of(chars@.take(start as int), '.'),
        decreases start,
    {
        assert(chars@.take(start as int).drop_last() =~= chars@.take(start - 1));
        start -= 1;
    }
    assert(last_index_of(chars@, '.') == start - 1) by {
        if start > 0 {
            assert(chars@.take(start as int).last() == '.');
        }
    }
    if start <= 1 {
        None
    } else {
        Some(name.substring_char(start, chars.len()).to_owned())
    }
}

/// Whether a file name, with its lowercase form, is that of a game's
/// executable.
pub fn names_game_exe(name: &str, lowered: &str) -> (r: bool)
    ensures
        r == is_game_exe(name@, lowered@),
{
    let fits = match extension(name) {
        Some(ext) => ext == String::from_str("exe"),
        None => false,
    };
    fits && !contains_text(lowered, "setup") && !contains_text(lowered, "unins")
}

/// Whether a file name is that of a game's executable.
pub fn is_game_executable(name: &str) -> (r: bool)
    ensures
        r == is_game_exe(name@, lowercase_of(name@)),
{
    let lowered = lowercase(name);
    names_game_exe(name, lowered.as_str())
}

/// Whether a name is that of an application bundle.
pub fn is_app_bundle(name: &str) -> (r: bool)
    ensures
        r == is_app(name@),
{
    match extension(name) {
        Some(ext) => ext == String::from_str("app"),
        None => false,
    }
}

/// One entry of a directory.
#[derive(Debug)]
pub struct Entry {
    pub name: String,
    pub is_file: bool,
    pub is_dir: bool,
}

/// The first file of a listing that is a game's executable.
pub open spec fn first_exe(names: Seq<Entry>) -> Option<int>
    decreases names.len(),
{
    if names.len() == 0 {
        None
    } else {
        match first_exe(names.drop_last()) {
            Some(i) => Some(i),
            None => if names.last().is_file && is_game_exe(
                names.last().name@,
                lowercase_of(names.last().name@),
            ) {
                Some(names.len() - 1)
            } else {
                None
            },
        }
    }
}

/// The first entry of a listing that is an application bundle.
pub open spec fn first_bundle(names: Seq<Entry>) -> Option<int>
    decreases names.len(),
{
    if names.len() == 0 {
        None
    } else {
        match first_bundle(names.drop_last()) {
            Some(i) => Some(i),
            None => if is_app(names.last().name@) {
                Some(names.len() - 1)
            } else {
                None
            },
        }
    }
}

/// Picks the game's executable from the listing of a directory: the first
/// file that is one.
pub fn pick_executable(entries: &Vec<Entry>) -> (r: Option<usize>)
    ensures
        match r {
            Some(i) => first_exe(entries@) == Some(i as int) && i < entries.len(),
            None => first_exe(entries@) is None,
        },
{
    let mut i: usize = 0;
    assert(entries@.take(0) =~= Seq::<Entry>::empty());
    while i < entries.len()
        invariant
            i <= entries.len(),
            first_exe(entries@.take(i as int)) is None,
        decreases entries.len() - i,
    {
        assert(entries@.take(i + 1).drop_last() =~= entries@.take(i as int));
        assert(entries@.take(i + 1).last() == entries@[i as int]);
        let found = entries[i].is_file && is_game_executable(entries[i].name.as_str());
        if found {
            proof {
                lemma_first_exe_stays(entries@, i + 1);
            }
            return Some(i);
        }
        i += 1;
    }
    assert(entries@.take(entries.len() as int) =~= entries@);
    None
}

/// Picks the application bundle from the listing of a directory: the first
/// entry that is one.
pub fn pick_bundle(entries: &Vec<Entry>) -> (r: Option<usize>)
    ensures
        match r {
            Some(i) => first_bundle(entries@) == Some(i as int) && i < entries.len(),
            None => first_bundle(entries@) is None,
        },
{
    let mut i: usize = 0;
    assert(entries@.take(0) =~= Seq::<Entry>::empty());
    while i < entries.len()
        invariant
            i <= entries.len(),
            first_bundle(entries@.take(i as int)) is None,
        decreases entries.len() - i,
    {
        assert(entries@.take(i + 1).drop_last() =~= entries@.take(i as int));
        assert(entries@.take(i + 1).last() == entries@[i as int]);
        if is_app_bundle(entries[i].name.as_str()) {
            proof {
                lemma_first_bundle_stays(entries@, i + 1);
            }
            return Some(i);
        }
        i += 1;
    }
    assert(entries@.take(entries.len() as int) =~= entries@);
    None
}

/// What was found among the first entries of a listing is what is found in
/// the whole listing.
pub proof fn lemma_first_exe_stays(names: Seq<Entry>, n: int)
    requires
        0 <= n <= names.len(),
        first_exe(names.take(n)) is Some,
    ensures
        first_exe(names) == first_exe(names.take(n)),
    decreases names.len() - n,
{
    if n == names.len() {
        assert(names.take(n) =~= names);
    } else {
        assert(names.take(n + 1).drop_last() =~= names.take(n));
        lemma_first_exe_stays(names, n + 1);
    }
}

/// What was found among the first entries of a listing is what is found in
/// the whole listing.
pub proof fn lemma_first_bundle_stays(names: Seq<Entry>, n: int)
    requires
        0 <= n <= names.len(),
        first_bundle(names.take(n)) is Some,
    ensures
        first_bundle(names) == first_bundle(names.take(n)),
    decreases names.len() - n,
{
    if n == names.len() {
        assert(names.take(n) =~= names);
    } else {
        assert(names.take(n + 1).drop_last() =~= names.take(n));
        lemma_first_bundle_stays(names, n + 1);
    }
}

/// The pattern for the slug of a product as the first component of a path.
pub fn slug_pattern_of(slug: &str) -> (r: String)
    ensures
        r@ == slug_pattern(slug@),
{
    proof {
        reveal_strlit("^");
        reveal_strlit("\\\\");
    }
    let mut pattern = String::from_str("^");
    pattern.append(slug);
    pattern.append("\\\\");
    assert(pattern@ =~= slug_pattern(slug@));
    pattern
}

/// The path of the game's executable without the leading directory that
/// is named after the product: the vendor lists the executable below it,
/// the install tree has no such directory.
pub fn strip_product_directory(slug: &str, exe_path: &str) -> (r: Result<String, LaunchError>)
    ensures
        match r {
            Ok(path) => regex_replaced(slug_pattern(slug@), exe_path@, ""@) == Some(path@),
            Err(e) => e == LaunchError::BadSlug && regex_replaced(
                slug_pattern(slug@),
                exe_path@,
                ""@,
            ) is None,
        },
{
    let pattern = slug_pattern_of(slug);
    match regex_replace(pattern.as_str(), exe_path, "") {
        Ok(path) => Ok(path),
        Err(_) => Err(LaunchError::BadSlug),
    }
}

/// Whether a game for `os` is run through Wine on `host`.
pub open spec fn through_wine(os: BuildOs, host: Host) -> bool {
    os == BuildOs::Windows && host != Host::Windows
}

/// Whether the game's executable can be looked for in the install tree
/// where the vendor does not name it: a Windows game anywhere, a macOS
/// game on macOS, a Linux game nowhere.
pub open spec fn search_allowed(os: BuildOs, host: Host) -> Result<(), LaunchError> {
    match os {
        BuildOs::Windows => Ok(()),
        BuildOs::Mac => if host == Host::Mac {
            Ok(())
        } else {
            Err(LaunchError::NeedsMac)
        },
        BuildOs::Linux => Err(LaunchError::Unsupported),
    }
}

/// The program to start and its one argument: on Windows the game itself;
/// elsewhere Wine with the game where the game is made for Windows, else
/// on macOS `open` with the game and on Linux the game itself.
pub open spec fn command_of(os: BuildOs, host: Host, wine: Option<Seq<char>>, exe: Seq<char>)
    -> Result<(Seq<char>, Seq<char>), LaunchError> {
    if through_wine(os, host) {
        match wine {
            Some(binary) => Ok((binary, exe)),
            None => Err(LaunchError::NeedsWine),
        }
    } else {
        match host {
            Host::Mac => Ok(("open"@, exe)),
            _ => Ok((exe, Seq::empty())),
        }
    }
}

/// Whether the game's executable may be looked for in the install tree.
pub fn may_search(os: BuildOs, host: Host) -> (r: Result<(), LaunchError>)
    ensures
        r == search_allowed(os, host),
{
    match os {
        BuildOs::Windows => Ok(()),
        BuildOs::Mac => match host {
            Host::Mac => Ok(()),
            _ => Err(LaunchError::NeedsMac),
        },
        BuildOs::Linux => Err(LaunchError::Unsupported),
    }
}

/// Whether a Wine binary is needed to launch a game for `os` on `host`.
pub fn needs_wine(os: BuildOs, host: Host) -> (r: bool)
    ensures
        r == through_wine(os, host),
{
    let windows_game = match os {
        BuildOs::Windows => true,
        _ => false,
    };
    let windows_host = match host {
        Host::Windows => true,
        _ => false,
    };
    windows_game && !windows_host
}

/// The program to start and its one argument.
pub fn launch_command(os: BuildOs, host: Host, wine: Option<String>, exe: String) -> (r: Result<
    (String, String),
    LaunchError,
>)
    ensures
        match r {
            Ok((program, argument)) => command_of(
                os,
                host,
                match wine {
                    Some(w) => Some(w@),
                    None => None,
                },
                exe@,
            ) == Ok::<(Seq<char>, Seq<char>), LaunchError>((program@, argument@)),
            Err(e) => command_of(
                os,
                host,
                match wine {
                    Some(w) => Some(w@),
                    None => None,
                },
                exe@,
            ) == Err::<(Seq<char>, Seq<char>), LaunchError>(e),
        },
{
    if needs_wine(os, host) {
        match wine {
            Some(binary) => Ok((binary, exe)),
            None => Err(LaunchError::NeedsWine),
        }
    } else {
        match host {
            Host::Mac => Ok((String::from_str("open"), exe)),
            _ => Ok((exe, String::new())),
        }
    }
}

} // verus!
