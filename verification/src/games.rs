//! Adding and editing games: staging-folder names, protected install paths, lookups.
use vstd::prelude::*;

use crate::error::AppError;
use crate::paths::{extension, path_extension};
use crate::records::GameRecord;
use crate::text::{
    ascii_lower, ascii_lower_char, ascii_lower_seq, ascii_lowercase, chars_of, contains,
    ascii_alphanumeric, has_infix, i64_text, is_alphanumeric, is_ascii_text, push_all, signed_decimal, string_of, to_lowercase,
    unicode_alphanumeric, unicode_lowercase,
};

verus! {

/// Result of adding or editing a game.
/// - `cross_drive_warning`: the staging folder is on another drive than the mod directory
///   (moves are slower there);
/// - `has_existing_mods`: the mod directory already holds `.pak`/`.ucas`/`.utoc` files.
#[derive(Debug, Clone)]
pub struct AddGameResult {
    pub game: GameRecord,
    pub cross_drive_warning: bool,
    pub has_existing_mods: bool,
}

/// Each character of a slug: letters and digits (Unicode) and `-` are kept, ASCII upper case
/// lowered; anything else becomes `-`.
pub open spec fn slug_char(c: char) -> char {
    if unicode_alphanumeric(c) || c == '-' {
        ascii_lower(c)
    } else {
        '-'
    }
}

/// `s` without its leading `c` characters.
pub open spec fn trim_leading(s: Seq<char>, c: char) -> Seq<char>
    decreases s.len(),
{
    if s.len() > 0 && s[0] == c {
        trim_leading(s.drop_first(), c)
    } else {
        s
    }
}

/// `s` without its trailing `c` characters.
pub open spec fn trim_trailing(s: Seq<char>, c: char) -> Seq<char>
    decreases s.len(),
{
    if s.len() > 0 && s.last() == c {
        trim_trailing(s.drop_last(), c)
    } else {
        s
    }
}

/// `str::trim_matches` with a single character.
pub open spec fn trim_char(s: Seq<char>, c: char) -> Seq<char> {
    trim_trailing(trim_leading(s, c), c)
}

/// The file-system-safe slug of a name.
pub open spec fn slug(name: Seq<char>) -> Seq<char> {
    trim_char(name.map_values(|c: char| slug_char(c)), '-')
}

proof fn lemma_trim_leading(s: Seq<char>, c: char, lo: int)
    requires
        0 <= lo <= s.len(),
        forall|i: int| 0 <= i < lo ==> s[i] == c,
        lo == s.len() || s[lo] != c,
    ensures
        trim_leading(s, c) == s.subrange(lo, s.len() as int),
    decreases lo,
{
    if lo == 0 {
        assert(s.subrange(0, s.len() as int) =~= s);
    } else {
        let t = s.drop_first();
        assert forall|i: int| 0 <= i < lo - 1 implies t[i] == c by {
            assert(t[i] == s[i + 1]);
        }
        lemma_trim_leading(t, c, lo - 1);
        assert(t.subrange(lo - 1, t.len() as int) =~= s.subrange(lo, s.len() as int));
    }
}

proof fn lemma_trim_trailing(s: Seq<char>, c: char, hi: int)
    requires
        0 <= hi <= s.len(),
        forall|i: int| hi <= i < s.len() ==> s[i] == c,
        hi == 0 || s[hi - 1] != c,
    ensures
        trim_trailing(s, c) == s.subrange(0, hi),
    decreases s.len() - hi,
{
    if hi == s.len() {
        assert(s.subrange(0, hi) =~= s);
    } else {
        let t = s.drop_last();
        lemma_trim_trailing(t, c, hi);
        assert(t.subrange(0, hi) =~= s.subrange(0, hi));
    }
}

/// Converts a game or mod name to a file-system-safe slug, used for staging folder names:
/// every character that is not a letter, a digit or `-` becomes `-`, ASCII letters are
/// lowered, and leading and trailing `-` are trimmed. The slug is safe as a folder name:
/// it holds only `-` and alphanumeric characters, and of ASCII only `-`, small letters and
/// digits (so no `/`, `\`, `.`, `:` or space); it neither starts nor ends with `-`; and it is
/// its own slug.
pub fn slug_from_name(name: &str) -> (r: String)
    ensures
        r@ == slug(name@),
        forall|i: int| 0 <= i < r@.len() ==> slug_safe(#[trigger] r@[i]),
        r@.len() > 0 ==> r@[0] != '-' && r@[r@.len() - 1] != '-',
        slug(r@) == r@,
{
    let cs = chars_of(name);
    let n = cs.len();
    let mut mapped: Vec<char> = Vec::new();
    for i in 0..n
        invariant
            n == cs@.len(),
            cs@ == name@,
            mapped@ == cs@.take(i as int).map_values(|c: char| slug_char(c)),
            forall|j: int| 0 <= j < mapped@.len() ==> slug_safe(#[trigger] mapped@[j]),
    {
        let c = cs[i];
        let alnum = is_alphanumeric(c);
        let m = if alnum || c == '-' {
            ascii_lower_char(c)
        } else {
            '-'
        };
        if alnum && m != c {
            // `c` is an ASCII capital, and `m` the matching small letter, alphanumeric too.
            let lower_alnum = is_alphanumeric(m);
            assert(lower_alnum);
        }
        let ghost before = mapped@;
        mapped.push(m);
        assert(forall|j: int| 0 <= j < before.len() ==> mapped@[j] == before[j]);
        assert(cs@.take(i + 1).map_values(|c: char| slug_char(c)) =~= cs@.take(i as int).map_values(
            |c: char| slug_char(c),
        ).push(slug_char(c)));
    }
    assert(cs@.take(n as int) =~= cs@);
    let ghost m = mapped@;
    let mut lo: usize = 0;
    while lo < n && mapped[lo] == '-'
        invariant
            n == mapped@.len(),
            lo <= n,
            forall|i: int| 0 <= i < lo ==> m[i] == '-',
            m == mapped@,
        decreases n - lo,
    {
        lo = lo + 1;
    }
    proof {
        lemma_trim_leading(m, '-', lo as int);
    }
    let mut hi: usize = n;
    while hi > lo && mapped[hi - 1] == '-'
        invariant
            n == mapped@.len(),
            lo <= hi <= n,
            forall|i: int| hi <= i < n ==> m[i] == '-',
            m == mapped@,
        decreases hi,
    {
        hi = hi - 1;
    }
    let ghost t = m.subrange(lo as int, n as int);
    proof {
        assert forall|i: int| hi - lo <= i < t.len() implies t[i] == '-' by {
            assert(t[i] == m[i + lo]);
        }
        if hi > lo {
            assert(t[hi - lo - 1] == m[hi - 1]);
        }
        lemma_trim_trailing(t, '-', hi - lo);
        assert(t.subrange(0, hi - lo) =~= m.subrange(lo as int, hi as int));
    }
    let mut out: Vec<char> = Vec::new();
    let mut k = lo;
    while k < hi
        invariant
            lo <= k <= hi <= n,
            n == mapped@.len(),
            m == mapped@,
            out@ == m.subrange(lo as int, k as int),
        decreases hi - k,
    {
        out.push(mapped[k]);
        assert(m.subrange(lo as int, k + 1) =~= m.subrange(lo as int, k as int).push(m[k as int]));
        k = k + 1;
    }
    let r = string_of(&out);
    proof {
        let o = out@;
        assert forall|i: int| 0 <= i < o.len() implies slug_safe(#[trigger] o[i]) by {
            assert(o[i] == m[i + lo]);
        }
        if o.len() > 0 {
            assert(o[0] == m[lo as int]);
            assert(o[o.len() - 1] == m[hi - 1]);
        }
        lemma_slug_of_safe(o);
    }
    r
}

/// A character a slug may hold: `-`, or an alphanumeric character that is not an ASCII
/// capital; an ASCII one is a small letter or a digit.
pub open spec fn slug_safe(c: char) -> bool {
    ||| c == '-'
    ||| unicode_alphanumeric(c) && !('A' <= c && c <= 'Z') && (c <= '\x7f' ==> ascii_alphanumeric(c))
}

proof fn lemma_slug_of_safe(s: Seq<char>)
    requires
        forall|i: int| 0 <= i < s.len() ==> slug_safe(#[trigger] s[i]),
        s.len() > 0 ==> s[0] != '-' && s[s.len() - 1] != '-',
    ensures
        slug(s) == s,
{
    let mapped = s.map_values(|c: char| slug_char(c));
    assert(mapped =~= s) by {
        assert forall|i: int| 0 <= i < s.len() implies mapped[i] == s[i] by {
            assert(slug_safe(s[i]));
        }
    }
    lemma_trim_leading(s, '-', 0);
    assert(s.subrange(0, s.len() as int) =~= s);
    lemma_trim_trailing(s, '-', s.len() as int);
}

/// Whether a path lies inside a Windows protected directory (`Program Files`), compared
/// case-insensitively.
pub fn is_protected_path(path: &str) -> (r: bool)
    ensures
        r == (has_infix(unicode_lowercase(path@), "program files"@) || has_infix(
            unicode_lowercase(path@),
            "program files (x86)"@,
        )),
        is_ascii_text(path@) ==> r == (has_infix(ascii_lower_seq(path@), "program files"@)
            || has_infix(ascii_lower_seq(path@), "program files (x86)"@)),
{
    let lower = to_lowercase(path);
    let l = chars_of(lower.as_str());
    let a = chars_of("program files");
    let b = chars_of("program files (x86)");
    contains(&l, &a) || contains(&l, &b)
}

/// The home folder for default staging directories: `USERPROFILE`, else `HOME`, else `.`.
/// The arguments are the two environment variables, where they are set and valid Unicode.
pub fn pick_home(user_profile: Option<String>, home: Option<String>) -> (r: String)
    ensures
        user_profile matches Some(u) ==> r@ == u@,
        user_profile is None ==> (home matches Some(h) ==> r@ == h@),
        user_profile is None && home is None ==> r@ == "."@,
{
    match user_profile {
        Some(u) => u,
        None => match home {
            Some(h) => h,
            None => ".".to_string(),
        },
    }
}

/// The staging directory of a new game: the given one when it is present and non-empty,
/// else `<home>/.modtoggler/games/<slug of the name>/staging`.
pub open spec fn staging_dir_for(staging_dir: Option<Seq<char>>, name: Seq<char>, home: Seq<char>) -> Seq<char> {
    match staging_dir {
        Some(s) if s.len() > 0 => s,
        _ => home + "/.modtoggler/games/"@ + slug(name) + "/staging"@,
    }
}

/// Chooses the staging directory of a new game (see `staging_dir_for`).
pub fn resolve_staging_dir(staging_dir: Option<String>, name: &str, home: &str) -> (r: String)
    ensures
        r@ == staging_dir_for(
            match staging_dir {
                Some(s) => Some(s@),
                None => None,
            },
            name@,
            home@,
        ),
{
    match staging_dir {
        Some(s) if !s.as_str().is_empty() => s,
        _ => {
            let mut r = home.to_string();
            push_all(&mut r, "/.modtoggler/games/");
            let sl = slug_from_name(name);
            push_all(&mut r, sl.as_str());
            push_all(&mut r, "/staging");
            r
        },
    }
}

/// The message of a missing game: `Game ID <id> not found`.
pub open spec fn game_not_found_message(id: int) -> Seq<char> {
    "Game ID "@ + signed_decimal(id) + " not found"@
}

/// The `GameNotFound` error for a game id.
pub fn game_not_found(id: i64) -> (r: AppError)
    ensures
        r is GameNotFound,
        r.message() == game_not_found_message(id as int),
{
    let mut m = "Game ID ".to_string();
    let t = i64_text(id);
    push_all(&mut m, t.as_str());
    push_all(&mut m, " not found");
    AppError::GameNotFound(m)
}

/// The first game with the given id, or `GameNotFound` when there is none.
pub fn find_game(games: &[GameRecord], id: i64) -> (r: Result<GameRecord, AppError>)
    ensures
        r is Ok <==> exists|i: int| 0 <= i < games@.len() && games@[i].id == id,
        r matches Ok(g) ==> exists|i: int|
            0 <= i < games@.len() && games@[i] == g && g.id == id && forall|j: int|
                0 <= j < i ==> games@[j].id != id,
        r matches Err(e) ==> e is GameNotFound && e.message() == game_not_found_message(id as int),
{
    let n = games.len();
    for i in 0..n
        invariant
            n == games@.len(),
            forall|j: int| 0 <= j < i ==> games@[j].id != id,
    {
        if games[i].id == id {
            return Ok(games[i].duplicate());
        }
    }
    Err(game_not_found(id))
}

/// Whether an extension names a mod archive: `pak`, `ucas` or `utoc`, ASCII case ignored.
pub open spec fn is_mod_extension(ext: Option<Seq<char>>) -> bool {
    match ext {
        Some(e) => ascii_lower_seq(e) == "pak"@ || ascii_lower_seq(e) == "ucas"@
            || ascii_lower_seq(e) == "utoc"@,
        None => false,
    }
}

/// Whether a file's extension names a mod archive (see `is_mod_extension`).
pub fn has_mod_extension(path: &str) -> (r: bool)
    ensures
        r == is_mod_extension(path_extension(path@)),
{
    match extension(path) {
        Some(e) => {
            let l = ascii_lowercase(e.as_str());
            l == "pak".to_string() || l == "ucas".to_string() || l == "utoc".to_string()
        },
        None => false,
    }
}

/// Whether any of the entries of a mod directory (their paths) is a mod archive.
/// An absent or empty directory has no entries, hence none.
pub fn has_existing_mod_files(entries: &[String]) -> (r: bool)
    ensures
        r == exists|i: int| 0 <= i < entries@.len() && is_mod_extension(path_extension(entries@[i]@)),
{
    let n = entries.len();
    for i in 0..n
        invariant
            n == entries@.len(),
            forall|j: int| 0 <= j < i ==> !is_mod_extension(path_extension(entries@[j]@)),
    {
        if has_mod_extension(entries[i].as_str()) {
            return true;
        }
    }
    false
}

} // verus!
