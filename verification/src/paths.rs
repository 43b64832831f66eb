use vstd::prelude::*;
use vstd::string::StringExecFns;

use crate::text::{chars_of, push_char};

verus! {

/// `dirs::home_dir`, as the bytes of the path. The answer comes from the
/// environment (the `HOME` variable, else the user database), so which
/// directory it is is not stated; an empty `HOME` or an empty database entry
/// gives `None`, so a directory given is never empty.
#[verifier::external_body]
fn home_dir() -> (r: Option<Vec<u8>>)
    ensures
        r matches Some(h) ==> h@.len() > 0,
{
    dirs::home_dir().map(|p| p.into_os_string().into_encoded_bytes())
}

/// The text that `String::from_utf8_lossy` makes of some bytes.
pub uninterp spec fn lossy_text(bytes: Seq<u8>) -> Seq<char>;

/// `String::from_utf8_lossy`: the text of the bytes, each invalid UTF-8
/// sequence replaced by U+FFFD, so that bytes that are there give text that
/// is not empty. The text is named by `lossy_text`, a function of the bytes.
#[verifier::external_body]
fn text_of_bytes(bytes: &[u8]) -> (r: String)
    ensures
        r@ == lossy_text(bytes@),
        bytes@.len() > 0 ==> r@.len() > 0,
{
    String::from_utf8_lossy(bytes).into_owned()
}

/// A home directory as `dirs::home_dir` can give it: absent, or not empty.
pub open spec fn valid_home(home: Option<Seq<u8>>) -> bool {
    home matches Some(h) ==> h.len() > 0
}

/// The home directory, or `.` when there is none, as a path.
pub open spec fn home_or_dot(home: Option<Seq<u8>>) -> Seq<u8> {
    match home {
        Some(h) => h,
        None => seq![46u8],
    }
}

/// The home directory, or `.` when there is none, as text.
pub open spec fn home_text(home: Option<Seq<u8>>) -> Seq<char> {
    match home {
        Some(h) => lossy_text(h),
        None => seq!['.'],
    }
}

/// The characters of an optional string.
pub open spec fn opt_view(s: Option<String>) -> Option<Seq<char>> {
    match s {
        Some(t) => Some(t@),
        None => None,
    }
}

/// The bytes of an optional byte vector.
pub open spec fn opt_bytes(s: Option<Vec<u8>>) -> Option<Seq<u8>> {
    match s {
        Some(t) => Some(t@),
        None => None,
    }
}

/// `home`, or `.` when it is absent.
pub fn or_dot(home: Option<Vec<u8>>) -> (r: Vec<u8>)
    ensures
        r@ == home_or_dot(opt_bytes(home)),
{
    match home {
        Some(h) => h,
        None => {
            let mut r: Vec<u8> = Vec::new();
            r.push(46u8);
            assert(r@ =~= seq![46u8]);
            r
        },
    }
}

/// The user's home directory as text (invalid UTF-8 replaced), or `.` when
/// it is unknown.
pub fn home_dir_string() -> (r: String)
    ensures
        exists|home: Option<Seq<u8>>| valid_home(home) && r@ == home_text(home),
        r@.len() > 0,
{
    let h = home_dir();
    assert(valid_home(opt_bytes(h)));
    match h {
        Some(b) => text_of_bytes(b.as_slice()),
        None => {
            let r = String::from_str(".");
            proof { reveal_strlit("."); }
            assert(r@ == home_text(None));
            r
        },
    }
}

/// The bytes of an ASCII text.
pub open spec fn ascii(s: Seq<char>) -> Seq<u8> {
    s.map_values(|c: char| c as u8)
}

/// The bytes of an ASCII text.
pub fn ascii_bytes(s: &str) -> (r: Vec<u8>)
    ensures
        r@ == ascii(s@),
{
    let chars = chars_of(s);
    let mut r: Vec<u8> = Vec::new();
    let mut i: usize = 0;
    while i < chars.len()
        invariant
            i <= chars.len(),
            chars@ == s@,
            r@ == ascii(s@.take(i as int)),
        decreases chars.len() - i,
    {
        r.push(chars[i] as u8);
        assert(ascii(s@.take(i + 1)) =~= ascii(s@.take(i as int)).push(s@[i as int] as u8));
        i += 1;
    }
    assert(s@.take(chars.len() as int) == s@);
    r
}

/// The path `base` with the component `name` pushed, on bytes, as a Unix
/// `PathBuf::push` does: an absolute `name` replaces `base`; otherwise a `/`
/// separates them unless `base` is empty or already ends in one.
pub open spec fn path_bytes_joined(base: Seq<u8>, name: Seq<u8>) -> Seq<u8> {
    if name.len() > 0 && name[0] == 47u8 {
        name
    } else if base.len() == 0 || base.last() == 47u8 {
        base + name
    } else {
        base + seq![47u8] + name
    }
}

/// Pushes the path component `name` onto the path `base`, on bytes.
pub fn join_path_bytes(base: &[u8], name: &[u8]) -> (r: Vec<u8>)
    ensures
        r@ == path_bytes_joined(base@, name@),
{
    let mut r: Vec<u8> = Vec::new();
    if !(name.len() > 0 && name[0] == 47u8) {
        let mut i: usize = 0;
        while i < base.len()
            invariant
                i <= base.len(),
                r@ == base@.take(i as int),
            decreases base.len() - i,
        {
            r.push(base[i]);
            assert(base@.take(i as int).push(base@[i as int]) == base@.take(i + 1));
            i += 1;
        }
        assert(base@.take(base.len() as int) == base@);
        if base.len() > 0 && base[base.len() - 1] != 47u8 {
            r.push(47u8);
        }
    }
    let ghost start = r@;
    let mut j: usize = 0;
    while j < name.len()
        invariant
            j <= name.len(),
            r@ == start + name@.take(j as int),
        decreases name.len() - j,
    {
        r.push(name[j]);
        assert(start + name@.take(j as int).push(name@[j as int]) == start + name@.take(j + 1));
        j += 1;
    }
    assert(name@.take(name.len() as int) == name@);
    proof {
        if name.len() > 0 && name@[0] == 47u8 {
            assert(start == Seq::<u8>::empty());
            assert(start + name@ == name@);
        } else if base.len() > 0 && base@.last() != 47u8 {
            assert(start == base@ + seq![47u8]);
        }
    }
    r
}

/// `name` appended to the path `base` as a Unix `PathBuf::push` does: an
/// absolute `name` replaces `base`; otherwise a `/` separates them unless
/// `base` is empty or already ends in one.
pub open spec fn path_joined(base: Seq<char>, name: Seq<char>) -> Seq<char> {
    if name.len() > 0 && name[0] == '/' {
        name
    } else if base.len() == 0 || base.last() == '/' {
        base + name
    } else {
        base + seq!['/'] + name
    }
}

/// Appends the path component `name` to `base`.
pub fn join_path(base: &str, name: &str) -> (r: String)
    ensures
        r@ == path_joined(base@, name@),
{
    let b = chars_of(base);
    let n = chars_of(name);
    if n.len() > 0 && n[0] == '/' {
        String::from_str(name)
    } else {
        let mut r = String::from_str(base);
        if b.len() > 0 && b[b.len() - 1] != '/' {
            push_char(&mut r, '/');
        }
        r.append(name);
        r
    }
}

/// The directory of the configuration, under `home`.
pub open spec fn config_dir_path(home: Seq<u8>) -> Seq<u8> {
    path_bytes_joined(path_bytes_joined(home, ascii(".config"@)), ascii("luminousity"@))
}

/// The configuration file, under `home`.
pub open spec fn config_file_path(home: Seq<u8>) -> Seq<u8> {
    path_bytes_joined(config_dir_path(home), ascii("config.json"@))
}

/// The recent-file history, under `home`.
pub open spec fn history_file_path(home: Seq<u8>) -> Seq<u8> {
    path_bytes_joined(path_bytes_joined(home, ascii(".cache"@)), ascii("luminousity_history.json"@))
}

/// `~/.config/luminousity` for the given home directory.
pub fn config_dir_under(home: &[u8]) -> (r: Vec<u8>)
    ensures
        r@ == config_dir_path(home@),
{
    let c = join_path_bytes(home, ascii_bytes(".config").as_slice());
    join_path_bytes(c.as_slice(), ascii_bytes("luminousity").as_slice())
}

/// `~/.config/luminousity/config.json` for the given home directory.
pub fn config_file_under(home: &[u8]) -> (r: Vec<u8>)
    ensures
        r@ == config_file_path(home@),
{
    let d = config_dir_under(home);
    join_path_bytes(d.as_slice(), ascii_bytes("config.json").as_slice())
}

/// `~/.cache/luminousity_history.json` for the given home directory.
pub fn history_file_under(home: &[u8]) -> (r: Vec<u8>)
    ensures
        r@ == history_file_path(home@),
{
    let c = join_path_bytes(home, ascii_bytes(".cache").as_slice());
    join_path_bytes(c.as_slice(), ascii_bytes("luminousity_history.json").as_slice())
}

/// The configuration directory of the current user, as the bytes of a path.
pub fn config_dir() -> (r: Vec<u8>)
    ensures
        exists|home: Option<Seq<u8>>| valid_home(home) && r@ == config_dir_path(home_or_dot(home)),
{
    let h = home_dir();
    assert(valid_home(opt_bytes(h)));
    let home = or_dot(h);
    config_dir_under(home.as_slice())
}

/// The configuration file of the current user, as the bytes of a path.
pub fn config_file() -> (r: Vec<u8>)
    ensures
        exists|home: Option<Seq<u8>>| valid_home(home) && r@ == config_file_path(home_or_dot(home)),
{
    let h = home_dir();
    assert(valid_home(opt_bytes(h)));
    let home = or_dot(h);
    config_file_under(home.as_slice())
}

/// The recent-file history of the current user, as the bytes of a path.
pub fn history_file() -> (r: Vec<u8>)
    ensures
        exists|home: Option<Seq<u8>>| valid_home(home) && r@ == history_file_path(home_or_dot(home)),
{
    let h = home_dir();
    assert(valid_home(opt_bytes(h)));
    let home = or_dot(h);
    history_file_under(home.as_slice())
}

/// `path` with a leading `~` replaced by `home`; any other path unchanged.
pub open spec fn user_expanded(path: Seq<char>, home: Seq<char>) -> Seq<char> {
    if path.len() > 0 && path[0] == '~' {
        home + path.drop_first()
    } else {
        path
    }
}

/// Replaces a leading `~` of `path` by `home`.
pub fn expand_user_with(path: &str, home: &str) -> (r: String)
    ensures
        r@ == user_expanded(path@, home@),
{
    let p = chars_of(path);
    if p.len() > 0 && p[0] == '~' {
        let mut r = String::from_str(home);
        let mut i: usize = 1;
        while i < p.len()
            invariant
                1 <= i <= p.len(),
                p@ == path@,
                r@ == home@ + path@.subrange(1, i as int),
            decreases p.len() - i,
        {
            push_char(&mut r, p[i]);
            assert(path@.subrange(1, i as int).push(path@[i as int]) == path@.subrange(1, i + 1));
            i += 1;
        }
        assert(path@.subrange(1, p.len() as int) == path@.drop_first());
        r
    } else {
        String::from_str(path)
    }
}

/// Replaces a leading `~` of `path` by the user's home directory.
pub fn expand_user(path: &str) -> (r: String)
    ensures
        exists|home: Option<Seq<u8>>| valid_home(home) && r@ == user_expanded(path@, home_text(home)),
        !(path@.len() > 0 && path@[0] == '~') ==> r@ == path@,
{
    let p = chars_of(path);
    if p.len() > 0 && p[0] == '~' {
        let home = home_dir_string();
        expand_user_with(path, home.as_str())
    } else {
        let r = String::from_str(path);
        assert(valid_home(None) && r@ == user_expanded(path@, home_text(None)));
        r
    }
}

} // verus!
