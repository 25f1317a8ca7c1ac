use vstd::prelude::*;

use crate::store::{Row, SavedPath, StoreError};

verus! {

/// The final component of `path`, as `std::path::Path::file_name` reads it.
pub uninterp spec fn file_name_of(path: Seq<char>) -> Option<Seq<char>>;

/// Relies on `std::path::Path::file_name`: the final component of a path, if
/// it has one. A component of a `&str` path is valid UTF-8, so `to_str`
/// always succeeds on it.
#[verifier::external_body]
fn file_name(path: &str) -> (r: Option<String>)
    ensures
        match r {
            Some(s) => file_name_of(path@) == Some(s@),
            None => file_name_of(path@) is None,
        },
{
    std::path::Path::new(path).file_name().and_then(|n| n.to_str()).map(|n| n.to_string())
}

/// The name under which `save` stores the working directory `cwd`: the name
/// given, else the directory's final component; `None` when neither exists.
pub fn save_name(name: Option<&str>, cwd: &str) -> (r: Option<String>)
    ensures
        match name {
            Some(n) => r matches Some(s) && s@ == n@,
            None => match r {
                Some(s) => file_name_of(cwd@) == Some(s@),
                None => file_name_of(cwd@) is None,
            },
        },
{
    match name {
        Some(n) => Some(n.to_owned()),
        None => file_name(cwd),
    }
}

/// The directory, under the home directory `home`, that holds the database.
pub fn db_dir(home: &str) -> (r: String)
    ensures
        r@ == home@ + "/.config/jumper"@,
{
    let mut s = home.to_owned();
    s.append("/.config/jumper");
    s
}

/// The database file under the home directory `home`.
pub fn db_path(home: &str) -> (r: String)
    ensures
        r@ == home@ + "/.config/jumper/db.sqlite"@,
{
    let mut s = home.to_owned();
    s.append("/.config/jumper/db.sqlite");
    s
}

/// The message shown when `name` is already taken.
pub fn duplicate_name_message(name: &str) -> (r: String)
    ensures
        r@ == "Name '"@ + name@ + "' is already used for another path."@,
{
    let mut s = String::from_str("Name '");
    s.append(name);
    s.append("' is already used for another path.");
    s
}

/// The message shown when no bookmark is called `name`.
pub fn not_found_message(name: &str) -> (r: String)
    ensures
        r@ == "Path '"@ + name@ + "' not found."@,
{
    let mut s = String::from_str("Path '");
    s.append(name);
    s.append("' not found.");
    s
}

/// What `save` reports for the store's answer `r` on `name`: nothing on
/// success, the message of [`duplicate_name_message`] when the name is taken
/// (no failure: the user can pick another name), any other error unchanged.
pub fn save_report(name: &str, r: Result<(), StoreError>) -> (out: Result<Option<String>, StoreError>)
    ensures
        match r {
            Ok(()) => out matches Ok(None),
            Err(StoreError::DuplicateName) => out matches Ok(Some(m)) && m@ == "Name '"@ + name@
                + "' is already used for another path."@,
            Err(e) => out == Err::<Option<String>, StoreError>(e),
        },
{
    match r {
        Ok(()) => Ok(None),
        Err(StoreError::DuplicateName) => Ok(Some(duplicate_name_message(name))),
        Err(e) => Err(e),
    }
}

/// What `get` reports for the store's answer `r` on `name`: the path to show,
/// or the text of the failure, which for a missing name is the message of
/// [`not_found_message`].
pub fn get_report(name: &str, r: Result<String, StoreError>) -> (out: Result<String, String>)
    ensures
        match r {
            Ok(p) => out matches Ok(q) && q@ == p@,
            Err(StoreError::NotFound) => out matches Err(m) && m@ == "Path '"@ + name@
                + "' not found."@,
            Err(e) => out matches Err(m) && m@ == e.description(),
        },
{
    match r {
        Ok(p) => Ok(p),
        Err(StoreError::NotFound) => Err(not_found_message(name)),
        Err(e) => Err(e.describe()),
    }
}

/// The widest name among `rows`, in characters; 0 when there are none.
pub open spec fn max_name_len(rows: Seq<Row>) -> nat
    decreases rows.len(),
{
    if rows.len() == 0 {
        0
    } else {
        let m = max_name_len(rows.drop_last());
        if rows.last().0.len() > m {
            rows.last().0.len()
        } else {
            m
        }
    }
}

/// `n` spaces.
pub open spec fn spaces(n: nat) -> Seq<char> {
    Seq::new(n, |_i: int| ' ')
}

/// One line of the listing: the name left-justified to `width` characters,
/// then ` | ` and the path.
pub open spec fn list_line(b: Row, width: nat) -> Seq<char> {
    let pad: nat = if width > b.0.len() {
        (width - b.0.len()) as nat
    } else {
        0
    };
    b.0 + spaces(pad) + " | "@ + b.1
}

/// `name` followed by spaces up to `width` characters.
fn pad_right(name: &String, width: usize) -> (r: String)
    ensures
        r@ == name@ + spaces(
            if width > name@.len() {
                (width - name@.len()) as nat
            } else {
                0
            },
        ),
{
    let len = name.as_str().unicode_len();
    let mut s = name.clone();
    let mut k: usize = len;
    proof {
        reveal_strlit(" ");
        assert(s@ =~= name@ + spaces(0));
    }
    while k < width
        invariant
            len == name@.len(),
            len <= k <= width || (k == len && width < len),
            s@ == name@ + spaces((k - len) as nat),
        decreases width - k,
    {
        s.append(" ");
        proof {
            reveal_strlit(" ");
            assert(s@ =~= name@ + spaces((k + 1 - len) as nat));
        }
        k = k + 1;
    }
    s
}

/// The listing of `paths`: one line each, in order, names padded to the
/// widest name.
pub fn list_lines(paths: &Vec<SavedPath>) -> (r: Vec<String>)
    ensures
        r@.len() == paths@.len(),
        forall|i: int|
            0 <= i < r@.len() ==> #[trigger] r@[i]@ == list_line(
                paths@[i]@,
                max_name_len(paths@.map_values(|b: SavedPath| b@)),
            ),
{
    let ghost rows = paths@.map_values(|b: SavedPath| b@);
    let mut width: usize = 0;
    let mut i: usize = 0;
    while i < paths.len()
        invariant
            i <= paths@.len(),
            rows == paths@.map_values(|b: SavedPath| b@),
            width as nat == max_name_len(rows.subrange(0, i as int)),
        decreases paths.len() - i,
    {
        let n = paths[i].name.as_str().unicode_len();
        proof {
            assert(rows.subrange(0, i + 1).drop_last() =~= rows.subrange(0, i as int));
        }
        if n > width {
            width = n;
        }
        i = i + 1;
    }
    assert(rows.subrange(0, paths@.len() as int) =~= rows);
    let mut out: Vec<String> = Vec::new();
    let mut j: usize = 0;
    while j < paths.len()
        invariant
            j <= paths@.len(),
            out@.len() == j,
            width as nat == max_name_len(paths@.map_values(|b: SavedPath| b@)),
            forall|k: int|
                0 <= k < j ==> #[trigger] out@[k]@ == list_line(paths@[k]@, width as nat),
        decreases paths.len() - j,
    {
        let mut line = pad_right(&paths[j].name, width);
        line.append(" | ");
        line.append(paths[j].path.as_str());
        out.push(line);
        j = j + 1;
    }
    out
}

} // verus!
