//! Where the database lives.

use vstd::prelude::*;

verus! {

/// The scheme prefix of a SQLite database URL.
pub open spec fn sqlite_scheme() -> Seq<char> {
    "sqlite:"@
}

/// The file of a database URL: the URL without its `sqlite:` prefix, or
/// the URL itself when it has none.
pub open spec fn database_file_of(url: Seq<char>) -> Seq<char> {
    if url.len() >= 7 && url.subrange(0, 7) == sqlite_scheme() {
        url.subrange(7, url.len() as int)
    } else {
        url
    }
}

/// The path of the database file named by `db_url`.
pub fn database_file(db_url: &str) -> (path: String)
    ensures
        path@ == database_file_of(db_url@),
{
    let scheme = "sqlite:";
    proof {
        reveal_strlit("sqlite:");
    }
    let len = db_url.unicode_len();
    if len < 7 {
        return String::from_str(db_url);
    }
    let mut i: usize = 0;
    while i < 7
        invariant
            len == db_url@.len(),
            len >= 7,
            scheme@ == sqlite_scheme(),
            scheme@.len() == 7,
            i <= 7,
            forall|k: int| 0 <= k < i ==> db_url@[k] == scheme@[k],
        decreases 7 - i,
    {
        if db_url.get_char(i) != scheme.get_char(i) {
            assert(db_url@.subrange(0, 7)[i as int] != sqlite_scheme()[i as int]);
            return String::from_str(db_url);
        }
        i = i + 1;
    }
    assert(db_url@.subrange(0, 7) =~= sqlite_scheme());
    String::from_str(db_url.substring_char(7, len))
}

/// A `sqlite:` URL names the file written after the scheme; any other
/// text names itself.
pub proof fn law_database_file_strips_the_scheme(file: Seq<char>, other: Seq<char>)
    requires
        !(other.len() >= 7 && other.take(7) == "sqlite:"@),
    ensures
        database_file_of("sqlite:"@ + file) == file,
        database_file_of(other) == other,
{
    reveal_strlit("sqlite:");
    let u = "sqlite:"@ + file;
    assert(u.subrange(0, 7) =~= "sqlite:"@);
    assert(u.subrange(7, u.len() as int) =~= file);
    assert(other.len() >= 7 ==> other.subrange(0, 7) =~= other.take(7));
}

} // verus!
