use vstd::prelude::*;
use vstd::string::{StrSliceExecFns, StringExecFns};

use crate::load_table_task::texts;

verus! {

/// `std::path::MAIN_SEPARATOR_STR`: the separator of path components of
/// the platform, "/" on Unix and "\" on Windows.
#[verifier::external_body]
fn main_separator_str() -> (r: &'static str)
    ensures
        r@ == seq!['/'] || r@ == seq!['\\'],
{
    std::path::MAIN_SEPARATOR_STR
}

/// `s` ends with the character `c`.
pub open spec fn ends_with_char(s: Seq<char>, c: char) -> bool {
    s.len() > 0 && s.last() == c
}

/// The file of table `table_name` in directory `table_path`: the path, a
/// separator unless the path ends with one, the name, ".sqlite".
pub open spec fn table_file_name(table_path: Seq<char>, separator: char, table_name: Seq<char>) -> Seq<char> {
    table_path + (if ends_with_char(table_path, separator) {
        Seq::empty()
    } else {
        seq![separator]
    }) + table_name + ".sqlite"@
}

/// The SQLite file of table `table_name` in directory `table_path`, with the
/// separator of the platform.
pub fn compile_sql_table_file_name(table_path: &str, table_name: &str) -> (r: String)
    ensures
        exists|separator: char|
            (separator == '/' || separator == '\\') && r@ == table_file_name(
                table_path@,
                separator,
                table_name@,
            ),
{
    let separator = main_separator_str();
    let separator_char = separator.get_char(0);
    let mut result = table_path.to_owned();
    let n = table_path.unicode_len();
    let ends_with_separator = n > 0 && table_path.get_char(n - 1) == separator_char;
    if !ends_with_separator {
        result.append(separator);
    }
    result.append(table_name);
    result.append(".sqlite");
    assert(separator@ =~= seq![separator_char]);
    assert(result@ =~= table_file_name(table_path@, separator_char, table_name@));
    result
}

/// How many times `c` occurs in `s`.
pub open spec fn count_char(s: Seq<char>, c: char) -> nat
    decreases s.len(),
{
    if s.len() == 0 {
        0
    } else {
        count_char(s.drop_last(), c) + if s.last() == c {
            1nat
        } else {
            0nat
        }
    }
}

/// The position of the last `c` in `s`, or -1 when there is none.
pub open spec fn last_index_of_char(s: Seq<char>, c: char) -> int
    decreases s.len(),
{
    if s.len() == 0 {
        -1
    } else if s.last() == c {
        s.len() - 1
    } else {
        last_index_of_char(s.drop_last(), c)
    }
}

/// The table name in a path of the form "/logs/table/{name}": the last of
/// exactly four '/'-separated segments.
pub open spec fn table_name_in_path(path: Seq<char>) -> Option<Seq<char>> {
    if count_char(path, '/') == 3 {
        Some(path.subrange(last_index_of_char(path, '/') + 1, path.len() as int))
    } else {
        None
    }
}

proof fn lemma_last_index_bounds(s: Seq<char>, c: char)
    ensures
        -1 <= last_index_of_char(s, c) < s.len(),
    decreases s.len(),
{
    if s.len() > 0 {
        lemma_last_index_bounds(s.drop_last(), c);
    }
}

/// The table name of a request path: the last segment when the path has
/// exactly four '/'-separated segments.
pub fn get_table_name(path: &str) -> (r: Option<&str>)
    ensures
        match r {
            Some(t) => table_name_in_path(path@) == Some(t@),
            None => table_name_in_path(path@) is None,
        },
{
    let n = path.unicode_len();
    let mut amount: usize = 0;
    let mut last: usize = 0;
    let mut found = false;
    let mut i: usize = 0;
    while i < n
        invariant
            n == path@.len(),
            i <= n,
            amount == count_char(path@.take(i as int), '/'),
            found == (last_index_of_char(path@.take(i as int), '/') >= 0),
            found ==> last == last_index_of_char(path@.take(i as int), '/'),
            amount <= i,
        decreases n - i,
    {
        assert(path@.take(i + 1).drop_last() =~= path@.take(i as int));
        if path.get_char(i) == '/' {
            amount = amount + 1;
            last = i;
            found = true;
        }
        i = i + 1;
    }
    assert(path@.take(n as int) =~= path@);
    if amount == 3 {
        proof {
            lemma_last_index_bounds(path@, '/');
            if !found {
                assert(count_char(path@, '/') == 0) by {
                    lemma_no_last_no_count(path@, '/');
                }
            }
        }
        let start = if found { last + 1 } else { 0 };
        Some(path.substring_char(start, n))
    } else {
        None
    }
}

proof fn lemma_no_last_no_count(s: Seq<char>, c: char)
    requires
        last_index_of_char(s, c) < 0,
    ensures
        count_char(s, c) == 0,
    decreases s.len(),
{
    if s.len() > 0 {
        lemma_no_last_no_count(s.drop_last(), c);
    }
}

/// The extension of the SQLite files of tables.
pub const DB_FILE_EXTENSION: &'static str = ".sqlite";

/// `s` ends with `suffix`.
pub open spec fn ends_with(s: Seq<char>, suffix: Seq<char>) -> bool {
    suffix.len() <= s.len() && s.subrange(s.len() - suffix.len(), s.len() as int) == suffix
}

/// Whether `s` ends with `suffix`.
pub fn ends_with_str(s: &str, suffix: &str) -> (r: bool)
    ensures
        r == ends_with(s@, suffix@),
{
    let n = s.unicode_len();
    let m = suffix.unicode_len();
    if m > n {
        return false;
    }
    let mut j: usize = 0;
    while j < m
        invariant
            n == s@.len(),
            m == suffix@.len(),
            m <= n,
            j <= m,
            forall|k: int| 0 <= k < j ==> s@[n - m + k] == suffix@[k],
        decreases m - j,
    {
        if s.get_char(n - m + j) != suffix.get_char(j) {
            assert(s@.subrange(n - m, n as int)[j as int] != suffix@[j as int]);
            return false;
        }
        j = j + 1;
    }
    assert(s@.subrange(n - m, n as int) =~= suffix@);
    true
}

/// The names among `names` that end with the extension of table files, in order.
pub open spec fn db_files(names: Seq<Seq<char>>) -> Seq<Seq<char>>
    decreases names.len(),
{
    if names.len() == 0 {
        Seq::empty()
    } else {
        let rest = db_files(names.drop_last());
        if ends_with(names.last(), DB_FILE_EXTENSION@) {
            rest.push(names.last())
        } else {
            rest
        }
    }
}

/// The names among `names` of SQLite files of tables, in order.
pub fn select_db_files(names: &Vec<String>) -> (r: Vec<String>)
    ensures
        texts(r@) == db_files(texts(names@)),
{
    let mut files: Vec<String> = Vec::new();
    let n = names.len();
    let mut i: usize = 0;
    while i < n
        invariant
            n == names@.len(),
            i <= n,
            texts(files@) == db_files(texts(names@.take(i as int))),
        decreases n - i,
    {
        let ghost before = files@;
        assert(texts(names@.take(i + 1)).drop_last() =~= texts(names@.take(i as int)));
        assert(texts(names@.take(i + 1)).last() == names@[i as int]@);
        if ends_with_str(names[i].as_str(), DB_FILE_EXTENSION) {
            files.push(names[i].clone());
            assert(texts(files@) =~= texts(before).push(names@[i as int]@));
        }
        i = i + 1;
    }
    assert(names@.take(n as int) =~= names@);
    files
}

/// The page of a table's logs: "/logs/table/" and the table's name.
pub open spec fn table_logs_path(table_name: Seq<char>) -> Seq<char> {
    "/logs/table/"@ + table_name
}

proof fn lemma_count_after_plain_suffix(prefix: Seq<char>, name: Seq<char>, c: char)
    requires
        !name.contains(c),
    ensures
        count_char(prefix + name, c) == count_char(prefix, c),
        last_index_of_char(prefix + name, c) == last_index_of_char(prefix, c),
    decreases name.len(),
{
    if name.len() == 0 {
        assert(prefix + name =~= prefix);
    } else {
        assert((prefix + name).drop_last() =~= prefix + name.drop_last());
        assert((prefix + name).last() == name[name.len() - 1]);
        assert(!name.drop_last().contains(c)) by {
            if name.drop_last().contains(c) {
                let j = choose|j: int| 0 <= j < name.drop_last().len() && name.drop_last()[j] == c;
                assert(name[j] == c);
            }
        }
        lemma_count_after_plain_suffix(prefix, name.drop_last(), c);
    }
}

/// The link to a table's logs leads back to the table: for a name without
/// '/', the table name read from "/logs/table/{name}" is the name.
pub proof fn law_table_logs_path_round_trip(table_name: Seq<char>)
    requires
        !table_name.contains('/'),
    ensures
        table_name_in_path(table_logs_path(table_name)) == Some(table_name),
{
    reveal_strlit("/logs/table/");
    let prefix = "/logs/table/"@;
    lemma_count_after_plain_suffix(prefix, table_name, '/');
    assert(count_char(prefix, '/') == 3) by {
        reveal_with_fuel(count_char, 13);
    }
    assert(last_index_of_char(prefix, '/') == 11);
    assert((prefix + table_name).subrange(12, (prefix + table_name).len() as int) =~= table_name);
}

/// The file of a table is one the start-up picks up as a table file: it
/// ends with the extension of table files, whatever the directory and name.
pub proof fn law_table_file_is_a_db_file(table_path: Seq<char>, separator: char, table_name: Seq<char>)
    ensures
        ends_with(table_file_name(table_path, separator, table_name), DB_FILE_EXTENSION@),
{
    let f = table_file_name(table_path, separator, table_name);
    reveal_strlit(".sqlite");
    assert(f.subrange(f.len() - 7, f.len() as int) =~= ".sqlite"@);
}

/// `path` with the separator of the platform appended unless it ends with one.
pub fn with_trailing_separator(path: String) -> (r: String)
    ensures
        exists|separator: char|
            (separator == '/' || separator == '\\') && r@ == path@ + (if ends_with_char(
                path@,
                separator,
            ) {
                Seq::empty()
            } else {
                seq![separator]
            }),
{
    let separator = main_separator_str();
    let separator_char = separator.get_char(0);
    let n = path.as_str().unicode_len();
    let ends_with_separator = n > 0 && path.as_str().get_char(n - 1) == separator_char;
    let mut result = path;
    if !ends_with_separator {
        result.append(separator);
    }
    assert(separator@ =~= seq![separator_char]);
    result
}

} // verus!
