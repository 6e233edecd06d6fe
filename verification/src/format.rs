//! File types, told from the file's extension.
use vstd::prelude::*;

use crate::names::{is_hex_digit, is_illegal, is_job_id, is_safe, stored_name};
use crate::text::ascii_lower;

verus! {

broadcast use vstd::string::group_string_axioms;

/// The kinds of file that are told apart.
#[derive(Debug, Clone, Copy, PartialEq, Eq, Structural)]
pub enum LegacyFormat {
    Dbf,
    Xls,
    Xlsx,
    Csv,
    Tsv,
    Unknown,
}

/// The place of the last `c` in the first `n` characters of `s`, or -1.
pub open spec fn last_index(s: Seq<char>, c: char, n: int) -> int
    decreases n,
{
    if n <= 0 {
        -1
    } else if s[n - 1] == c {
        n - 1
    } else {
        last_index(s, c, n - 1)
    }
}

/// What follows the last slash of a path.
pub open spec fn last_component(path: Seq<char>) -> Seq<char> {
    path.skip(last_index(path, '/', path.len() as int) + 1)
}

/// The last component of a path, where that is the name of something: slashes at the end and
/// components of one dot do not count, and two dots name nothing.
pub open spec fn file_name(path: Seq<char>) -> Option<Seq<char>>
    decreases path.len(),
{
    if path.len() == 0 || path == "."@ || last_component(path) == ".."@ {
        None
    } else if path.last() == '/' || last_component(path) == "."@ {
        file_name(path.drop_last())
    } else {
        Some(last_component(path))
    }
}

/// A path that every platform takes apart at its slashes: without backslashes, without the two
/// slashes at its start that name a server on some platforms, and without a drive but before a
/// slash.
pub open spec fn is_portable(path: Seq<char>) -> bool {
    &&& !path.contains('\\')
    &&& !(path.len() >= 2 && path[0] == '/' && path[1] == '/')
    &&& path.len() >= 2 && path[1] == ':' ==> path.len() >= 3 && path[2] == '/'
}

/// What follows the last dot of a file's name; nothing where there is no dot but one at the start.
pub open spec fn extension_of(name: Seq<char>) -> Option<Seq<char>> {
    let dot = last_index(name, '.', name.len() as int);
    if dot <= 0 {
        None
    } else {
        Some(name.skip(dot + 1))
    }
}

/// The extension of the file that a path leads to.
pub open spec fn path_suffix(path: Seq<char>) -> Option<Seq<char>> {
    match file_name(path) {
        Some(name) => extension_of(name),
        None => None,
    }
}

/// The place of the last slash, backslash or colon of a path, or -1.
pub open spec fn last_separator(path: Seq<char>) -> int {
    let slash = last_index(path, '/', path.len() as int);
    let backslash = last_index(path, '\\', path.len() as int);
    let colon = last_index(path, ':', path.len() as int);
    if slash >= backslash && slash >= colon {
        slash
    } else if backslash >= colon {
        backslash
    } else {
        colon
    }
}

/// A slash or a backslash.
pub open spec fn is_slash(c: char) -> bool {
    c == '/' || c == '\\'
}

/// A path whose extension is plain wherever it is taken apart: it does not start as the name of a
/// server does, and its last dot stands behind every slash, backslash and colon, with a character
/// between them. Two dots alone name nothing.
pub open spec fn ends_plainly(path: Seq<char>) -> bool {
    &&& !(path.len() >= 2 && is_slash(path[0]) && is_slash(path[1]))
    &&& last_index(path, '.', path.len() as int) > last_separator(path) + 1
    &&& path.skip(last_separator(path) + 1) != ".."@
}

/// A path that leads to no file of a known type wherever it is taken apart. What follows its last
/// slash, backslash or colon holds no dot, or is two dots, or, behind a slash, is a name that
/// starts with its only dot.
pub open spec fn ends_untyped(path: Seq<char>) -> bool {
    let separator = last_separator(path);
    let tail = path.skip(separator + 1);
    ||| tail.len() > 0 && !tail.contains('.')
    ||| tail == ".."@
    ||| {
        &&& !(path.len() >= 2 && is_slash(path[0]) && is_slash(path[1]))
        &&& separator >= 0 && path[separator] == '/'
        &&& tail.len() > 1 && last_index(tail, '.', tail.len() as int) == 0
    }
}

/// An extension that stands for no file type: there is none, it is empty, or it reaches over a
/// slash, backslash or colon.
pub open spec fn is_untyped(extension: Option<Seq<char>>) -> bool {
    extension matches Some(e) ==> e.len() == 0 || e.contains('/') || e.contains('\\') || e.contains(':')
}

/// What follows the last dot of a path.
pub open spec fn after_last_dot(path: Seq<char>) -> Seq<char> {
    path.skip(last_index(path, '.', path.len() as int) + 1)
}

/// The text that may be there.
pub open spec fn optional_text(s: Option<String>) -> Option<Seq<char>> {
    match s {
        Some(t) => Some(t@),
        None => None,
    }
}

/// `std::path::Path::extension`: the portion of the file name after its final dot, nothing where
/// there is no file name or no dot in it but one at its start. Stated for portable paths, for those
/// that end plainly or untyped and for those without a dot; what other paths give depends on how
/// the platform takes a path apart.
#[verifier::external_body]
fn path_extension(path: &str) -> (r: Option<String>)
    ensures
        is_portable(path@) ==> optional_text(r) == path_suffix(path@),
        ends_plainly(path@) ==> optional_text(r) == Some(after_last_dot(path@)),
        ends_untyped(path@) ==> is_untyped(optional_text(r)),
        !path@.contains('.') ==> r is None,
{
    std::path::Path::new(path).extension().and_then(|e| e.to_str()).map(String::from)
}

/// The file type that an extension stands for, in whatever ASCII case it is written.
pub open spec fn format_of(extension: Option<Seq<char>>) -> LegacyFormat {
    match extension {
        Some(e) => if ascii_lower(e) == "dbf"@ {
            LegacyFormat::Dbf
        } else if ascii_lower(e) == "xls"@ {
            LegacyFormat::Xls
        } else if ascii_lower(e) == "xlsx"@ {
            LegacyFormat::Xlsx
        } else if ascii_lower(e) == "csv"@ {
            LegacyFormat::Csv
        } else if ascii_lower(e) == "tsv"@ {
            LegacyFormat::Tsv
        } else {
            LegacyFormat::Unknown
        },
        None => LegacyFormat::Unknown,
    }
}

/// Tells the file type that an extension stands for.
pub fn format_of_extension(extension: &Option<String>) -> (r: LegacyFormat)
    ensures
        r == format_of(optional_text(*extension)),
{
    proof {
        lemma_extensions_are_lower_case();
    }
    match extension {
        Some(e) => {
            let e = e.as_str();
            if e.eq_ignore_ascii_case("dbf") {
                LegacyFormat::Dbf
            } else if e.eq_ignore_ascii_case("xls") {
                LegacyFormat::Xls
            } else if e.eq_ignore_ascii_case("xlsx") {
                LegacyFormat::Xlsx
            } else if e.eq_ignore_ascii_case("csv") {
                LegacyFormat::Csv
            } else if e.eq_ignore_ascii_case("tsv") {
                LegacyFormat::Tsv
            } else {
                LegacyFormat::Unknown
            }
        },
        None => LegacyFormat::Unknown,
    }
}

/// The known extensions are their own lower case.
proof fn lemma_extensions_are_lower_case()
    ensures
        ascii_lower("dbf"@) == "dbf"@,
        ascii_lower("xls"@) == "xls"@,
        ascii_lower("xlsx"@) == "xlsx"@,
        ascii_lower("csv"@) == "csv"@,
        ascii_lower("tsv"@) == "tsv"@,
{
    reveal_strlit("dbf");
    reveal_strlit("xls");
    reveal_strlit("xlsx");
    reveal_strlit("csv");
    reveal_strlit("tsv");
    assert(ascii_lower("dbf"@) =~= "dbf"@);
    assert(ascii_lower("xls"@) =~= "xls"@);
    assert(ascii_lower("xlsx"@) =~= "xlsx"@);
    assert(ascii_lower("csv"@) =~= "csv"@);
    assert(ascii_lower("tsv"@) =~= "tsv"@);
}

/// Tells the type of a file from its path. Stated, as the extension is, for portable paths, for
/// those that end plainly or untyped and for those without a dot.
pub fn detect_format(path: &str) -> (r: LegacyFormat)
    ensures
        is_portable(path@) ==> r == format_of(path_suffix(path@)),
        ends_plainly(path@) ==> r == format_of(Some(after_last_dot(path@))),
        ends_untyped(path@) ==> r == LegacyFormat::Unknown,
        !path@.contains('.') ==> r == LegacyFormat::Unknown,
{
    let extension = path_extension(path);
    proof {
        if is_untyped(optional_text(extension)) {
            lemma_untyped_is_unknown(optional_text(extension));
        }
    }
    format_of_extension(&extension)
}

/// An extension that stands for no file type is none of those that do.
proof fn lemma_untyped_is_unknown(extension: Option<Seq<char>>)
    requires
        is_untyped(extension),
    ensures
        format_of(extension) == LegacyFormat::Unknown,
{
    reveal_strlit("dbf");
    reveal_strlit("xls");
    reveal_strlit("xlsx");
    reveal_strlit("csv");
    reveal_strlit("tsv");
    if let Some(e) = extension {
        let l = ascii_lower(e);
        assert(l.len() == e.len());
        if e.len() > 0 {
            let i = choose|i: int| 0 <= i < e.len() && (e[i] == '/' || e[i] == '\\' || e[i] == ':');
            assert(l[i] == e[i]);
        }
    }
}

impl LegacyFormat {
    /// The name under which a file type is reported.
    pub open spec fn file_type(&self) -> Seq<char> {
        match self {
            LegacyFormat::Dbf => "dbf"@,
            LegacyFormat::Xls => "xls"@,
            LegacyFormat::Xlsx => "xlsx"@,
            LegacyFormat::Csv => "csv"@,
            LegacyFormat::Tsv => "tsv"@,
            LegacyFormat::Unknown => "unknown"@,
        }
    }

    /// The name under which a file type is reported.
    pub fn name(&self) -> (r: String)
        ensures
            r@ == self.file_type(),
    {
        match self {
            LegacyFormat::Dbf => "dbf".to_string(),
            LegacyFormat::Xls => "xls".to_string(),
            LegacyFormat::Xlsx => "xlsx".to_string(),
            LegacyFormat::Csv => "csv".to_string(),
            LegacyFormat::Tsv => "tsv".to_string(),
            LegacyFormat::Unknown => "unknown".to_string(),
        }
    }
}

// Laws.

/// The ASCII case of an extension makes no difference.
pub proof fn extensions_ignore_case(e: Seq<char>)
    ensures
        format_of(Some(e)) == format_of(Some(ascii_lower(e))),
{
    assert(ascii_lower(ascii_lower(e)) =~= ascii_lower(e));
}

/// The name under which a file type is reported is the extension that stands for it.
pub proof fn file_types_are_extensions(format: LegacyFormat)
    requires
        format != LegacyFormat::Unknown,
    ensures
        format_of(Some(format.file_type())) == format,
{
    reveal_strlit("dbf");
    reveal_strlit("xls");
    reveal_strlit("xlsx");
    reveal_strlit("csv");
    reveal_strlit("tsv");
    lemma_extensions_are_lower_case();
    assert("dbf"@[0] != "xls"@[0]);
    assert("csv"@[0] != "tsv"@[0]);
    assert("dbf"@[0] != "csv"@[0] && "dbf"@[0] != "tsv"@[0]);
    assert("xls"@[0] != "csv"@[0] && "xls"@[0] != "tsv"@[0]);
    assert("xls"@.len() != "xlsx"@.len());
    assert("xlsx"@.len() != "csv"@.len());
}

/// The last `c` stands among the characters looked at.
proof fn lemma_last_index_bound(s: Seq<char>, c: char, n: int)
    requires
        0 <= n <= s.len(),
    ensures
        -1 <= last_index(s, c, n) < n || n == 0 && last_index(s, c, n) == -1,
    decreases n,
{
    if n > 0 {
        lemma_last_index_bound(s, c, n - 1);
    }
}

/// Where the last `c` of a text in two parts stands.
proof fn lemma_last_index_of_parts(a: Seq<char>, b: Seq<char>, c: char, n: int)
    requires
        0 <= n <= a.len() + b.len(),
    ensures
        n <= a.len() ==> last_index(a + b, c, n) == last_index(a, c, n),
        n > a.len() ==> last_index(a + b, c, n) == (if last_index(b, c, n - a.len()) >= 0 {
            a.len() + last_index(b, c, n - a.len())
        } else {
            last_index(a, c, a.len() as int)
        }),
    decreases n,
{
    if n > 0 {
        lemma_last_index_of_parts(a, b, c, n - 1);
        if n > a.len() {
            assert((a + b)[n - 1] == b[n - 1 - a.len()]);
            assert(last_index(b, c, 0) == -1);
        }
    }
}

/// A text without `c` has no last one.
proof fn lemma_no_last_index(s: Seq<char>, c: char, n: int)
    requires
        0 <= n <= s.len(),
        forall|i: int| 0 <= i < n ==> #[trigger] s[i] != c,
    ensures
        last_index(s, c, n) == -1,
    decreases n,
{
    if n > 0 {
        lemma_no_last_index(s, c, n - 1);
    }
}

/// What follows the last slash of a path is the name that was put behind it.
proof fn lemma_last_component(dir: Seq<char>, name: Seq<char>)
    requires
        !name.contains('/'),
    ensures
        last_component(dir + "/"@ + name) == name,
{
    reveal_strlit("/");
    let head = dir + "/"@;
    let path = head + name;
    assert forall|i: int| 0 <= i < name.len() implies #[trigger] name[i] != '/' by {
        assert(name.contains(name[i]));
    }
    lemma_no_last_index(name, '/', name.len() as int);
    lemma_last_index_of_parts(head, name, '/', path.len() as int);
    assert(head[head.len() - 1] == '/');
    assert(last_index(head, '/', head.len() as int) == head.len() - 1);
    assert(path.skip(head.len() as int) =~= name);
}

/// The directories that a file lies in make no difference to its name.
pub proof fn only_the_file_name_counts(dir: Seq<char>, name: Seq<char>)
    requires
        name.len() > 0,
        name != "."@,
        name != ".."@,
        !name.contains('/'),
    ensures
        file_name(dir + "/"@ + name) == Some(name),
{
    reveal_strlit("/");
    reveal_strlit(".");
    lemma_last_component(dir, name);
    let path = dir + "/"@ + name;
    assert(path.last() == name.last());
    assert(name.contains(name.last())) by {
        assert(name[name.len() - 1] == name.last());
    }
    assert(path.len() > 1);
}

/// Slashes at the end of a path make no difference.
pub proof fn slashes_at_the_end_do_not_count(path: Seq<char>)
    ensures
        file_name(path + "/"@) == file_name(path),
{
    reveal_strlit("/");
    reveal_strlit(".");
    reveal_strlit("..");
    let longer = path + "/"@;
    assert(longer.last() == '/');
    assert(longer.drop_last() =~= path);
    assert(longer != "."@) by {
        assert(longer[longer.len() - 1] == '/');
        assert("."@[0] == '.');
    }
    assert(Seq::<char>::empty().len() == 0 && !Seq::<char>::empty().contains('/'));
    lemma_last_component(path, Seq::empty());
    assert(longer + Seq::<char>::empty() =~= longer);
}

/// The extension of a stored upload, in whatever directory, is what follows the last dot of the
/// file's own name: the job's id before it changes nothing, and a name that starts with its only
/// dot has an extension too.
pub proof fn stored_files_keep_their_type(dir: Seq<char>, id: Seq<char>, file: Seq<char>)
    requires
        dir.len() > 0,
        dir[0] != '/',
        dir.len() > 1 ==> dir[1] != ':',
        !dir.contains('\\'),
        is_job_id(id),
        is_safe(file),
    ensures
        is_portable(dir + "/"@ + stored_name(id, file)),
        path_suffix(dir + "/"@ + stored_name(id, file)) == (if last_index(file, '.', file.len() as int) >= 0 {
            Some(file.skip(last_index(file, '.', file.len() as int) + 1))
        } else {
            None
        }),
{
    reveal_strlit("/");
    reveal_strlit("_");
    reveal_strlit(".");
    reveal_strlit("..");
    let head = id + "_"@;
    let name = stored_name(id, file);
    let path = dir + "/"@ + name;
    assert forall|i: int| 0 <= i < name.len() implies !is_illegal(#[trigger] name[i]) by {
        if i >= 37 {
            assert(name[i] == file[i - 37]);
        } else if i < 36 && i != 8 && i != 13 && i != 18 && i != 23 {
            assert(is_hex_digit(id[i]));
        }
    }
    assert(!name.contains('/')) by {
        assert forall|i: int| 0 <= i < name.len() implies #[trigger] name[i] != '/' by {
            assert(!is_illegal(name[i]));
        }
    }
    only_the_file_name_counts(dir, name);
    assert forall|i: int| 0 <= i < path.len() implies #[trigger] path[i] != '\\' by {
        if i < dir.len() {
            assert(path[i] == dir[i]);
        } else if i > dir.len() {
            assert(path[i] == name[i - dir.len() - 1]);
        }
    }
    assert(path[0] == dir[0]);
    assert(path[1] == (if dir.len() > 1 {
        dir[1]
    } else {
        '/'
    }));
    assert forall|i: int| 0 <= i < head.len() implies #[trigger] head[i] != '.' by {
        if i < 36 && i != 8 && i != 13 && i != 18 && i != 23 {
            assert(is_hex_digit(id[i]));
        }
    }
    lemma_no_last_index(head, '.', head.len() as int);
    lemma_last_index_of_parts(head, file, '.', name.len() as int);
    let dot = last_index(file, '.', file.len() as int);
    lemma_last_index_bound(file, '.', file.len() as int);
    if dot >= 0 {
        assert(name.skip(37 + dot + 1) =~= file.skip(dot + 1));
    }
}

/// The last `c` of a text stands where it does in what is left after a start without it is cut.
proof fn lemma_last_index_of_rest(s: Seq<char>, c: char, from: int, n: int)
    requires
        0 <= from < n <= s.len(),
        last_index(s, c, n) >= from,
    ensures
        last_index(s.skip(from), c, n - from) == last_index(s, c, n) - from,
    decreases n,
{
    if s[n - 1] != c {
        lemma_last_index_bound(s, c, n - 1);
        lemma_last_index_of_rest(s, c, from, n - 1);
    }
    assert(s.skip(from)[n - from - 1] == s[n - 1]);
}

/// Where the last `c` stands, there is one.
proof fn lemma_last_index_holds(s: Seq<char>, c: char, n: int)
    requires
        0 <= n <= s.len(),
        last_index(s, c, n) >= 0,
    ensures
        s[last_index(s, c, n)] == c,
    decreases n,
{
    if n > 0 && s[n - 1] != c {
        lemma_last_index_holds(s, c, n - 1);
    }
}

/// On a portable path that ends plainly, what follows the last dot is the extension of the file
/// that the path leads to.
pub proof fn plain_endings_are_extensions(path: Seq<char>)
    requires
        is_portable(path),
        ends_plainly(path),
    ensures
        path_suffix(path) == Some(after_last_dot(path)),
{
    reveal_strlit(".");
    reveal_strlit("..");
    let n = path.len() as int;
    let slash = last_index(path, '/', n);
    let dot = last_index(path, '.', n);
    let name = last_component(path);
    lemma_last_index_bound(path, '/', n);
    lemma_last_index_bound(path, '\\', n);
    lemma_last_index_bound(path, ':', n);
    lemma_last_index_bound(path, '.', n);
    lemma_last_index_of_rest(path, '.', slash + 1, n);
    assert(name.len() == n - slash - 1);
    assert(name.len() >= 2);
    assert(path.last() != '/') by {
        if path[n - 1] == '/' {
            assert(slash == n - 1);
        }
    }
    assert(path != "."@);
    assert(name != "."@);
    if name == ".."@ {
        let colon = last_index(path, ':', n);
        let backslash = last_index(path, '\\', n);
        if colon > slash {
            lemma_last_index_holds(path, ':', n);
            assert(name[colon - slash - 1] == ':');
        }
        if backslash > slash {
            lemma_last_index_holds(path, '\\', n);
            assert(path.contains(path[backslash]));
        }
        assert(last_separator(path) == slash);
    }
    assert(name.skip(dot - slash - 1 + 1) =~= path.skip(dot + 1));
}

/// A path without a dot leads to no file with an extension.
pub proof fn without_a_dot_there_is_no_extension(path: Seq<char>)
    requires
        !path.contains('.'),
    ensures
        path_suffix(path) is None,
    decreases path.len(),
{
    reveal_strlit(".");
    let name = last_component(path);
    lemma_last_index_bound(path, '/', path.len() as int);
    assert forall|i: int| 0 <= i < name.len() implies #[trigger] name[i] != '.' by {
        assert(name[i] == path[i + last_index(path, '/', path.len() as int) + 1]);
        assert(path.contains(name[i]));
    }
    lemma_no_last_index(name, '.', name.len() as int);
    if path.len() > 0 {
        let front = path.drop_last();
        assert(!front.contains('.')) by {
            if front.contains('.') {
                let i = choose|i: int| 0 <= i < front.len() && front[i] == '.';
                assert(path[i] == '.');
            }
        }
        without_a_dot_there_is_no_extension(front);
    }
}

/// An extension that stands for a file type is, in ASCII lower case, the name of that type.
pub proof fn only_the_known_extensions_are_read(e: Seq<char>)
    requires
        format_of(Some(e)) != LegacyFormat::Unknown,
    ensures
        ascii_lower(e) == format_of(Some(e)).file_type(),
{
}

/// Five extensions stand for a type, each for its own, in whatever ASCII case; no other does.
pub proof fn each_extension_stands_for_its_type(e: Seq<char>)
    ensures
        format_of(Some(e)) == LegacyFormat::Dbf <==> ascii_lower(e) == seq!['d', 'b', 'f'],
        format_of(Some(e)) == LegacyFormat::Xls <==> ascii_lower(e) == seq!['x', 'l', 's'],
        format_of(Some(e)) == LegacyFormat::Xlsx <==> ascii_lower(e) == seq!['x', 'l', 's', 'x'],
        format_of(Some(e)) == LegacyFormat::Csv <==> ascii_lower(e) == seq!['c', 's', 'v'],
        format_of(Some(e)) == LegacyFormat::Tsv <==> ascii_lower(e) == seq!['t', 's', 'v'],
        format_of(None) == LegacyFormat::Unknown,
{
    lemma_literals();
    let dbf = seq!['d', 'b', 'f'];
    let xls = seq!['x', 'l', 's'];
    let xlsx = seq!['x', 'l', 's', 'x'];
    let csv = seq!['c', 's', 'v'];
    let tsv = seq!['t', 's', 'v'];
    assert(dbf[0] == 'd' && xls[0] == 'x' && csv[0] == 'c' && tsv[0] == 't' && xlsx[0] == 'x');
    assert(xls.len() == 3 && xlsx.len() == 4);
}

/// A type is reported under the extension that stands for it.
pub proof fn types_are_named_by_letters(format: LegacyFormat)
    ensures
        format == LegacyFormat::Dbf ==> format.file_type() == seq!['d', 'b', 'f'],
        format == LegacyFormat::Xls ==> format.file_type() == seq!['x', 'l', 's'],
        format == LegacyFormat::Xlsx ==> format.file_type() == seq!['x', 'l', 's', 'x'],
        format == LegacyFormat::Csv ==> format.file_type() == seq!['c', 's', 'v'],
        format == LegacyFormat::Tsv ==> format.file_type() == seq!['t', 's', 'v'],
        format == LegacyFormat::Unknown ==> format.file_type() == seq!['u', 'n', 'k', 'n', 'o', 'w', 'n'],
{
    lemma_literals();
}

/// The letters of the literals.
proof fn lemma_literals()
    ensures
        "dbf"@ == seq!['d', 'b', 'f'],
        "xls"@ == seq!['x', 'l', 's'],
        "xlsx"@ == seq!['x', 'l', 's', 'x'],
        "csv"@ == seq!['c', 's', 'v'],
        "tsv"@ == seq!['t', 's', 'v'],
        "unknown"@ == seq!['u', 'n', 'k', 'n', 'o', 'w', 'n'],
{
    reveal_strlit("dbf");
    reveal_strlit("xls");
    reveal_strlit("xlsx");
    reveal_strlit("csv");
    reveal_strlit("tsv");
    reveal_strlit("unknown");
    assert("dbf"@ =~= seq!['d', 'b', 'f']);
    assert("xls"@ =~= seq!['x', 'l', 's']);
    assert("xlsx"@ =~= seq!['x', 'l', 's', 'x']);
    assert("csv"@ =~= seq!['c', 's', 'v']);
    assert("tsv"@ =~= seq!['t', 's', 'v']);
    assert("unknown"@ =~= seq!['u', 'n', 'k', 'n', 'o', 'w', 'n']);
}

/// A path without backslashes that starts neither as a server's name nor with a drive is portable.
pub proof fn ordinary_paths_are_portable(path: Seq<char>)
    requires
        forall|i: int| 0 <= i < path.len() ==> #[trigger] path[i] != '\\',
        path.len() >= 2 ==> path[1] != ':',
        path.len() >= 2 ==> path[0] != '/' || path[1] != '/',
    ensures
        is_portable(path),
{
}

/// The extension is what follows the last dot of the file's name, in whatever directory it lies, as
/// long as something stands before that dot.
pub proof fn the_last_dot_starts_the_extension(dir: Seq<char>, front: Seq<char>, e: Seq<char>)
    requires
        front.len() > 0,
        forall|i: int| 0 <= i < front.len() ==> #[trigger] front[i] != '/',
        forall|i: int| 0 <= i < e.len() ==> #[trigger] e[i] != '/' && e[i] != '.',
        front != seq!['.'] || e.len() > 0,
    ensures
        path_suffix(front + seq!['.'] + e) == Some(e),
        path_suffix(dir + seq!['/'] + (front + seq!['.'] + e)) == Some(e),
{
    reveal_strlit("/");
    reveal_strlit(".");
    reveal_strlit("..");
    let head = front + seq!['.'];
    let name = head + e;
    assert("/"@ =~= seq!['/']);
    assert forall|i: int| 0 <= i < name.len() implies #[trigger] name[i] != '/' by {
        if i < front.len() {
            assert(name[i] == front[i]);
        } else if i > front.len() {
            assert(name[i] == e[i - front.len() - 1]);
        }
    }
    assert(name != "."@ && name.len() >= 2);
    assert(name != ".."@) by {
        if name == ".."@ {
            assert(name.len() == 2);
            assert(e.len() == 0 && front.len() == 1);
            assert(front[0] == name[0]);
            assert(front =~= seq!['.']);
        }
    }
    only_the_file_name_counts(dir, name);
    lemma_no_last_index(name, '/', name.len() as int);
    assert(name.skip(0) =~= name);
    assert(name.last() == name[name.len() - 1]);
    assert(file_name(name) == Some(name));
    lemma_no_last_index(e, '.', e.len() as int);
    lemma_last_index_of_parts(head, e, '.', name.len() as int);
    assert(head[head.len() - 1] == '.');
    assert(last_index(head, '.', head.len() as int) == front.len());
    assert(last_index(name, '.', name.len() as int) == front.len());
    assert(name.skip(front.len() as int + 1) =~= e);
}

/// A file whose name holds no dot, or one at its start alone, has no extension, and neither have the
/// paths that name no file.
pub proof fn names_without_an_extension(dir: Seq<char>, e: Seq<char>)
    requires
        forall|i: int| 0 <= i < e.len() ==> #[trigger] e[i] != '/' && e[i] != '.',
        e.len() > 0,
    ensures
        path_suffix(e) is None,
        path_suffix(dir + seq!['/'] + e) is None,
        path_suffix(seq!['.'] + e) is None,
        path_suffix(dir + seq!['/'] + (seq!['.'] + e)) is None,
        path_suffix(Seq::empty()) is None,
        path_suffix(seq!['.', '.']) is None,
        path_suffix(dir + seq!['/', '.', '.']) is None,
{
    reveal_strlit("/");
    reveal_strlit(".");
    reveal_strlit("..");
    assert("/"@ =~= seq!['/']);
    assert(".."@ =~= seq!['.', '.']);
    lemma_no_last_index(e, '.', e.len() as int);
    lemma_no_last_index(e, '/', e.len() as int);
    assert(e != "."@ && e != ".."@) by {
        assert(e[0] != '.');
    }
    only_the_file_name_counts(dir, e);
    assert(e.skip(0) =~= e);
    assert(e.last() == e[e.len() - 1]);
    assert(file_name(e) == Some(e));
    let hidden = seq!['.'] + e;
    assert forall|i: int| 0 <= i < hidden.len() implies #[trigger] hidden[i] != '/' by {
        if i > 0 {
            assert(hidden[i] == e[i - 1]);
        }
    }
    assert(hidden.len() >= 2);
    assert(hidden != ".."@) by {
        assert(hidden[1] == e[0]);
    }
    only_the_file_name_counts(dir, hidden);
    lemma_no_last_index(hidden, '/', hidden.len() as int);
    assert(hidden.skip(0) =~= hidden);
    assert(hidden.last() == hidden[hidden.len() - 1]);
    assert(file_name(hidden) == Some(hidden));
    lemma_last_index_of_parts(seq!['.'], e, '.', hidden.len() as int);
    assert(last_index(seq!['.'], '.', 1) == 0);
    let dots = seq!['.', '.'];
    lemma_no_last_index(dots, '/', 2);
    assert(dots.skip(0) =~= dots);
    lemma_last_component(dir, dots);
    assert(dir + seq!['/', '.', '.'] =~= dir + "/"@ + dots);
}

} // verus!
