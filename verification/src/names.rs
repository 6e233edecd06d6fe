//! Names: of jobs, of stored uploads and of the files a job leaves.
use vstd::prelude::*;
use vstd::utf8::encode_utf8;

use crate::text::{ascii_lower, chars_of, is_digit, text_of};

verus! {

broadcast use vstd::string::group_string_axioms;

// Safe file names.

/// Characters that a file name cannot have on some platform.
pub open spec fn is_illegal(c: char) -> bool {
    c == '/' || c == '?' || c == '<' || c == '>' || c == '\\' || c == ':' || c == '*' || c == '|' || c == '"'
}

/// The control characters below the space and above the ASCII range.
pub open spec fn is_control(c: char) -> bool {
    c <= '\u{1f}' || '\u{80}' <= c <= '\u{9f}'
}

/// `s` without its illegal and control characters.
pub open spec fn legal_part(s: Seq<char>) -> Seq<char> {
    s.filter(|c: char| !is_illegal(c) && !is_control(c))
}

/// `s`, or nothing where it holds dots only.
pub open spec fn unless_dots(s: Seq<char>) -> Seq<char> {
    if forall|i: int| 0 <= i < s.len() ==> #[trigger] s[i] == '.' {
        Seq::empty()
    } else {
        s
    }
}

/// The longest start of `s` that takes at most 255 bytes.
pub open spec fn is_truncation(r: Seq<char>, s: Seq<char>) -> bool {
    &&& r.len() <= s.len()
    &&& r == s.take(r.len() as int)
    &&& encode_utf8(r).len() <= 255
    &&& r.len() < s.len() ==> encode_utf8(s.take(r.len() as int + 1)).len() > 255
}

/// What stands before the first dot.
pub open spec fn before_dot(s: Seq<char>) -> Seq<char>
    decreases s.len(),
{
    if s.len() == 0 || s[0] == '.' {
        Seq::empty()
    } else {
        seq![s[0]] + before_dot(s.drop_first())
    }
}

/// The names of devices on Windows.
pub open spec fn is_device(s: Seq<char>) -> bool {
    let l = ascii_lower(s);
    ||| l == "con"@ || l == "prn"@ || l == "aux"@ || l == "nul"@
    ||| l.len() == 4 && (l.take(3) == "com"@ || l.take(3) == "lpt"@) && is_digit(l[3])
}

/// A name that Windows treats in a way of its own: a device, or with a dot or space at its end.
pub open spec fn is_special_on_windows(s: Seq<char>) -> bool {
    ||| s.len() > 0 && (s.last() == '.' || s.last() == ' ')
    ||| is_device(before_dot(s))
}

/// A name that stays in the directory it is joined to.
pub open spec fn is_safe(r: Seq<char>) -> bool {
    &&& forall|i: int| 0 <= i < r.len() ==> !is_illegal(#[trigger] r[i]) && !is_control(r[i])
    &&& r != "."@
    &&& r != ".."@
    &&& encode_utf8(r).len() <= 255
}

/// `s` without the dots and spaces it ends with.
pub open spec fn trailing_removed(s: Seq<char>) -> Seq<char>
    decreases s.len(),
{
    if s.len() > 0 && (s.last() == '.' || s.last() == ' ') {
        trailing_removed(s.drop_last())
    } else {
        s
    }
}

/// What is left of a name on Windows: nothing of a device, and no dots and spaces at the end.
pub open spec fn windows_part(s: Seq<char>) -> Seq<char> {
    if is_device(before_dot(s)) {
        Seq::empty()
    } else {
        trailing_removed(s)
    }
}

/// `r` is what `name` is cleaned to: a safe name, which is the legal part of `name`, unless it is
/// but dots, cut to the longest start that fits a file name. On Windows it is what Windows leaves
/// of that part, cut in the same way.
pub open spec fn is_cleaned(name: Seq<char>, r: Seq<char>) -> bool {
    let clean = unless_dots(legal_part(name));
    &&& is_safe(r)
    &&& is_truncation(r, clean) || is_truncation(r, windows_part(clean))
}

/// `sanitize_filename::sanitize`: takes out illegal and control characters and names of dots only,
/// on Windows also device names and the dots and spaces at the end, and cuts to 255 bytes. Which
/// of the two it is depends on the platform that the program is built for.
#[verifier::external_body]
pub(crate) fn sanitize(name: &str) -> (r: String)
    ensures
        is_cleaned(name@, r@),
{
    sanitize_filename::sanitize(name)
}

// Job ids.

pub open spec fn is_hex_digit(c: char) -> bool {
    is_digit(c) || 'a' <= c <= 'f'
}

/// A version 4 UUID in groups of 8, 4, 4, 4 and 12 lower-case hexadecimal digits.
pub open spec fn is_job_id(s: Seq<char>) -> bool {
    &&& s.len() == 36
    &&& s[8] == '-' && s[13] == '-' && s[18] == '-' && s[23] == '-'
    &&& forall|i: int|
        0 <= i < 36 && i != 8 && i != 13 && i != 18 && i != 23 ==> is_hex_digit(#[trigger] s[i])
    &&& s[14] == '4'
    &&& s[19] == '8' || s[19] == '9' || s[19] == 'a' || s[19] == 'b'
}

/// `uuid::Uuid::new_v4`, written out: a random version 4 UUID, another one at each call. It
/// relies on the operating system's source of random numbers.
#[verifier::external_body]
pub(crate) fn new_job_id() -> (r: String)
    ensures
        is_job_id(r@),
{
    uuid::Uuid::new_v4().to_string()
}

/// The place of the first hyphen of `id` at or after `from`, or its length.
pub open spec fn first_hyphen(id: Seq<char>, from: int) -> int
    decreases id.len() - from,
{
    if from < 0 || from >= id.len() {
        id.len() as int
    } else if id[from] == '-' {
        from
    } else {
        first_hyphen(id, from + 1)
    }
}

/// The first group of a job's id: what stands before the first hyphen.
pub open spec fn job_stem(id: Seq<char>) -> Seq<char> {
    id.take(first_hyphen(id, 0))
}

/// Takes the first group of a job's id.
fn stem_of(id: &str) -> (r: String)
    ensures
        r@ == job_stem(id@),
{
    let chars = chars_of(id);
    let mut i: usize = 0;
    while i < chars.len() && chars[i] != '-'
        invariant
            i <= chars@.len(),
            chars@ == id@,
            first_hyphen(id@, 0) == first_hyphen(id@, i as int),
        decreases chars@.len() - i,
    {
        i = i + 1;
    }
    assert(chars@.subrange(0, i as int) =~= job_stem(id@));
    text_of(&chars, 0, i)
}

// The files of a job.

/// The name of the clean JSON file of a job.
pub open spec fn json_name(id: Seq<char>) -> Seq<char> {
    job_stem(id) + "_clean.json"@
}

/// The name of the clean worksheet of a job.
pub open spec fn xlsx_name(id: Seq<char>) -> Seq<char> {
    job_stem(id) + "_clean.xlsx"@
}

/// The name under which an uploaded file is kept.
pub open spec fn stored_name(id: Seq<char>, file_name: Seq<char>) -> Seq<char> {
    id + "_"@ + file_name
}

/// Makes the name of the clean JSON file of a job.
pub fn json_file_name(id: &str) -> (r: String)
    ensures
        r@ == json_name(id@),
{
    let mut r = stem_of(id);
    r.append("_clean.json");
    r
}

/// Makes the name of the clean worksheet of a job.
pub fn xlsx_file_name(id: &str) -> (r: String)
    ensures
        r@ == xlsx_name(id@),
{
    let mut r = stem_of(id);
    r.append("_clean.xlsx");
    r
}

/// Makes the name under which an uploaded file is kept.
pub fn stored_file_name(id: &str, file_name: &str) -> (r: String)
    ensures
        r@ == stored_name(id@, file_name@),
{
    let mut r = id.to_string();
    r.append("_");
    r.append(file_name);
    r
}

// Laws.

/// Where every character is legal, the legal part is the whole.
proof fn lemma_all_legal(s: Seq<char>)
    requires
        forall|i: int| 0 <= i < s.len() ==> !is_illegal(#[trigger] s[i]) && !is_control(s[i]),
    ensures
        legal_part(s) == s,
    decreases s.len(),
{
    reveal(Seq::filter);
    if s.len() > 0 {
        let front = s.drop_last();
        assert forall|i: int| 0 <= i < front.len() implies !is_illegal(#[trigger] front[i]) && !is_control(front[i]) by {
            assert(front[i] == s[i]);
        }
        lemma_all_legal(front);
        assert(s[s.len() - 1] == s.last());
        assert(front.push(s.last()) =~= s);
    }
}

/// The start of a text takes no more bytes than the text.
proof fn lemma_start_is_no_longer(s: Seq<char>, n: int)
    requires
        0 <= n <= s.len(),
    ensures
        encode_utf8(s.take(n)).len() <= encode_utf8(s).len(),
    decreases n,
{
    if n > 0 {
        lemma_start_is_no_longer(s.drop_first(), n - 1);
        assert(s.take(n).drop_first() =~= s.drop_first().take(n - 1));
    }
}

/// A name that is neither a device nor ends in a dot or a space is cleaned alike on every platform.
pub proof fn ordinary_names_are_cleaned_alike(name: Seq<char>, r: Seq<char>)
    requires
        !is_special_on_windows(unless_dots(legal_part(name))),
        is_cleaned(name, r),
    ensures
        is_truncation(r, unless_dots(legal_part(name))),
{
}

/// A name that needs no cleaning is cleaned to itself.
pub proof fn clean_names_stay(name: Seq<char>, r: Seq<char>)
    requires
        is_safe(name),
        unless_dots(name) == name,
        !is_special_on_windows(name),
        is_cleaned(name, r),
    ensures
        r == name,
{
    lemma_all_legal(name);
    ordinary_names_are_cleaned_alike(name, r);
    if r.len() < name.len() {
        lemma_start_is_no_longer(name, r.len() as int + 1);
    }
    assert(name.take(name.len() as int) =~= name);
}

/// What stands before the first dot of a text without dots is the text.
proof fn lemma_before_dot(s: Seq<char>, n: int)
    requires
        0 <= n <= s.len(),
        forall|i: int| 0 <= i < n ==> #[trigger] s[i] != '.',
        n < s.len() ==> s[n] == '.',
    ensures
        before_dot(s) == s.take(n),
    decreases n,
{
    if n == 0 {
        assert(s.take(0) =~= Seq::empty());
    } else {
        let rest = s.drop_first();
        assert forall|i: int| 0 <= i < n - 1 implies #[trigger] rest[i] != '.' by {
            assert(s[i + 1] != '.');
        }
        lemma_before_dot(rest, n - 1);
        assert(s[0] != '.');
        assert(s.take(n) =~= seq![s[0]] + rest.take(n - 1));
    }
}

/// A name of more than four characters is no device.
proof fn lemma_long_names_are_no_devices(s: Seq<char>)
    requires
        s.len() > 4,
    ensures
        !is_device(s),
{
    reveal_strlit("con");
    reveal_strlit("prn");
    reveal_strlit("aux");
    reveal_strlit("nul");
    assert(ascii_lower(s).len() == s.len());
}

/// A job's id is cleaned to itself.
pub proof fn job_ids_stay(id: Seq<char>, r: Seq<char>)
    requires
        is_job_id(id),
        is_cleaned(id, r),
    ensures
        r == id,
{
    reveal_strlit(".");
    reveal_strlit("..");
    assert forall|i: int| 0 <= i < id.len() implies is_hex_digit(#[trigger] id[i]) || id[i] == '-' by {}
    assert(vstd::utf8::is_ascii_chars(id));
    vstd::utf8::is_ascii_chars_encode_utf8(id);
    assert(is_hex_digit(id[0]) && is_hex_digit(id[35]));
    lemma_before_dot(id, 36);
    assert(id.take(36) =~= id);
    lemma_long_names_are_no_devices(id);
    assert(id.last() == id[35]);
    clean_names_stay(id, r);
}

/// The first group of a job's id is its first eight digits.
pub proof fn the_stem_is_the_first_group(id: Seq<char>)
    requires
        is_job_id(id),
    ensures
        job_stem(id) == id.take(8),
{
    assert forall|i: int| 0 <= i < 8 implies #[trigger] id[i] != '-' by {
        assert(is_hex_digit(id[i]));
    }
    reveal_with_fuel(first_hyphen, 10);
}

/// A name of a job's first group and one of the two endings is safe and plain.
proof fn lemma_output_names(id: Seq<char>, ending: Seq<char>)
    requires
        is_job_id(id),
        ending == "_clean.json"@ || ending == "_clean.xlsx"@,
    ensures
        is_safe(job_stem(id) + ending),
        unless_dots(job_stem(id) + ending) == job_stem(id) + ending,
        !is_special_on_windows(job_stem(id) + ending),
{
    reveal_strlit(".");
    reveal_strlit("..");
    reveal_strlit("_clean.json");
    reveal_strlit("_clean.xlsx");
    the_stem_is_the_first_group(id);
    let name = job_stem(id) + ending;
    assert forall|i: int| 0 <= i < 8 implies is_hex_digit(#[trigger] name[i]) by {
        assert(name[i] == id[i]);
    }
    assert(vstd::utf8::is_ascii_chars(name));
    vstd::utf8::is_ascii_chars_encode_utf8(name);
    assert(is_hex_digit(name[0]));
    lemma_before_dot(name, 14);
    lemma_long_names_are_no_devices(name.take(14));
    assert(name.last() == name[name.len() - 1]);
}

/// The names of the files that a job leaves are cleaned to themselves, so that what a job reports
/// is what can be asked for.
pub proof fn output_names_stay(id: Seq<char>, r: Seq<char>)
    requires
        is_job_id(id),
    ensures
        is_cleaned(json_name(id), r) ==> r == json_name(id),
        is_cleaned(xlsx_name(id), r) ==> r == xlsx_name(id),
{
    lemma_output_names(id, "_clean.json"@);
    lemma_output_names(id, "_clean.xlsx"@);
    if is_cleaned(json_name(id), r) {
        clean_names_stay(json_name(id), r);
    }
    if is_cleaned(xlsx_name(id), r) {
        clean_names_stay(xlsx_name(id), r);
    }
}

/// The two files of a job have different names.
pub proof fn the_two_files_differ(id: Seq<char>)
    ensures
        json_name(id) != xlsx_name(id),
{
    reveal_strlit("_clean.json");
    reveal_strlit("_clean.xlsx");
    assert(json_name(id).last() != xlsx_name(id).last());
}

/// The first hyphen stands at or behind where it is looked for, and none stands between.
proof fn lemma_first_hyphen(id: Seq<char>, from: int)
    requires
        0 <= from <= id.len(),
    ensures
        from <= first_hyphen(id, from) <= id.len(),
        forall|i: int| from <= i < first_hyphen(id, from) ==> #[trigger] id[i] != '-',
        first_hyphen(id, from) < id.len() ==> id[first_hyphen(id, from)] == '-',
    decreases id.len() - from,
{
    if from < id.len() && id[from] != '-' {
        lemma_first_hyphen(id, from + 1);
    }
}

/// The files of a job are named by what stands before the first hyphen of its id, `n` characters,
/// and by their endings.
pub proof fn files_are_named_by_the_first_group(id: Seq<char>, n: int)
    requires
        0 <= n <= id.len(),
        forall|i: int| 0 <= i < n ==> #[trigger] id[i] != '-',
        n < id.len() ==> id[n] == '-',
    ensures
        json_name(id) == id.take(n) + seq!['_', 'c', 'l', 'e', 'a', 'n', '.', 'j', 's', 'o', 'n'],
        xlsx_name(id) == id.take(n) + seq!['_', 'c', 'l', 'e', 'a', 'n', '.', 'x', 'l', 's', 'x'],
{
    reveal_strlit("_clean.json");
    reveal_strlit("_clean.xlsx");
    lemma_first_hyphen(id, 0);
    let k = first_hyphen(id, 0);
    if k < n {
        assert(id[k] == '-');
    }
    if n < k {
        assert(id[n] != '-');
    }
    assert("_clean.json"@ =~= seq!['_', 'c', 'l', 'e', 'a', 'n', '.', 'j', 's', 'o', 'n']);
    assert("_clean.xlsx"@ =~= seq!['_', 'c', 'l', 'e', 'a', 'n', '.', 'x', 'l', 's', 'x']);
}

/// An upload is kept under the job's id, an underscore and its own name, and under nothing else.
pub proof fn uploads_are_kept_under_id_and_name(id: Seq<char>, file: Seq<char>)
    ensures
        stored_name(id, file) == id + seq!['_'] + file,
{
    reveal_strlit("_");
    assert("_"@ =~= seq!['_']);
}

/// Cleaning goes character by character: those that no file name can have on some platform go, with
/// the control characters, and every other stays in its place.
pub proof fn cleaning_takes_out_illegal_characters(s: Seq<char>, c: char)
    ensures
        legal_part(Seq::empty()) == Seq::<char>::empty(),
        c == '/' || c == '?' || c == '<' || c == '>' || c == '\\' || c == ':' || c == '*' || c == '|' || c == '"' || c
            <= '\u{1f}' || '\u{80}' <= c <= '\u{9f}' ==> legal_part(s.push(c)) == legal_part(s),
        !(c == '/' || c == '?' || c == '<' || c == '>' || c == '\\' || c == ':' || c == '*' || c == '|' || c == '"' || c
            <= '\u{1f}' || '\u{80}' <= c <= '\u{9f}') ==> legal_part(s.push(c)) == legal_part(s).push(c),
{
    reveal(Seq::filter);
    assert(s.push(c).drop_last() =~= s);
}

/// A name with more than four characters before its first dot, at `n`, that ends in neither a dot
/// nor a space and takes no more than 255 bytes is cleaned to its legal part, on every platform.
pub proof fn ordinary_names_are_cleaned_to_their_legal_part(name: Seq<char>, r: Seq<char>, n: int)
    requires
        is_cleaned(name, r),
        4 < n <= legal_part(name).len(),
        forall|i: int| 0 <= i < n ==> #[trigger] legal_part(name)[i] != '.',
        n < legal_part(name).len() ==> legal_part(name)[n] == '.',
        legal_part(name).last() != '.',
        legal_part(name).last() != ' ',
        encode_utf8(legal_part(name)).len() <= 255,
    ensures
        r == legal_part(name),
{
    let clean = legal_part(name);
    assert(clean[0] != '.');
    assert(unless_dots(clean) == clean);
    lemma_before_dot(clean, n);
    lemma_long_names_are_no_devices(clean.take(n));
    ordinary_names_are_cleaned_alike(name, r);
    if r.len() < clean.len() {
        lemma_start_is_no_longer(clean, r.len() as int + 1);
    }
    assert(clean.take(clean.len() as int) =~= clean);
}

/// A cleaned name holds no character that leads out of its directory, names none, and fits.
pub proof fn cleaned_names_are_safe(name: Seq<char>, r: Seq<char>, i: int)
    requires
        is_cleaned(name, r),
    ensures
        0 <= i < r.len() ==> r[i] != '/' && r[i] != '\\' && r[i] != ':' && r[i] > '\u{1f}',
        r != seq!['.'],
        r != seq!['.', '.'],
        encode_utf8(r).len() <= 255,
{
    reveal_strlit(".");
    reveal_strlit("..");
    assert("."@ =~= seq!['.']);
    assert(".."@ =~= seq!['.', '.']);
    if 0 <= i < r.len() {
        assert(!is_illegal(r[i]) && !is_control(r[i]));
    }
}

/// A job's id is five groups of small hexadecimal digits with hyphens between them.
pub proof fn job_ids_have_five_groups(id: Seq<char>, i: int)
    requires
        is_job_id(id),
    ensures
        id.len() == 36,
        i == 8 || i == 13 || i == 18 || i == 23 ==> id[i] == '-',
        0 <= i < 36 && i != 8 && i != 13 && i != 18 && i != 23 ==> '0' <= id[i] <= '9' || 'a' <= id[i] <= 'f',
        id[14] == '4',
{
    if 0 <= i < 36 && i != 8 && i != 13 && i != 18 && i != 23 {
        assert(is_hex_digit(id[i]));
    }
}

} // verus!
