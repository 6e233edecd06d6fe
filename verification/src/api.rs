//! The service: what each request is answered.
use vstd::prelude::*;

use crate::convert::{is_record_of, Conversion, ConversionRecord};
use crate::delimited::texts;
use crate::error::ConvertError;
use crate::format::{file_types_are_extensions, format_of, LegacyFormat};
use crate::names::{
    is_cleaned, is_job_id, is_safe, job_ids_stay, json_file_name, json_name, new_job_id, output_names_stay, sanitize,
    stored_file_name, stored_name, xlsx_file_name, xlsx_name,
};
use crate::text::{chars_of, decimal, decimal_text};

verus! {

broadcast use vstd::string::group_string_axioms;

/// Where uploads land.
pub const UPLOAD_DIR: &'static str = "./tmp/uploads";

/// Where clean files go.
pub const OUTPUT_DIR: &'static str = "./tmp/outputs";

/// The most bytes that an uploaded file may have: 50 MB.
pub const MAX_FILE_SIZE: usize = 50 * 1024 * 1024;

/// The envelope of every JSON answer.
#[derive(Debug, PartialEq)]
pub struct ApiResponse<T> {
    pub success: bool,
    pub message: String,
    pub data: Option<T>,
}

impl<T> ApiResponse<T> {
    /// A success that carries `data`.
    pub fn ok(msg: &str, data: T) -> (r: ApiResponse<T>)
        ensures
            r.success,
            r.message@ == msg@,
            r.data == Some(data),
    {
        ApiResponse { success: true, message: msg.to_string(), data: Some(data) }
    }

    /// A failure, which carries nothing.
    pub fn err(msg: &str) -> (r: ApiResponse<()>)
        ensures
            is_failure(r, msg@),
    {
        ApiResponse { success: false, message: msg.to_string(), data: None }
    }
}

/// A failure with this message.
pub open spec fn is_failure(r: ApiResponse<()>, msg: Seq<char>) -> bool {
    !r.success && r.message@ == msg && r.data is None
}

/// A JSON answer with its HTTP status.
#[derive(Debug, PartialEq)]
pub struct Reply<T> {
    pub status: u16,
    pub body: ApiResponse<T>,
}

/// A refusal with this status and message.
pub open spec fn is_refusal(r: Reply<()>, status: u16, msg: Seq<char>) -> bool {
    r.status == status && is_failure(r.body, msg)
}

/// Makes a refusal.
fn refuse(status: u16, msg: &str) -> (r: Reply<()>)
    ensures
        is_refusal(r, status, msg@),
{
    Reply { status, body: ApiResponse::<()>::err(msg) }
}

/// Joins two texts.
fn join(a: &str, b: &str) -> (r: String)
    ensures
        r@ == a@ + b@,
{
    let mut r = a.to_string();
    r.append(b);
    r
}

// Health.

/// What the service says of itself.
#[derive(Debug, PartialEq)]
pub struct Health {
    pub version: String,
    pub supported: Vec<String>,
}

/// The extensions of the files that can be converted.
pub open spec fn supported_extensions() -> Seq<Seq<char>> {
    seq![".dbf"@, ".xls"@, ".xlsx"@, ".csv"@, ".tsv"@]
}

/// Answers a health check.
pub fn health() -> (r: Reply<Health>)
    ensures
        r.status == 200,
        r.body.success,
        r.body.message@ == "revive-me is running 🟢"@,
        r.body.data is Some,
        r.body.data->0.version@ == "1.0.0"@,
        texts(r.body.data->0.supported@) == supported_extensions(),
{
    let mut supported: Vec<String> = Vec::new();
    supported.push(".dbf".to_string());
    supported.push(".xls".to_string());
    supported.push(".xlsx".to_string());
    supported.push(".csv".to_string());
    supported.push(".tsv".to_string());
    assert(texts(supported@) =~= supported_extensions());
    let data = Health { version: "1.0.0".to_string(), supported };
    Reply { status: 200, body: ApiResponse::ok("revive-me is running 🟢", data) }
}

// Uploads.

/// A file that is being received.
#[derive(Debug, PartialEq)]
pub struct Incoming {
    pub name: String,
    pub bytes: Vec<u8>,
}

/// An upload request as far as it has been read.
#[derive(Debug, PartialEq)]
pub struct Upload {
    pub job_id: String,
    /// The name of the last file that was begun.
    pub original_name: String,
    /// The name under which the last file was kept.
    pub saved: Option<String>,
}

/// A file to convert.
#[derive(Debug, PartialEq)]
pub struct Job {
    pub job_id: String,
    pub original_name: String,
    pub stored: String,
}

impl Upload {
    /// A request of which nothing has been read.
    pub fn with_job_id(job_id: String) -> (r: Upload)
        ensures
            r.job_id@ == job_id@,
            r.original_name@ == "unknown"@,
            r.saved is None,
    {
        Upload { job_id, original_name: "unknown".to_string(), saved: None }
    }

    /// A request of which nothing has been read, under a new job id.
    pub fn begin() -> (r: Upload)
        ensures
            is_job_id(r.job_id@),
            r.original_name@ == "unknown"@,
            r.saved is None,
    {
        Upload::with_job_id(new_job_id())
    }

    /// Begins a file whose cleaned name is `name`.
    pub fn begin_named(&mut self, name: String) -> (r: Incoming)
        ensures
            r.name@ == name@,
            r.bytes@.len() == 0,
            final(self).original_name@ == name@,
            final(self).job_id == old(self).job_id,
            final(self).saved == old(self).saved,
    {
        self.original_name = name.clone();
        Incoming { name, bytes: Vec::new() }
    }

    /// Begins a file: under its name, cleaned, or as `upload.bin` where it has none.
    pub fn begin_file(&mut self, file_name: Option<String>) -> (r: Incoming)
        ensures
            file_name is Some ==> is_cleaned(file_name->0@, r.name@),
            file_name is None ==> r.name@ == "upload.bin"@,
            is_safe(r.name@),
            r.bytes@.len() == 0,
            final(self).original_name@ == r.name@,
            final(self).job_id == old(self).job_id,
            final(self).saved == old(self).saved,
    {
        let name = match file_name {
            Some(given) => sanitize(given.as_str()),
            None => {
                proof {
                    lemma_default_name_is_safe();
                }
                "upload.bin".to_string()
            },
        };
        self.begin_named(name)
    }

    /// The name under which a file is to be kept.
    pub fn stored_as(&self, file: &Incoming) -> (r: String)
        ensures
            r@ == stored_name(self.job_id@, file.name@),
    {
        stored_file_name(self.job_id.as_str(), file.name.as_str())
    }

    /// Notes that a file was kept: of several, the last is converted.
    pub fn save(&mut self, file: Incoming)
        ensures
            final(self).saved is Some,
            final(self).saved->0@ == stored_name(old(self).job_id@, file.name@),
            final(self).job_id == old(self).job_id,
            final(self).original_name == old(self).original_name,
    {
        let stored = self.stored_as(&file);
        self.saved = Some(stored);
    }

    /// Ends the request: the file that was kept is converted, and a request without one is
    /// refused.
    pub fn finish(self) -> (r: Result<Job, Reply<()>>)
        ensures
            self.saved is Some ==> r is Ok && r->Ok_0.stored@ == self.saved->0@ && r->Ok_0.job_id@ == self.job_id@
                && r->Ok_0.original_name@ == self.original_name@,
            self.saved is None ==> r is Err && is_refusal(r->Err_0, 400, "No file received in request"@),
    {
        match self.saved {
            Some(stored) => Ok(Job { job_id: self.job_id, original_name: self.original_name, stored }),
            None => Err(refuse(400, "No file received in request")),
        }
    }
}

/// The name of a file that came without one is safe.
proof fn lemma_default_name_is_safe()
    ensures
        is_safe("upload.bin"@),
{
    reveal_strlit("upload.bin");
    reveal_strlit(".");
    reveal_strlit("..");
    assert(vstd::utf8::is_ascii_chars("upload.bin"@));
    vstd::utf8::is_ascii_chars_encode_utf8("upload.bin"@);
}

impl Incoming {
    /// Takes in the next bytes of a file; refuses the request once the file is over the limit.
    pub fn receive(&mut self, chunk: &[u8]) -> (r: Option<Reply<()>>)
        ensures
            final(self).bytes@ == old(self).bytes@ + chunk@,
            final(self).name == old(self).name,
            r is Some == (final(self).bytes@.len() > MAX_FILE_SIZE),
            r is Some ==> is_refusal(r->0, 413, "File exceeds 50 MB limit"@),
    {
        self.bytes.extend_from_slice(chunk);
        assert(self.bytes@ =~= old(self).bytes@ + chunk@);
        if self.bytes.len() > MAX_FILE_SIZE {
            Some(refuse(413, "File exceeds 50 MB limit"))
        } else {
            None
        }
    }
}

/// Answers an upload that could not be kept.
pub fn save_failed(why: &str) -> (r: Reply<()>)
    ensures
        is_refusal(r, 500, "Failed to save file: "@ + why@),
{
    let msg = join("Failed to save file: ", why);
    refuse(500, msg.as_str())
}

/// Answers an upload that was converted, or refuses one that could not be.
pub fn upload_reply(outcome: Result<ConversionRecord, ConvertError>) -> (r: Result<Reply<ConversionRecord>, Reply<()>>)
    ensures
        outcome is Ok ==> r is Ok && r->Ok_0.status == 200 && r->Ok_0.body.success && r->Ok_0.body.message@
            == "Conversion successful!"@ && r->Ok_0.body.data == Some(outcome->Ok_0),
        outcome is Err ==> r is Err && is_refusal(r->Err_0, 422, "Conversion failed: "@ + outcome->Err_0.text()),
{
    match outcome {
        Ok(record) => Ok(Reply { status: 200, body: ApiResponse::ok("Conversion successful!", record) }),
        Err(e) => {
            let why = e.message();
            let msg = join("Conversion failed: ", why.as_str());
            Err(refuse(422, msg.as_str()))
        },
    }
}

// Downloads.

/// What came of looking a file up.
#[derive(Debug, PartialEq)]
pub enum FileRead {
    Missing,
    Found(Vec<u8>),
    /// The file is there but cannot be read; the text says why.
    Failed(String),
}

/// A file that is handed out.
#[derive(Debug, PartialEq)]
pub struct Attachment {
    pub content_type: String,
    pub content_disposition: String,
    pub bytes: Vec<u8>,
}

/// `s` ends in `ending`.
pub open spec fn ends_in(s: Seq<char>, ending: Seq<char>) -> bool {
    ending.len() <= s.len() && s.skip(s.len() - ending.len()) == ending
}

/// Does `s` end in `ending`?
fn has_ending(s: &str, ending: &str) -> (r: bool)
    ensures
        r == ends_in(s@, ending@),
{
    let text = chars_of(s);
    let tail = chars_of(ending);
    if tail.len() > text.len() {
        return false;
    }
    let from: usize = text.len() - tail.len();
    let mut i: usize = 0;
    while i < tail.len()
        invariant
            i <= tail@.len(),
            from + tail@.len() == text@.len() <= usize::MAX,
            text@ == s@,
            tail@ == ending@,
            forall|j: int| 0 <= j < i ==> s@[from + j] == #[trigger] ending@[j],
        decreases tail@.len() - i,
    {
        if text[from + i] != tail[i] {
            assert(s@.skip(from as int)[i as int] != ending@[i as int]);
            return false;
        }
        i = i + 1;
    }
    assert(s@.skip(from as int) =~= ending@);
    true
}

/// The content type that a file is handed out with.
pub open spec fn content_type(name: Seq<char>) -> Seq<char> {
    if ends_in(name, ".json"@) {
        "application/json"@
    } else {
        "application/vnd.openxmlformats-officedocument.spreadsheetml.sheet"@
    }
}

/// The name of the file that a download asks for: cleaned, so that it stays where it is looked up.
pub fn download_name(file_name: &str) -> (r: String)
    ensures
        is_cleaned(file_name@, r@),
        is_safe(r@),
        forall|id: Seq<char>| is_job_id(id) && file_name@ == #[trigger] json_name(id) ==> r@ == file_name@,
        forall|id: Seq<char>| is_job_id(id) && file_name@ == #[trigger] xlsx_name(id) ==> r@ == file_name@,
{
    let r = sanitize(file_name);
    assert forall|id: Seq<char>| is_job_id(id) && file_name@ == #[trigger] json_name(id) implies r@ == file_name@ by {
        output_names_stay(id, r@);
    }
    assert forall|id: Seq<char>| is_job_id(id) && file_name@ == #[trigger] xlsx_name(id) implies r@ == file_name@ by {
        output_names_stay(id, r@);
    }
    r
}

/// Answers a download of the file `name`, given what came of looking it up.
pub fn download_reply(name: &str, outcome: FileRead) -> (r: Result<Attachment, Reply<()>>)
    ensures
        outcome is Missing ==> r is Err && is_refusal(r->Err_0, 404, "File not found"@),
        outcome matches FileRead::Failed(why) ==> r is Err && is_refusal(r->Err_0, 500, "Read error: "@ + why@),
        outcome matches FileRead::Found(bytes) ==> r is Ok && r->Ok_0.bytes == bytes && r->Ok_0.content_type@
            == content_type(name@) && r->Ok_0.content_disposition@ == "attachment; filename=\""@ + name@ + "\""@,
{
    match outcome {
        FileRead::Missing => Err(refuse(404, "File not found")),
        FileRead::Failed(why) => {
            let msg = join("Read error: ", why.as_str());
            Err(refuse(500, msg.as_str()))
        },
        FileRead::Found(bytes) => {
            let content_type = if has_ending(name, ".json") {
                "application/json".to_string()
            } else {
                "application/vnd.openxmlformats-officedocument.spreadsheetml.sheet".to_string()
            };
            let mut content_disposition = join("attachment; filename=\"", name);
            content_disposition.append("\"");
            Ok(Attachment { content_type, content_disposition, bytes })
        },
    }
}

// Cleanup.

/// The names of the files of a job.
pub open spec fn names_of(id: Seq<char>) -> Seq<Seq<char>> {
    seq![json_name(id), xlsx_name(id)]
}

/// Names the files of the job with this id.
pub fn output_names(id: &str) -> (r: Vec<String>)
    ensures
        texts(r@) == names_of(id@),
{
    let mut r: Vec<String> = Vec::new();
    r.push(json_file_name(id));
    r.push(xlsx_file_name(id));
    assert(texts(r@) =~= names_of(id@));
    r
}

/// Names the files that a cleanup of this id takes away: those of the job with the cleaned id,
/// which is the id itself where it is a job's.
pub fn cleanup_names(id: &str) -> (r: Vec<String>)
    ensures
        exists|safe: Seq<char>| is_cleaned(id@, safe) && texts(r@) == #[trigger] names_of(safe),
        is_job_id(id@) ==> texts(r@) == names_of(id@),
{
    let safe = sanitize(id);
    let r = output_names(safe.as_str());
    proof {
        if is_job_id(id@) {
            job_ids_stay(id@, safe@);
        }
        assert(is_cleaned(id@, safe@) && texts(r@) == names_of(safe@));
    }
    r
}

/// How many of `found` are true.
pub open spec fn count(found: Seq<bool>) -> nat
    decreases found.len(),
{
    if found.len() == 0 {
        0
    } else {
        count(found.drop_last()) + (if found.last() {
            1nat
        } else {
            0nat
        })
    }
}

/// Answers a cleanup. `found` says of each file whether it was there.
pub fn cleanup_reply(found: &Vec<bool>) -> (r: Reply<usize>)
    ensures
        r.status == 200,
        r.body.success,
        r.body.message@ == "Removed "@ + decimal(count(found@)) + " file(s)"@,
        r.body.data is Some,
        r.body.data->0 == count(found@),
{
    let mut deleted: usize = 0;
    let mut i: usize = 0;
    assert(found@.take(0) =~= Seq::empty());
    while i < found.len()
        invariant
            i <= found@.len(),
            deleted <= i,
            deleted == count(found@.take(i as int)),
        decreases found@.len() - i,
    {
        assert(found@.take(i + 1).drop_last() =~= found@.take(i as int));
        if found[i] {
            deleted = deleted + 1;
        }
        i = i + 1;
    }
    assert(found@.take(found@.len() as int) =~= found@);
    let mut msg = join("Removed ", decimal_text(deleted as u64).as_str());
    msg.append(" file(s)");
    Reply { status: 200, body: ApiResponse::ok(msg.as_str(), deleted) }
}

// Laws.

/// The extensions that a health check lists are those of the file types that can be converted.
pub proof fn the_listed_extensions_are_read(format: LegacyFormat, i: int)
    requires
        0 <= i < supported_extensions().len(),
    ensures
        format != LegacyFormat::Unknown ==> supported_extensions().contains("."@ + format.file_type()),
        format_of(Some(supported_extensions()[i].skip(1))) != LegacyFormat::Unknown,
{
    reveal_strlit(".");
    lemma_dotted(LegacyFormat::Dbf, 0);
    lemma_dotted(LegacyFormat::Xls, 1);
    lemma_dotted(LegacyFormat::Xlsx, 2);
    lemma_dotted(LegacyFormat::Csv, 3);
    lemma_dotted(LegacyFormat::Tsv, 4);
}

/// Entry `i` of the list is the extension of this file type, with its dot.
proof fn lemma_dotted(format: LegacyFormat, i: int)
    requires
        i == 0 && format == LegacyFormat::Dbf || i == 1 && format == LegacyFormat::Xls || i == 2 && format
            == LegacyFormat::Xlsx || i == 3 && format == LegacyFormat::Csv || i == 4 && format == LegacyFormat::Tsv,
    ensures
        supported_extensions()[i] == "."@ + format.file_type(),
        supported_extensions().contains("."@ + format.file_type()),
        format_of(Some(supported_extensions()[i].skip(1))) == format,
{
    reveal_strlit(".");
    reveal_strlit("dbf");
    reveal_strlit("xls");
    reveal_strlit("xlsx");
    reveal_strlit("csv");
    reveal_strlit("tsv");
    reveal_strlit(".dbf");
    reveal_strlit(".xls");
    reveal_strlit(".xlsx");
    reveal_strlit(".csv");
    reveal_strlit(".tsv");
    let dotted = supported_extensions()[i];
    assert(dotted =~= "."@ + format.file_type());
    assert(dotted.skip(1) =~= format.file_type());
    file_types_are_extensions(format);
}

/// The bytes of a file that came in pieces.
pub open spec fn total(chunks: Seq<Seq<u8>>) -> nat
    decreases chunks.len(),
{
    if chunks.len() == 0 {
        0
    } else {
        total(chunks.drop_last()) + chunks.last().len()
    }
}

/// The limit is on the whole file, however it is cut: what came so far is over the limit at some
/// time just where the whole file is.
pub proof fn the_limit_is_on_the_whole_file(chunks: Seq<Seq<u8>>)
    ensures
        MAX_FILE_SIZE == 52_428_800,
        (exists|k: int| 0 <= k <= chunks.len() && total(#[trigger] chunks.take(k)) > MAX_FILE_SIZE) == (total(chunks)
            > MAX_FILE_SIZE),
{
    assert(chunks.take(chunks.len() as int) =~= chunks);
    assert forall|k: int| 0 <= k <= chunks.len() implies total(#[trigger] chunks.take(k)) <= total(chunks) by {
        lemma_total_grows(chunks, k);
    }
}

/// What came so far is no more than the whole.
proof fn lemma_total_grows(chunks: Seq<Seq<u8>>, k: int)
    requires
        0 <= k <= chunks.len(),
    ensures
        total(chunks.take(k)) <= total(chunks),
    decreases chunks.len(),
{
    if k < chunks.len() {
        lemma_total_grows(chunks.drop_last(), k);
        assert(chunks.drop_last().take(k) =~= chunks.take(k));
    } else {
        assert(chunks.take(k) =~= chunks);
    }
}

/// The files that a cleanup of a job's id takes away are those that the job's record names.
pub proof fn cleanup_takes_what_the_record_names(c: Conversion, timestamp: Seq<char>, r: ConversionRecord)
    requires
        is_record_of(c, timestamp, r),
    ensures
        names_of(r.id@) == seq![r.output_json@, r.output_xlsx@],
{
}

/// A refusal has its status and message, reports a failure and carries nothing; and what does so is
/// that refusal.
pub proof fn refusals_carry_nothing(r: Reply<()>, status: u16, msg: Seq<char>)
    ensures
        is_refusal(r, status, msg) <==> r.status == status && !r.body.success && r.body.message@ == msg && r.body.data is None,
{
}

/// A file is handed out as JSON just where its name is something and `.json` behind it.
pub proof fn names_tell_the_content_type(name: Seq<char>, front: Seq<char>)
    ensures
        name == front + seq!['.', 'j', 's', 'o', 'n'] ==> content_type(name) == "application/json"@,
        content_type(name) == "application/json"@ ==> name.len() >= 5 && name == name.take(name.len() - 5) + seq![
            '.',
            'j',
            's',
            'o',
            'n',
        ],
        content_type(name) == "application/json"@ || content_type(name)
            == "application/vnd.openxmlformats-officedocument.spreadsheetml.sheet"@,
{
    reveal_strlit(".json");
    reveal_strlit("application/json");
    reveal_strlit("application/vnd.openxmlformats-officedocument.spreadsheetml.sheet");
    let ending = seq!['.', 'j', 's', 'o', 'n'];
    assert(".json"@ =~= ending);
    assert("application/json"@.len() != "application/vnd.openxmlformats-officedocument.spreadsheetml.sheet"@.len());
    if name == front + ending {
        assert(name.skip(name.len() - 5) =~= ending);
    }
    if ends_in(name, ".json"@) {
        assert(name =~= name.take(name.len() - 5) + name.skip(name.len() - 5));
    }
}

/// A text ends in another just where something and that other are the text.
pub proof fn endings_stand_last(front: Seq<char>, s: Seq<char>, ending: Seq<char>)
    ensures
        s == front + ending ==> ends_in(s, ending),
        ends_in(s, ending) ==> ending.len() <= s.len() && s == s.take(s.len() - ending.len()) + ending,
{
    if s == front + ending {
        assert(s.skip(s.len() - ending.len()) =~= ending);
    }
    if ends_in(s, ending) {
        assert(s =~= s.take(s.len() - ending.len()) + s.skip(s.len() - ending.len()));
    }
}

/// A file more that was there makes one more, and another none; of no files none were there.
pub proof fn each_file_found_counts_once(found: Seq<bool>)
    ensures
        count(Seq::empty()) == 0,
        count(found.push(true)) == count(found) + 1,
        count(found.push(false)) == count(found),
{
    assert(found.push(true).drop_last() =~= found);
    assert(found.push(false).drop_last() =~= found);
}

/// A job has two files: the one that is named for its JSON and the one for its worksheet.
pub proof fn a_job_has_two_files(id: Seq<char>)
    ensures
        names_of(id).len() == 2,
        names_of(id)[0] == json_name(id),
        names_of(id)[1] == xlsx_name(id),
{
}

/// Five extensions are listed, each with its dot.
pub proof fn five_extensions_are_listed()
    ensures
        supported_extensions() == seq![
            seq!['.', 'd', 'b', 'f'],
            seq!['.', 'x', 'l', 's'],
            seq!['.', 'x', 'l', 's', 'x'],
            seq!['.', 'c', 's', 'v'],
            seq!['.', 't', 's', 'v'],
        ],
{
    reveal_strlit(".dbf");
    reveal_strlit(".xls");
    reveal_strlit(".xlsx");
    reveal_strlit(".csv");
    reveal_strlit(".tsv");
    assert(".dbf"@ =~= seq!['.', 'd', 'b', 'f']);
    assert(".xls"@ =~= seq!['.', 'x', 'l', 's']);
    assert(".xlsx"@ =~= seq!['.', 'x', 'l', 's', 'x']);
    assert(".csv"@ =~= seq!['.', 'c', 's', 'v']);
    assert(".tsv"@ =~= seq!['.', 't', 's', 'v']);
}

} // verus!
