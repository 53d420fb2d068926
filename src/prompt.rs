//! Building the generation request: the prompt composed from file contexts,
//! the prompt taken from a percent-encoded path segment, and the backend's
//! endpoints.
use vstd::prelude::*;
use vstd::string::*;

verus! {

/// A named file whose content is given to the model as context.
pub struct FileContext {
    pub name: String,
    pub content: String,
}

/// What is sent to the backend for one generation.
pub struct GenerationRequest {
    pub model: String,
    pub prompt: String,
}

/// The files as (name, content) pairs.
pub open spec fn file_views(files: Seq<FileContext>) -> Seq<(Seq<char>, Seq<char>)> {
    files.map_values(|f: FileContext| (f.name@, f.content@))
}

/// The context block of one file.
pub open spec fn file_block(name: Seq<char>, content: Seq<char>) -> Seq<char> {
    "File: "@ + name + "\n```\n"@ + content + "\n```\n\n"@
}

/// The context blocks of all files, in order.
pub open spec fn context_block(files: Seq<(Seq<char>, Seq<char>)>) -> Seq<char>
    decreases files.len(),
{
    if files.len() == 0 {
        Seq::empty()
    } else {
        context_block(files.drop_last()) + file_block(files.last().0, files.last().1)
    }
}

/// The prompt dispatched for `prompt` with the given files as context; with
/// no context the prompt goes unchanged.
pub open spec fn composed_prompt(files: Seq<(Seq<char>, Seq<char>)>, prompt: Seq<char>) -> Seq<char> {
    let ctx = context_block(files);
    if ctx.len() > 0 {
        "I have the following files for context:\n\n"@ + ctx + "\n\nBased on these files, "@
            + prompt
    } else {
        prompt
    }
}

/// Builds the prompt that carries the files' contents ahead of the question.
pub fn compose_prompt(files: &Vec<FileContext>, prompt: &str) -> (r: String)
    ensures
        r@ == composed_prompt(file_views(files@), prompt@),
{
    let ghost fv = file_views(files@);
    let mut ctx = String::new();
    let mut i: usize = 0;
    while i < files.len()
        invariant
            i <= files@.len(),
            fv == file_views(files@),
            fv.len() == files@.len(),
            ctx@ == context_block(fv.take(i as int)),
        decreases files@.len() - i,
    {
        let f = &files[i];
        assert(fv[i as int] == (f.name@, f.content@));
        ctx.append("File: ");
        ctx.append(f.name.as_str());
        ctx.append("\n```\n");
        ctx.append(f.content.as_str());
        ctx.append("\n```\n\n");
        assert(fv.take(i + 1).drop_last() =~= fv.take(i as int));
        assert(fv.take(i + 1).last() == fv[i as int]);
        i = i + 1;
    }
    assert(fv.take(files@.len() as int) =~= fv);
    if ctx.as_str().is_empty() {
        prompt.to_owned()
    } else {
        let mut r = "I have the following files for context:\n\n".to_owned();
        r.append(ctx.as_str());
        r.append("\n\nBased on these files, ");
        r.append(prompt);
        r
    }
}

/// The text that percent-decoding `s` as UTF-8 gives, if the decoded bytes
/// are valid UTF-8.
pub uninterp spec fn percent_decoded(s: Seq<char>) -> Option<Seq<char>>;

/// Relies on urlencoding::decode: the decoded text, or an error where the
/// decoded bytes are not valid UTF-8; a text without `%` comes back as it is.
#[verifier::external_body]
fn url_decode(s: &str) -> (r: Option<String>)
    ensures
        match r {
            Some(d) => percent_decoded(s@) == Some(d@),
            None => percent_decoded(s@) is None,
        },
        (forall|i: int| 0 <= i < s@.len() ==> s@[i] != '%') ==> (r is Some && r->0@ == s@),
{
    match urlencoding::decode(s) {
        Ok(d) => Some(d.into_owned()),
        Err(_) => None,
    }
}

/// The prompt carried by a percent-encoded path segment; where decoding
/// fails, the segment as it came.
pub fn decode_path_prompt(raw: &str) -> (r: String)
    ensures
        r@ == match percent_decoded(raw@) {
            Some(d) => d,
            None => raw@,
        },
{
    match url_decode(raw) {
        Some(d) => d,
        None => raw.to_owned(),
    }
}

/// The backend's generation endpoint under `base`.
pub fn generate_url(base: &str) -> (r: String)
    ensures
        r@ == base@ + "/api/generate"@,
{
    let mut r = base.to_owned();
    r.append("/api/generate");
    r
}

/// The backend's model list endpoint under `base`.
pub fn tags_url(base: &str) -> (r: String)
    ensures
        r@ == base@ + "/api/tags"@,
{
    let mut r = base.to_owned();
    r.append("/api/tags");
    r
}

impl GenerationRequest {
    /// A request for `prompt`, with the files' contents given as context.
    pub fn with_files(model: &str, files: &Vec<FileContext>, prompt: &str) -> (r: GenerationRequest)
        ensures
            r.model@ == model@,
            r.prompt@ == composed_prompt(file_views(files@), prompt@),
    {
        GenerationRequest { model: model.to_owned(), prompt: compose_prompt(files, prompt) }
    }

    /// A request whose prompt arrived percent-encoded in a path segment.
    pub fn from_path(model: &str, raw_prompt: &str) -> (r: GenerationRequest)
        ensures
            r.model@ == model@,
            r.prompt@ == match percent_decoded(raw_prompt@) {
                Some(d) => d,
                None => raw_prompt@,
            },
    {
        GenerationRequest { model: model.to_owned(), prompt: decode_path_prompt(raw_prompt) }
    }
}

} // verus!
