//! Getting a page ready for a summary, and reading the answer: the page is
//! turned into text by the `html2text` crate, trimmed and cut to a limit, and
//! put into a request; the answer is trimmed and checked.

use crate::markup::opt_view;
use crate::text::{append_str, from_chars, to_chars, trim, trim_chars};
use vstd::prelude::*;
use vstd::utf8::{decode_utf8, encode_utf8, encode_utf8_decode_utf8, is_char_boundary};

verus! {

/// The number of bytes of an article that go into a request.
pub const ARTICLE_LIMIT: usize = 4000;

/// The width, in columns, that a page is laid out in: wide enough that no
/// line of an article is broken.
pub const PAGE_WIDTH: usize = 10000;

/// What `html2text` fails with.
#[verifier::external_type_specification]
#[verifier::external_body]
pub struct ExPageError(html2text::Error);

/// The text that `html2text` makes of the page `html` when it lays it out in
/// `width` columns, or `None` where it fails.
pub uninterp spec fn html_as_text(html: Seq<char>, width: nat) -> Option<Seq<char>>;

/// `html2text::from_read` on the bytes of `html`. The contract gives the
/// outcome its name: it depends on the page and the width alone.
#[verifier::external_body]
fn page_text(html: &str, width: usize) -> (text: Result<String, html2text::Error>)
    ensures
        match text {
            Ok(t) => html_as_text(html@, width as nat) == Some(t@),
            Err(_) => html_as_text(html@, width as nat) is None,
        },
{
    html2text::from_read(html.as_bytes(), width)
}

/// Whether `text` can be cut to the limit: it is within the limit, or the
/// limit falls between two of its characters.
pub open spec fn can_clip(text: Seq<char>) -> bool {
    encode_utf8(text).len() <= ARTICLE_LIMIT || is_char_boundary(
        encode_utf8(text),
        ARTICLE_LIMIT as int,
    )
}

/// `text` cut to the limit: the text itself where its UTF-8 form is within the
/// limit, else the characters of the first bytes up to the limit, followed by
/// three dots.
pub open spec fn clipped(text: Seq<char>) -> Seq<char> {
    if encode_utf8(text).len() <= ARTICLE_LIMIT {
        text
    } else {
        decode_utf8(encode_utf8(text).subrange(0, ARTICLE_LIMIT as int)) + "..."@
    }
}

/// The request for a summary of the article `content`.
pub open spec fn prompt_text(content: Seq<char>) -> Seq<char> {
    "Summarize the following article in 3-5 sentences. Only return the summary. Here is the article:\n\n"@
        + content
}

/// What is shown for the answer `reply`: the answer trimmed, or a notice where
/// it is missing or blank.
pub open spec fn reply_text(reply: Option<Seq<char>>) -> Seq<char> {
    match reply {
        Some(r) => if trim(r).len() == 0 {
            "Summary generation failed"@
        } else {
            trim(r)
        },
        None => "Failed to extract summary from response"@,
    }
}

/// Why no request could be made of a page.
#[derive(Debug, Clone, Copy, PartialEq, Eq)]
pub enum PromptError {
    /// The page could not be turned into text.
    NoText,
    /// The text is over the limit, and the limit falls inside a character.
    SplitCharacter,
}

/// The model of a request or of the reason why there is none.
pub open spec fn request_view(request: Result<String, PromptError>) -> Result<
    Seq<char>,
    PromptError,
> {
    match request {
        Ok(r) => Ok(r@),
        Err(e) => Err(e),
    }
}

/// The request made of the page text `text`: there is one exactly where there
/// is a text that can be cut.
pub open spec fn request_for(text: Option<Seq<char>>) -> Result<Seq<char>, PromptError> {
    match text {
        Some(t) => if can_clip(trim(t)) {
            Ok(prompt_text(clipped(trim(t))))
        } else {
            Err(PromptError::SplitCharacter)
        },
        None => Err(PromptError::NoText),
    }
}

/// Whether the trimmed `text` can be cut to the limit.
pub fn fits_or_splits(text: &str) -> (ok: bool)
    ensures
        ok == can_clip(trim(text@)),
{
    let trimmed = from_chars(&trim_chars(&to_chars(text)));
    let s = trimmed.as_str();
    s.as_bytes().len() <= ARTICLE_LIMIT || s.is_char_boundary(ARTICLE_LIMIT)
}

/// `text` trimmed and cut to the limit.
pub fn clip_article(text: &str) -> (content: String)
    requires
        can_clip(trim(text@)),
    ensures
        content@ == clipped(trim(text@)),
{
    let trimmed = from_chars(&trim_chars(&to_chars(text)));
    let s = trimmed.as_str();
    if s.as_bytes().len() <= ARTICLE_LIMIT {
        trimmed
    } else {
        let (head, _) = s.split_at(ARTICLE_LIMIT);
        proof {
            encode_utf8_decode_utf8(head@);
        }
        let mut out = to_chars(head);
        append_str(&mut out, "...");
        from_chars(&out)
    }
}

/// The request for a summary of the article `content`.
pub fn summary_prompt(content: &str) -> (prompt: String)
    ensures
        prompt@ == prompt_text(content@),
{
    let mut out: Vec<char> = Vec::new();
    append_str(
        &mut out,
        "Summarize the following article in 3-5 sentences. Only return the summary. Here is the article:\n\n",
    );
    append_str(&mut out, content);
    assert(out@ =~= prompt_text(content@));
    from_chars(&out)
}

/// The request for a summary of the page text `text`: `NoText` where there is
/// no text, `SplitCharacter` where the text cannot be cut to the limit.
pub fn request_from_text(text: Option<String>) -> (prompt: Result<String, PromptError>)
    ensures
        request_view(prompt) == request_for(opt_view(text)),
{
    match text {
        Some(t) => {
            if fits_or_splits(t.as_str()) {
                let content = clip_article(t.as_str());
                Ok(summary_prompt(content.as_str()))
            } else {
                Err(PromptError::SplitCharacter)
            }
        },
        None => Err(PromptError::NoText),
    }
}

/// The request for a summary of the page `html`: the page is turned into
/// text, the text is trimmed and cut to the limit, and the request is made of
/// it. `NoText` where the page cannot be turned into text, `SplitCharacter`
/// where the text cannot be cut.
pub fn article_prompt(html: &str) -> (prompt: Result<String, PromptError>)
    ensures
        request_view(prompt) == request_for(html_as_text(html@, PAGE_WIDTH as nat)),
{
    let text = match page_text(html, PAGE_WIDTH) {
        Ok(t) => Some(t),
        Err(_) => None,
    };
    request_from_text(text)
}

/// What is shown for the answer `reply` of the summarizer: the answer
/// trimmed; `Summary generation failed` where it is blank;
/// `Failed to extract summary from response` where there is none.
pub fn summary_of_reply(reply: Option<String>) -> (summary: String)
    ensures
        summary@ == reply_text(opt_view(reply)),
{
    let mut out: Vec<char> = Vec::new();
    match reply {
        Some(r) => {
            let trimmed = trim_chars(&to_chars(r.as_str()));
            if trimmed.len() == 0 {
                append_str(&mut out, "Summary generation failed");
            } else {
                return from_chars(&trimmed);
            }
        },
        None => {
            append_str(&mut out, "Failed to extract summary from response");
        },
    }
    assert(out@ =~= reply_text(opt_view(reply)));
    from_chars(&out)
}

} // verus!
