//! What is shown of one item: a line of facts about it, its title, its link
//! and its text.

use crate::entities::{matches_at, starts_with};
use crate::fragment::{fragment_text, render_fragment};
use crate::markup::opt_view;
use crate::text::{append_range, append_str, decimal, decimal_chars, from_chars, to_chars};
use crate::timestamp::{format_timestamp, time_label, utc_date_time};
use vstd::prelude::*;

verus! {

/// An item as the content service describes it.
#[derive(Debug)]
pub struct Story {
    pub id: u32,
    pub title: Option<String>,
    pub text: Option<String>,
    pub time: Option<i64>,
    pub url: Option<String>,
    pub by: Option<String>,
}

/// The texts of `lines`, in order.
pub open spec fn texts(lines: Seq<String>) -> Seq<Seq<char>> {
    Seq::new(lines.len(), |i: int| lines[i]@)
}

/// Whether an item with this title presents a work of its author: the title
/// starts with `Show HN:`.
pub open spec fn is_show(title: Option<Seq<char>>) -> bool {
    match title {
        Some(t) => starts_with(t, "Show HN:"@),
        None => false,
    }
}

/// A value, or `N/A` where it is missing.
pub open spec fn or_missing(value: Option<Seq<char>>) -> Seq<char> {
    match value {
        Some(v) => v,
        None => "N/A"@,
    }
}

/// The line of facts: the time, the author and the number of the item.
pub open spec fn info_text(time: Option<Seq<char>>, by: Option<Seq<char>>, id: nat) -> Seq<char> {
    "Timestamp: "@ + or_missing(time) + " | By: "@ + or_missing(by) + " | ID: "@ + decimal(id)
}

/// A line made of a label and a value, or no line where the value is missing.
pub open spec fn labelled(label: Seq<char>, value: Option<Seq<char>>) -> Seq<Seq<char>> {
    match value {
        Some(v) => seq![label + v],
        None => Seq::empty(),
    }
}

/// The lines shown of an item with the line of facts `info`, in order: the
/// facts; the title; for a presentation, the link; then the text where the
/// item has one that is not empty, or, where it has no text field and is no
/// presentation, the link.
pub open spec fn shown_lines(
    info: Seq<char>,
    title: Option<Seq<char>>,
    url: Option<Seq<char>>,
    text: Option<Seq<char>>,
) -> Seq<Seq<char>> {
    let link = labelled("URL: "@, url);
    let early_link = if is_show(title) {
        link
    } else {
        Seq::empty()
    };
    let body = match text {
        Some(t) => if t.len() > 0 {
            seq!["Text: "@ + t]
        } else {
            Seq::empty()
        },
        None => if is_show(title) {
            Seq::empty()
        } else {
            link
        },
    };
    seq![info] + labelled("Title: "@, title) + early_link + body
}

/// The time of an item as the line of facts shows it.
pub open spec fn shown_time(time: Option<i64>) -> Option<Seq<char>> {
    match time {
        Some(t) => Some(time_label(utc_date_time(t as int))),
        None => None,
    }
}

/// The text of an item as it is shown: the final text of its fragment.
pub open spec fn shown_text(text: Option<String>) -> Option<Seq<char>> {
    match text {
        Some(html) => Some(fragment_text(html@)),
        None => None,
    }
}

/// Whether the title starts with `Show HN:`.
pub fn is_show_hn(title: &Option<String>) -> (show: bool)
    ensures
        show == is_show(opt_view(*title)),
{
    match title {
        Some(t) => {
            let chars = to_chars(t.as_str());
            let mark = to_chars("Show HN:");
            assert(chars@.skip(0) =~= chars@);
            matches_at(&chars, 0, &mark)
        },
        None => false,
    }
}

/// Appends `value`, or `N/A` where it is missing.
fn append_or_missing(out: &mut Vec<char>, value: &Option<String>)
    ensures
        final(out)@ == old(out)@ + or_missing(opt_view(*value)),
{
    match value {
        Some(v) => append_str(out, v.as_str()),
        None => append_str(out, "N/A"),
    }
}

/// The line of facts about an item: `time` is its time as text, `by` its
/// author, `id` its number; a missing time or author is shown as `N/A`.
pub fn info_line(time: &Option<String>, by: &Option<String>, id: u32) -> (line: String)
    ensures
        line@ == info_text(opt_view(*time), opt_view(*by), id as nat),
{
    let mut out: Vec<char> = Vec::new();
    append_str(&mut out, "Timestamp: ");
    append_or_missing(&mut out, time);
    append_str(&mut out, " | By: ");
    append_or_missing(&mut out, by);
    append_str(&mut out, " | ID: ");
    let number = decimal_chars(id);
    append_range(&mut out, &number, 0, number.len());
    assert(number@.subrange(0, number.len() as int) =~= number@);
    assert(out@ =~= info_text(opt_view(*time), opt_view(*by), id as nat));
    from_chars(&out)
}

/// Adds the line made of `label` and `value`.
fn push_line(lines: &mut Vec<String>, label: &str, value: &str)
    ensures
        texts(final(lines)@) == texts(old(lines)@).push(label@ + value@),
{
    let mut out: Vec<char> = Vec::new();
    append_str(&mut out, label);
    append_str(&mut out, value);
    assert(out@ =~= label@ + value@);
    lines.push(from_chars(&out));
    assert(texts(lines@) =~= texts(old(lines)@).push(label@ + value@));
}

/// Adds the line made of `label` and `value` where there is a value.
fn push_labelled(lines: &mut Vec<String>, label: &str, value: &Option<String>)
    ensures
        texts(final(lines)@) == texts(old(lines)@) + labelled(label@, opt_view(*value)),
{
    match value {
        Some(v) => {
            push_line(lines, label, v.as_str());
            assert(texts(lines@) =~= texts(old(lines)@) + labelled(label@, opt_view(*value)));
        },
        None => {
            assert(texts(lines@) =~= texts(old(lines)@) + labelled(label@, opt_view(*value)));
        },
    }
}

/// The lines shown of an item: `info` is its line of facts, `text` the final
/// text of its fragment where it has a text field.
pub fn lines_of(
    info: String,
    title: &Option<String>,
    url: &Option<String>,
    text: &Option<String>,
) -> (lines: Vec<String>)
    ensures
        texts(lines@) == shown_lines(info@, opt_view(*title), opt_view(*url), opt_view(*text)),
{
    let ghost link = labelled("URL: "@, opt_view(*url));
    let ghost head = seq![info@] + labelled("Title: "@, opt_view(*title));
    let mut lines: Vec<String> = Vec::new();
    lines.push(info);
    assert(texts(lines@) =~= seq![info@]);
    push_labelled(&mut lines, "Title: ", title);
    let show = is_show_hn(title);
    if show {
        push_labelled(&mut lines, "URL: ", url);
    }
    let ghost early = texts(lines@);
    assert(early =~= head + if show {
        link
    } else {
        Seq::empty()
    });
    match text {
        Some(t) => {
            if !t.as_str().is_empty() {
                push_line(&mut lines, "Text: ", t.as_str());
                assert(texts(lines@) =~= early + seq!["Text: "@ + t@]);
            } else {
                assert(texts(lines@) =~= early + Seq::<Seq<char>>::empty());
            }
        },
        None => {
            if !show {
                push_labelled(&mut lines, "URL: ", url);
            } else {
                assert(texts(lines@) =~= early + Seq::<Seq<char>>::empty());
            }
        },
    }
    lines
}

/// The lines shown of `story`: its time is formatted, its text is rendered
/// from the fragment it holds, and the lines are put together.
pub fn story_lines(story: &Story) -> (lines: Vec<String>)
    ensures
        texts(lines@) == shown_lines(
            info_text(shown_time(story.time), opt_view(story.by), story.id as nat),
            opt_view(story.title),
            opt_view(story.url),
            shown_text(story.text),
        ),
{
    let time = match story.time {
        Some(t) => Some(format_timestamp(t)),
        None => None,
    };
    let info = info_line(&time, &story.by, story.id);
    let text = match &story.text {
        Some(html) => Some(render_fragment(html.as_str())),
        None => None,
    };
    lines_of(info, &story.title, &story.url, &text)
}

} // verus!
