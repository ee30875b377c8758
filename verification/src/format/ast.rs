//! The structure-aware formatter: the document is parsed into events, each
//! event passes a small state machine that drops or rewrites it, and the
//! events that are left are written back as Markdown.

use crate::format::html::{
    blank_lines_collapsed, camel_case, camel_case_chars, collapse_blank_lines_chars,
    convert_style_chars, fix_html_chars, fix_malformed_chars, has_no_blank_run, html_fixed,
    lemma_collapse_idempotent, rows_repaired, styles_converted,
};
use crate::format::regex::{
    escape_math, escape_math_chars, wrap_accordions, wrap_accordions_chars,
};
use crate::format::shortcode::{convert_shortcodes_chars, shortcodes_converted};
use crate::text::{
    append_str, contains, contains_exec, from_chars, has_at_exec, starts_with, to_chars, trim,
    trim_exec,
};
use pulldown_cmark::{Event, Options, Parser, Tag, TagEnd};
use vstd::prelude::*;

verus! {

/// An event of the Markdown parser.
#[verifier::external_type_specification]
#[verifier::external_body]
pub struct ExEvent<'a>(pulldown_cmark::Event<'a>);

/// Why the events could not be written back as Markdown.
#[verifier::external_type_specification]
#[verifier::external_body]
pub struct ExRenderError(pulldown_cmark_to_cmark::Error);

/// The syntax extensions that a document is read and written with.
#[derive(Debug, Clone, Copy, PartialEq, Eq, Structural)]
pub struct Extensions {
    pub tables: bool,
    pub strikethrough: bool,
    pub footnotes: bool,
}

/// What the state machine reads of a parser event: its kind, and for
/// images and HTML the texts that decide or change.
#[derive(Debug, PartialEq, Eq)]
pub enum MdEvent {
    /// A code block begins.
    StartCodeBlock,
    /// A code block ends.
    EndCodeBlock,
    /// An image begins.
    StartImage { dest_url: String, title: String, id: String },
    /// An image ends.
    EndImage,
    /// Text.
    Text(String),
    /// Inline code.
    Code(String),
    /// A piece of an HTML block.
    Html(String),
    /// An inline HTML tag.
    InlineHtml(String),
    /// Any other event.
    Other,
}

/// An event as plain values.
pub enum EventView {
    StartCodeBlock,
    EndCodeBlock,
    StartImage { dest_url: Seq<char>, title: Seq<char>, id: Seq<char> },
    EndImage,
    Text(Seq<char>),
    Code(Seq<char>),
    Html(Seq<char>),
    InlineHtml(Seq<char>),
    Other,
}

impl View for MdEvent {
    type V = EventView;

    open spec fn view(&self) -> EventView {
        match self {
            MdEvent::StartCodeBlock => EventView::StartCodeBlock,
            MdEvent::EndCodeBlock => EventView::EndCodeBlock,
            MdEvent::StartImage { dest_url, title, id } => EventView::StartImage {
                dest_url: dest_url@,
                title: title@,
                id: id@,
            },
            MdEvent::EndImage => EventView::EndImage,
            MdEvent::Text(t) => EventView::Text(t@),
            MdEvent::Code(t) => EventView::Code(t@),
            MdEvent::Html(t) => EventView::Html(t@),
            MdEvent::InlineHtml(t) => EventView::InlineHtml(t@),
            MdEvent::Other => EventView::Other,
        }
    }
}

/// View of an event that may have been dropped.
pub open spec fn emit_view(e: Option<MdEvent>) -> Option<EventView> {
    match e {
        Some(x) => Some(x@),
        None => None,
    }
}

/// What the state machine remembers between events.
#[derive(Debug)]
pub struct ProcessorState {
    /// Inside a code block, where HTML is left alone.
    pub in_code_block: bool,
    /// Inside an image.
    pub in_image: bool,
    /// The address of the image that was entered last.
    pub current_image_url: String,
    /// Inside a badge, whose events are dropped up to the end of the image.
    pub skip_until_image_end: bool,
}

/// The state as plain values.
pub struct StateView {
    pub in_code_block: bool,
    pub in_image: bool,
    pub current_image_url: Seq<char>,
    pub skip_until_image_end: bool,
}

impl View for ProcessorState {
    type V = StateView;

    open spec fn view(&self) -> StateView {
        StateView {
            in_code_block: self.in_code_block,
            in_image: self.in_image,
            current_image_url: self.current_image_url@,
            skip_until_image_end: self.skip_until_image_end,
        }
    }
}

/// The state before the first event.
pub open spec fn initial_state() -> StateView {
    StateView {
        in_code_block: false,
        in_image: false,
        current_image_url: Seq::empty(),
        skip_until_image_end: false,
    }
}

impl ProcessorState {
    /// The state before the first event.
    pub fn new() -> (r: Self)
        ensures
            r@ == initial_state(),
    {
        ProcessorState {
            in_code_block: false,
            in_image: false,
            current_image_url: String::new(),
            skip_until_image_end: false,
        }
    }
}

/// What marks the address of an image as that of a badge.
pub open spec fn badge_host() -> Seq<char> {
    "shields.io"@
}

/// The HTML is a comment: behind leading white space it begins with `<!--`.
pub open spec fn is_comment(html: Seq<char>) -> bool {
    starts_with(trim(html), "<!--"@)
}

/// What becomes of raw HTML: inside a code block it stays as it is, a
/// comment too; outside, a comment is dropped and any other HTML is
/// repaired.
pub open spec fn html_emitted(in_code_block: bool, html: Seq<char>) -> Option<Seq<char>> {
    if in_code_block {
        Some(html)
    } else if is_comment(html) {
        None
    } else {
        Some(html_fixed(html))
    }
}

/// The state with the flag for code blocks brought up to date.
pub open spec fn track_code_block(state: StateView, event: EventView) -> StateView {
    StateView {
        in_code_block: match event {
            EventView::StartCodeBlock => true,
            EventView::EndCodeBlock => false,
            _ => state.in_code_block,
        },
        in_image: state.in_image,
        current_image_url: state.current_image_url,
        skip_until_image_end: state.skip_until_image_end,
    }
}

/// The state with other image fields.
pub open spec fn with_image(state: StateView, in_image: bool, url: Seq<char>, skip: bool) -> StateView {
    StateView {
        in_code_block: state.in_code_block,
        in_image,
        current_image_url: url,
        skip_until_image_end: skip,
    }
}

/// One step of the state machine: the next state, and the event that is
/// handed on, if any.
///
/// A badge, which is an image whose address holds the badge host, is
/// dropped with its text and inline code up to the end of the image. Any
/// other image is handed on without its reference identifier. Raw HTML goes
/// by `html_emitted`: inside a code block it is handed on as it came, and
/// outside a comment is dropped and other HTML repaired. Every other event
/// is handed on as it came.
pub open spec fn step(state: StateView, event: EventView) -> (StateView, Option<EventView>) {
    let noted = track_code_block(state, event);
    match event {
        EventView::StartImage { dest_url, title, id } => if contains(dest_url, badge_host()) {
            (with_image(noted, true, dest_url, true), None)
        } else {
            (
                with_image(noted, true, dest_url, false),
                Some(EventView::StartImage { dest_url, title, id: Seq::empty() }),
            )
        },
        EventView::EndImage => if noted.skip_until_image_end {
            (with_image(noted, false, noted.current_image_url, false), None)
        } else {
            (with_image(noted, false, noted.current_image_url, false), Some(event))
        },
        EventView::Text(_) | EventView::Code(_) => if noted.skip_until_image_end {
            (noted, None)
        } else {
            (noted, Some(event))
        },
        EventView::Html(html) => (
            noted,
            match html_emitted(noted.in_code_block, html) {
                Some(h) => Some(EventView::Html(h)),
                None => None,
            },
        ),
        EventView::InlineHtml(html) => (
            noted,
            match html_emitted(noted.in_code_block, html) {
                Some(h) => Some(EventView::InlineHtml(h)),
                None => None,
            },
        ),
        _ => (noted, Some(event)),
    }
}

fn emit_html(in_code_block: bool, html: String) -> (r: Option<String>)
    ensures
        crate::models::text_view(r) == html_emitted(in_code_block, html@),
{
    if in_code_block {
        return Some(html);
    }
    let chars = to_chars(html.as_str());
    if has_at_exec(&trim_exec(&chars), 0, &to_chars("<!--")) {
        return None;
    }
    Some(from_chars(&fix_html_chars(&chars)))
}

/// Process a single event with state tracking: hand it on, rewrite it or
/// drop it.
pub fn process_event(event: MdEvent, state: &mut ProcessorState) -> (r: Option<MdEvent>)
    ensures
        (final(state)@, emit_view(r)) == step(old(state)@, event@),
{
    match event {
        MdEvent::StartCodeBlock => {
            state.in_code_block = true;
            Some(MdEvent::StartCodeBlock)
        },
        MdEvent::EndCodeBlock => {
            state.in_code_block = false;
            Some(MdEvent::EndCodeBlock)
        },
        MdEvent::StartImage { dest_url, title, id } => {
            state.in_image = true;
            state.current_image_url = dest_url.clone();
            if contains_exec(&to_chars(dest_url.as_str()), &to_chars("shields.io")) {
                state.skip_until_image_end = true;
                return None;
            }
            state.skip_until_image_end = false;
            Some(MdEvent::StartImage { dest_url, title, id: String::new() })
        },
        MdEvent::EndImage => {
            state.in_image = false;
            if state.skip_until_image_end {
                state.skip_until_image_end = false;
                return None;
            }
            Some(MdEvent::EndImage)
        },
        MdEvent::Text(t) => {
            if state.skip_until_image_end {
                None
            } else {
                Some(MdEvent::Text(t))
            }
        },
        MdEvent::Code(t) => {
            if state.skip_until_image_end {
                None
            } else {
                Some(MdEvent::Code(t))
            }
        },
        MdEvent::Html(html) => {
            match emit_html(state.in_code_block, html) {
                Some(h) => Some(MdEvent::Html(h)),
                None => None,
            }
        },
        MdEvent::InlineHtml(html) => {
            match emit_html(state.in_code_block, html) {
                Some(h) => Some(MdEvent::InlineHtml(h)),
                None => None,
            }
        },
        MdEvent::Other => Some(MdEvent::Other),
    }
}

/// The views of a list of events.
pub open spec fn events_view(events: Seq<MdEvent>) -> Seq<EventView> {
    Seq::new(events.len(), |i: int| events[i]@)
}

/// The state and the events handed on after the first `n` events went
/// through the state machine, which starts in its initial state.
pub open spec fn processed(events: Seq<EventView>, n: int) -> (StateView, Seq<EventView>)
    decreases n,
{
    if n <= 0 || n > events.len() {
        (initial_state(), Seq::empty())
    } else {
        let before = processed(events, n - 1);
        let next = step(before.0, events[n - 1]);
        (
            next.0,
            match next.1 {
                Some(e) => before.1.push(e),
                None => before.1,
            },
        )
    }
}

/// Run a whole event sequence through the state machine and collect what
/// it hands on.
pub fn process_events(events: Vec<MdEvent>) -> (r: Vec<MdEvent>)
    ensures
        events_view(r@) == processed(events_view(events@), events@.len() as int).1,
{
    let ghost all = events_view(events@);
    let mut out: Vec<MdEvent> = Vec::new();
    let mut state = ProcessorState::new();
    proof {
        assert(events_view(out@) =~= processed(all, 0).1);
    }
    for event in it: events
        invariant
            it.seq() == events@,
            all == events_view(events@),
            (state@, events_view(out@)) == processed(all, it.index() as int),
    {
        assert(all[it.index() as int] == event@);
        let ghost before = events_view(out@);
        match process_event(event, &mut state) {
            Some(e) => {
                proof {
                    assert(events_view(out@.push(e)) =~= before.push(e@));
                }
                out.push(e);
            },
            None => {},
        }
    }
    out
}

/// The events that the parser gives for a document read with the
/// extensions `ext`.
pub uninterp spec fn parsed_events(content: Seq<char>, ext: Extensions) -> Seq<Event<'static>>;

/// `Parser::new_ext` on `Options::empty()` with the three flags set as
/// `ext` has them, run to its end. The events are the parser's reading of
/// the document, which the text and the flags alone decide.
#[verifier::external_body]
fn parse_markdown<'a>(content: &'a str, ext: Extensions) -> (r: Vec<Event<'a>>)
    ensures
        r@ == parsed_events(content@, ext),
{
    let mut options = Options::empty();
    options.set(Options::ENABLE_TABLES, ext.tables);
    options.set(Options::ENABLE_STRIKETHROUGH, ext.strikethrough);
    options.set(Options::ENABLE_FOOTNOTES, ext.footnotes);
    Parser::new_ext(content, options).collect()
}

/// What the state machine reads of the event at index `i`: its kind, and
/// for images and HTML its texts.
pub uninterp spec fn described_event(events: Seq<Event<'static>>, i: int) -> EventView;

/// Tells the variants of the parser event at `i` apart and hands out the
/// texts of images and HTML.
#[verifier::external_body]
fn describe_event(events: &Vec<Event>, i: usize) -> (r: MdEvent)
    requires
        i < events.len(),
    ensures
        r@ == described_event(events@, i as int),
{
    match &events[i] {
        Event::Start(Tag::CodeBlock(_)) => MdEvent::StartCodeBlock,
        Event::End(TagEnd::CodeBlock) => MdEvent::EndCodeBlock,
        Event::Start(Tag::Image { dest_url: d, title: t, id: i, .. }) => MdEvent::StartImage {
            dest_url: d.to_string(), title: t.to_string(), id: i.to_string() },
        Event::End(TagEnd::Image) => MdEvent::EndImage,
        Event::Text(t) => MdEvent::Text(t.to_string()),
        Event::Code(t) => MdEvent::Code(t.to_string()),
        Event::Html(t) => MdEvent::Html(t.to_string()),
        Event::InlineHtml(t) => MdEvent::InlineHtml(t.to_string()),
        _ => MdEvent::Other,
    }
}

/// The events `kept` with one more at the end: the parser event for what
/// the state machine handed on for the parsed event at `i`.
pub uninterp spec fn kept_with(
    kept: Seq<Event<'static>>,
    parsed: Seq<Event<'static>>,
    i: int,
    emitted: EventView,
) -> Seq<Event<'static>>;

/// Puts at the end of `kept` the parser event for an event that the state
/// machine handed on: text, code, HTML and images are made anew from its
/// texts, an image with the link type of the parsed event at `i`; for every
/// other event a copy of the parsed event.
#[verifier::external_body]
fn keep_event<'a>(kept: &mut Vec<Event<'a>>, parsed: &Vec<Event<'a>>, i: usize, emitted: MdEvent)
    requires
        i < parsed.len(),
    ensures
        final(kept)@ == kept_with(old(kept)@, parsed@, i as int, emitted@),
{
    kept.push(match (emitted, &parsed[i]) {
        (MdEvent::Text(t), _) => Event::Text(t.into()),
        (MdEvent::Code(t), _) => Event::Code(t.into()),
        (MdEvent::Html(h), _) => Event::Html(h.into()),
        (MdEvent::InlineHtml(h), _) => Event::InlineHtml(h.into()),
        (MdEvent::StartImage { dest_url, title, id }, Event::Start(Tag::Image { link_type, .. })) =>
            Event::Start(Tag::Image { link_type: *link_type, dest_url: dest_url.into(),
                title: title.into(), id: id.into() }),
        (_, event) => event.clone(),
    })
}

/// The Markdown text that the serializer writes for the events, read and
/// written with the extensions `ext`; `None` where it fails.
pub uninterp spec fn rendered_text(events: Seq<Event<'static>>, ext: Extensions) -> Option<
    Seq<char>,
>;

/// `pulldown_cmark_to_cmark::cmark` into a fresh string, with the parser
/// options that `ext` stands for: the Markdown text of the events, or the
/// serializer's error. The events and the options alone decide.
#[verifier::external_body]
fn render_markdown(events: &Vec<Event>, ext: Extensions) -> (r: Result<
    String,
    pulldown_cmark_to_cmark::Error,
>)
    ensures
        match r {
            Ok(text) => rendered_text(events@, ext) == Some(text@),
            Err(_) => rendered_text(events@, ext) is None,
        },
{
    let mut options = Options::empty();
    options.set(Options::ENABLE_TABLES, ext.tables);
    options.set(Options::ENABLE_STRIKETHROUGH, ext.strikethrough);
    options.set(Options::ENABLE_FOOTNOTES, ext.footnotes);
    let mut buf = String::new();
    pulldown_cmark_to_cmark::cmark(events.iter(), &mut buf, options).map(|_| buf)
}

/// The extensions that documents are read and written with: tables,
/// strikethrough and footnotes.
pub open spec fn document() -> Extensions {
    Extensions { tables: true, strikethrough: true, footnotes: true }
}

/// The extensions that documents are read and written with: tables,
/// strikethrough and footnotes.
pub fn document_extensions() -> (r: Extensions)
    ensures
        r == document(),
{
    Extensions { tables: true, strikethrough: true, footnotes: true }
}

/// The text that stands for what the serializer gave: its text, and the
/// empty text where it failed.
pub fn rendered_or_empty(rendered: Result<String, pulldown_cmark_to_cmark::Error>) -> (r: String)
    ensures
        match rendered {
            Ok(text) => r@ == text@,
            Err(_) => r@ == Seq::<char>::empty(),
        },
{
    match rendered {
        Ok(text) => text,
        Err(_) => String::new(),
    }
}

/// The text that events are written back as: the serializer's text, and
/// the empty text where the serializer fails.
pub open spec fn written_text(events: Seq<Event<'static>>, ext: Extensions) -> Seq<char> {
    match rendered_text(events, ext) {
        Some(text) => text,
        None => Seq::empty(),
    }
}

/// Convert events back to Markdown text. Where the serializer fails the
/// text is empty.
fn events_to_markdown(events: &Vec<Event>, ext: Extensions) -> (r: String)
    ensures
        r@ == written_text(events@, ext),
{
    rendered_or_empty(render_markdown(events, ext))
}

/// The state and the events kept after the first `n` parsed events went
/// through the state machine: each is described, takes one step, and what
/// the step hands on is put behind the events kept so far.
pub open spec fn kept_after(parsed: Seq<Event<'static>>, n: int) -> (StateView, Seq<Event<'static>>)
    decreases n,
{
    if n <= 0 || n > parsed.len() {
        (initial_state(), Seq::empty())
    } else {
        let before = kept_after(parsed, n - 1);
        let next = step(before.0, described_event(parsed, n - 1));
        (
            next.0,
            match next.1 {
                Some(e) => kept_with(before.1, parsed, n - 1, e),
                None => before.1,
            },
        )
    }
}

/// What the event pass makes of a document: the document is parsed with
/// the document extensions, its events go through the state machine, and
/// the events that are kept are written back with the same extensions.
pub open spec fn ast_written(content: Seq<char>) -> Seq<char> {
    written_text(
        kept_after(
            parsed_events(content, document()),
            parsed_events(content, document()).len() as int,
        ).1,
        document(),
    )
}

/// Parse the document, run its events through the state machine, and write
/// the events that are left back as Markdown.
pub fn process_with_ast(content: &str) -> (r: String)
    ensures
        r@ == ast_written(content@),
{
    let ext = document_extensions();
    let parsed = parse_markdown(content, ext);
    let mut kept: Vec<Event> = Vec::new();
    let mut state = ProcessorState::new();
    let mut i: usize = 0;
    proof {
        assert(kept@ =~= kept_after(parsed@, 0).1);
    }
    while i < parsed.len()
        invariant
            i <= parsed.len(),
            (state@, kept@) == kept_after(parsed@, i as int),
        decreases parsed.len() - i,
    {
        match process_event(describe_event(&parsed, i), &mut state) {
            Some(e) => {
                keep_event(&mut kept, &parsed, i, e);
            },
            None => {},
        }
        i += 1;
    }
    events_to_markdown(&kept, ext)
}

/// Convert Hugo shortcodes to accordion tags.
pub fn convert_hugo_shortcodes(content: &str) -> (r: String)
    ensures
        r@ == shortcodes_converted(content@),
{
    from_chars(&convert_shortcodes_chars(&to_chars(content)))
}

/// Remove empty table rows from a piece of HTML.
pub fn fix_malformed_html_ast(html: &str) -> (r: String)
    ensures
        r@ == rows_repaired(html@),
{
    from_chars(&fix_malformed_chars(&to_chars(html)))
}

/// Convert the style attributes of a piece of HTML to object literals.
pub fn convert_style_to_jsx_ast(html: &str) -> (r: String)
    ensures
        r@ == styles_converted(html@),
{
    from_chars(&convert_style_chars(&to_chars(html)))
}

/// Convert a CSS property name to camel case.
pub fn css_to_camel_case(prop: &str) -> (r: String)
    ensures
        r@ == camel_case(prop@),
{
    from_chars(&camel_case_chars(&to_chars(prop)))
}

/// Replace three or more consecutive line breaks by two.
pub fn cleanup_blank_lines(content: &str) -> (r: String)
    ensures
        r@ == blank_lines_collapsed(content@),
{
    from_chars(&collapse_blank_lines_chars(&to_chars(content)))
}

/// Escape curly braces in math expressions.
pub fn escape_curly_braces_in_math(content: &str) -> (r: String)
    ensures
        r@ == escape_math(content@),
{
    crate::format::regex::escape_curly_braces_in_math(content)
}

/// Wrap consecutive accordions in one container.
pub fn wrap_accordions_in_container(content: &str) -> (r: String)
    ensures
        r@ == wrap_accordions(content@),
{
    crate::format::regex::wrap_accordions_in_container(content)
}

/// What the last three stages make of the text that the event pass wrote:
/// braces in math escaped, accordions grouped, blank lines collapsed.
pub open spec fn finished(s: Seq<char>) -> Seq<char> {
    blank_lines_collapsed(wrap_accordions(escape_math(s)))
}

/// The stages behind the event pass: math braces, accordion containers,
/// blank lines.
pub fn finish_formatting(text: &str) -> (r: String)
    ensures
        r@ == finished(text@),
{
    let s = to_chars(text);
    let s = escape_math_chars(&s);
    let s = wrap_accordions_chars(&s);
    let s = collapse_blank_lines_chars(&s);
    from_chars(&s)
}

/// What the five stages make of a document: shortcodes converted, the
/// event pass, and the last three stages.
pub open spec fn mdx_formatted(content: Seq<char>) -> Seq<char> {
    finished(ast_written(shortcodes_converted(content)))
}

/// Complete formatting of a document, in five stages: shortcodes, the
/// event pass, math braces, accordion containers, blank lines.
///
/// Whatever the document, no three line breaks stand in a row in the
/// result.
pub fn format_mdx_complete(content: &str) -> (r: String)
    ensures
        r@ == mdx_formatted(content@),
        has_no_blank_run(r@),
{
    let converted = convert_hugo_shortcodes(content);
    let written = process_with_ast(converted.as_str());
    proof {
        lemma_collapse_idempotent(wrap_accordions(escape_math(written@)));
    }
    finish_formatting(written.as_str())
}

/// What an event does to the nesting of tags: it opens a tag, whose
/// debug text it carries, closes one, or neither.
#[derive(Debug, PartialEq, Eq)]
pub enum Nesting {
    Open(String),
    Close,
    Neither,
}

/// A nesting mark as plain values.
pub enum NestingView {
    Open(Seq<char>),
    Close,
    Neither,
}

impl View for Nesting {
    type V = NestingView;

    open spec fn view(&self) -> NestingView {
        match self {
            Nesting::Open(t) => NestingView::Open(t@),
            Nesting::Close => NestingView::Close,
            Nesting::Neither => NestingView::Neither,
        }
    }
}

/// The views of a list of nesting marks.
pub open spec fn marks_view(marks: Seq<Nesting>) -> Seq<NestingView> {
    Seq::new(marks.len(), |i: int| marks[i]@)
}

/// The tags that are open after the first `n` marks, the innermost last;
/// `None` once a mark closed a tag where none was open.
pub open spec fn open_tags(marks: Seq<NestingView>, n: int) -> Option<Seq<Seq<char>>>
    decreases n,
{
    if n <= 0 || n > marks.len() {
        Some(Seq::empty())
    } else {
        match open_tags(marks, n - 1) {
            None => None,
            Some(stack) => match marks[n - 1] {
                NestingView::Open(tag) => Some(stack.push(tag)),
                NestingView::Close => if stack.len() == 0 {
                    None
                } else {
                    Some(stack.drop_last())
                },
                NestingView::Neither => Some(stack),
            },
        }
    }
}

/// The text of a list of texts as `{:?}` writes it.
pub uninterp spec fn debug_list_text(items: Seq<Seq<char>>) -> Seq<char>;

/// The views of a list of strings.
pub open spec fn strings_view(v: Seq<String>) -> Seq<Seq<char>> {
    Seq::new(v.len(), |i: int| v[i]@)
}

/// `format!` with `{:?}` on a `Vec<String>`, which is the `Debug` text of
/// the list as the standard library writes it; the strings alone fix it.
#[verifier::external_body]
fn debug_list(items: &Vec<String>) -> (r: String)
    ensures
        r@ == debug_list_text(strings_view(items@)),
{
    format!("{:?}", items)
}

/// Whether the tags are balanced: an error where a tag is closed that was
/// not opened, or where tags stay open at the end, which the message lists.
pub open spec fn nesting_verdict(marks: Seq<NestingView>) -> Result<(), Seq<char>> {
    match open_tags(marks, marks.len() as int) {
        None => Err("Unexpected closing tag found"@),
        Some(stack) => if stack.len() == 0 {
            Ok(())
        } else {
            Err("Unclosed tags: "@ + debug_list_text(stack))
        },
    }
}

/// View of a verdict.
pub open spec fn verdict_view(r: Result<(), String>) -> Result<(), Seq<char>> {
    match r {
        Ok(_) => Ok(()),
        Err(e) => Err(e@),
    }
}

/// Check that every tag that is opened is closed, and none is closed that
/// was not opened.
pub fn check_nesting(marks: &Vec<Nesting>) -> (r: Result<(), String>)
    ensures
        verdict_view(r) == nesting_verdict(marks_view(marks@)),
{
    let ghost all = marks_view(marks@);
    let mut stack: Vec<String> = Vec::new();
    let mut i: usize = 0;
    proof {
        assert(strings_view(stack@) =~= Seq::<Seq<char>>::empty());
    }
    while i < marks.len()
        invariant
            i <= marks.len(),
            all == marks_view(marks@),
            open_tags(all, i as int) == Some(strings_view(stack@)),
        decreases marks.len() - i,
    {
        let ghost before = strings_view(stack@);
        assert(all[i as int] == marks@[i as int]@);
        match &marks[i] {
            Nesting::Open(tag) => {
                let copy = tag.clone();
                proof {
                    assert(strings_view(stack@.push(copy)) =~= before.push(tag@));
                }
                stack.push(copy);
            },
            Nesting::Close => {
                if stack.len() == 0 {
                    proof {
                        lemma_unexpected_close_stays(all, i + 1, all.len() as int);
                    }
                    return Err(from_chars(&to_chars("Unexpected closing tag found")));
                }
                proof {
                    assert(strings_view(stack@.drop_last()) =~= before.drop_last());
                }
                stack.pop();
            },
            Nesting::Neither => {},
        }
        i += 1;
    }
    if stack.len() != 0 {
        let mut message = to_chars("Unclosed tags: ");
        append_str(&mut message, debug_list(&stack).as_str());
        return Err(from_chars(&message));
    }
    Ok(())
}

proof fn lemma_unexpected_close_stays(marks: Seq<NestingView>, k: int, n: int)
    requires
        0 <= k <= n <= marks.len(),
        open_tags(marks, k) is None,
    ensures
        open_tags(marks, n) is None,
    decreases n - k,
{
    if k < n {
        lemma_unexpected_close_stays(marks, k, n - 1);
    }
}

/// What the event at index `i` does to the nesting of tags.
pub uninterp spec fn nesting_mark(events: Seq<Event<'static>>, i: int) -> NestingView;

/// Tells start, end and other events apart at index `i`; a start carries
/// the `Debug` text of its tag, which `format!` with `{:?}` writes.
#[verifier::external_body]
fn nesting_of(events: &Vec<Event>, i: usize) -> (r: Nesting)
    requires
        i < events.len(),
    ensures
        r@ == nesting_mark(events@, i as int),
{
    match &events[i] {
        Event::Start(tag) => Nesting::Open(format!("{:?}", tag)),
        Event::End(_) => Nesting::Close,
        _ => Nesting::Neither,
    }
}

/// The nesting marks of a sequence of events.
pub open spec fn nesting_marks(events: Seq<Event<'static>>) -> Seq<NestingView> {
    Seq::new(events.len(), |i: int| nesting_mark(events, i))
}

/// No syntax extension.
pub open spec fn plain() -> Extensions {
    Extensions { tables: false, strikethrough: false, footnotes: false }
}

/// Whether the document is well nested: the verdict on the nesting marks
/// of its events, the document parsed without extensions.
pub open spec fn mdx_verdict(content: Seq<char>) -> Result<(), Seq<char>> {
    nesting_verdict(nesting_marks(parsed_events(content, plain())))
}

/// Validate the structure of a document: parsed without extensions, its
/// start and end events must be balanced.
pub fn validate_mdx(content: &str) -> (r: Result<(), String>)
    ensures
        verdict_view(r) == mdx_verdict(content@),
{
    let parsed = parse_markdown(
        content,
        Extensions { tables: false, strikethrough: false, footnotes: false },
    );
    let mut marks: Vec<Nesting> = Vec::new();
    let mut i: usize = 0;
    proof {
        assert(marks_view(marks@) =~= nesting_marks(parsed@).take(0));
    }
    while i < parsed.len()
        invariant
            i <= parsed.len(),
            marks_view(marks@) == nesting_marks(parsed@).take(i as int),
        decreases parsed.len() - i,
    {
        let mark = nesting_of(&parsed, i);
        proof {
            assert(marks_view(marks@.push(mark)) =~= marks_view(marks@).push(mark@));
            assert(nesting_marks(parsed@)[i as int] == mark@);
            assert(nesting_marks(parsed@).take(i + 1) =~= nesting_marks(parsed@).take(
                i as int,
            ).push(mark@));
        }
        marks.push(mark);
        i += 1;
    }
    proof {
        assert(nesting_marks(parsed@).take(parsed.len() as int) =~= nesting_marks(parsed@));
    }
    check_nesting(&marks)
}

} // verus!
