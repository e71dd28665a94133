use vstd::prelude::*;
use vstd::string::StringSliceAdditionalSpecFns;
use pulldown_cmark::{Event, Tag};

verus! {

/// The kind of container that a markup event opens, reduced to the cases
/// recipe parsing distinguishes.
#[derive(Debug, PartialEq)]
pub enum MdTag {
    Heading(u8),
    Paragraph,
    Emphasis,
    Strong,
    List,
    Item,
    Link(String),
    Other,
}

/// One low-level markup event, reduced to plain values.
#[derive(Debug, PartialEq)]
pub enum MdEvent {
    Start(MdTag),
    End,
    Text(String),
    Rule,
    Other,
}

/// One event together with the half-open byte span it covers in the source.
#[derive(Debug, PartialEq)]
pub struct SpannedEvent {
    pub event: MdEvent,
    pub start: usize,
    pub end: usize,
}

#[verifier::external_type_specification]
#[verifier::external_body]
pub struct ExDefaultBrokenLinkCallback(pulldown_cmark::DefaultBrokenLinkCallback);

#[verifier::external_type_specification]
#[verifier::external_body]
#[verifier::reject_recursive_types(F)]
pub struct ExOffsetIter<'a, F>(pulldown_cmark::OffsetIter<'a, F>);

/// The event stream that the markup tokenizer derives from a source text:
/// each event in document order, with its byte span, reduced to the
/// library's own event type.
pub uninterp spec fn md_events(src: Seq<u8>) -> Seq<SpannedEvent>;

/// A cursor over the markup tokenizer's event stream. `taken` counts the
/// events already handed out; `source` is the byte view of the text the
/// cursor was built over. Only this module can build one, so the two ghost
/// fields always describe the wrapped iterator.
struct EventCursor<'s> {
    iter: pulldown_cmark::OffsetIter<'s, pulldown_cmark::DefaultBrokenLinkCallback>,
    taken: Ghost<int>,
    source: Ghost<Seq<u8>>,
}

/// Relies on `pulldown_cmark::Parser::new` and `Parser::into_offset_iter`:
/// builds the event iterator over `src`. What it yields is stated on
/// `cursor_next`.
#[verifier::external_body]
fn offset_iter_new<'s>(
    src: &'s str,
) -> pulldown_cmark::OffsetIter<'s, pulldown_cmark::DefaultBrokenLinkCallback> {
    pulldown_cmark::Parser::new(src).into_offset_iter()
}

fn cursor_new<'s>(src: &'s str) -> (c: EventCursor<'s>)
    ensures
        c.source@ == src.spec_bytes(),
        c.taken@ == 0,
{
    EventCursor { iter: offset_iter_new(src), taken: Ghost(0int), source: Ghost(src.spec_bytes()) }
}

/// Relies on `Iterator::next` of `pulldown_cmark::OffsetIter`: the source's
/// events come back one at a time, in document order, each with its byte
/// span; the body only maps the yielded event onto the library's event type,
/// one arm for each variant the recipe grammar distinguishes.
#[verifier::external_body]
fn cursor_next(c: &mut EventCursor<'_>) -> (r: Option<SpannedEvent>)
    requires
        0 <= old(c).taken@,
    ensures
        final(c).source@ == old(c).source@,
        ({
            let evs = md_events(old(c).source@);
            if old(c).taken@ < evs.len() {
                &&& r == Some(evs[old(c).taken@])
                &&& final(c).taken@ == old(c).taken@ + 1
            } else {
                &&& r is None
                &&& final(c).taken@ == old(c).taken@
            }
        }),
{
    c.iter.next().map(|(e, r)| SpannedEvent {
        event: match e {
            Event::Start(t) => MdEvent::Start(match t {
                Tag::Heading { level, .. } => MdTag::Heading(level as u8),
                Tag::Paragraph => MdTag::Paragraph, Tag::Emphasis => MdTag::Emphasis,
                Tag::Strong => MdTag::Strong, Tag::List(_) => MdTag::List,
                Tag::Item => MdTag::Item,
                Tag::Link { dest_url, .. } => MdTag::Link(dest_url.into_string()),
                _ => MdTag::Other,
            }),
            Event::End(_) => MdEvent::End, Event::Text(t) => MdEvent::Text(t.into_string()),
            Event::Rule => MdEvent::Rule, _ => MdEvent::Other,
        }, start: r.start, end: r.end,
    })
}

/// Runs the markup tokenizer over the whole source text and returns its
/// event stream as one vector.
pub fn tokenize(src: &str) -> (evs: Vec<SpannedEvent>)
    ensures
        evs@ == md_events(src.spec_bytes()),
{
    let mut c = cursor_new(src);
    let mut evs: Vec<SpannedEvent> = Vec::new();
    loop
        invariant
            0 <= c.taken@ <= md_events(c.source@).len(),
            c.source@ == src.spec_bytes(),
            evs@ == md_events(c.source@).take(c.taken@),
        ensures
            c.taken@ == md_events(src.spec_bytes()).len(),
            evs@ == md_events(src.spec_bytes()).take(c.taken@),
        decreases md_events(c.source@).len() - c.taken@,
    {
        match cursor_next(&mut c) {
            Some(e) => { evs.push(e); }
            None => { break; }
        }
    }
    proof {
        assert(evs@ =~= md_events(src.spec_bytes()));
    }
    evs
}

/// What `String::from_utf8_lossy` decodes a byte sequence to.
pub uninterp spec fn lossy_decode(bytes: Seq<u8>) -> Seq<char>;

/// Relies on `String::from_utf8_lossy`: decodes the bytes, and decodes a
/// valid encoding exactly.
#[verifier::external_body]
pub(crate) fn bytes_to_string(v: &[u8]) -> (r: String)
    ensures
        r@ == lossy_decode(v@),
        vstd::utf8::valid_utf8(v@) ==> r@ == vstd::utf8::decode_utf8(v@),
{
    String::from_utf8_lossy(v).into_owned()
}

/// What `pulldown_cmark_escape::escape_href` rewrites a link destination to.
pub uninterp spec fn href_escaped(s: Seq<char>) -> Seq<char>;

/// Relies on `pulldown_cmark_escape::escape_href`: percent/entity-escapes the
/// bytes of a link destination that are unsafe in an href; the result depends
/// on the input text alone, and an empty input stays empty.
#[verifier::external_body]
pub(crate) fn escape_url(s: &str) -> (r: String)
    ensures
        r@ == href_escaped(s@),
        s@.len() == 0 ==> r@.len() == 0,
{
    let mut buf = String::new();
    let _ = pulldown_cmark_escape::escape_href(&mut buf, s);
    buf
}

} // verus!
