//! Discovery of fenced code blocks in a Markdown document.

use vstd::prelude::*;
use vstd::string::*;
use vstd::utf8::encode_utf8;
use pulldown_cmark::{CodeBlockKind, Event, Parser, Tag};
use crate::block::{block_of_info, block_views, block_wf, parse_info, BlockView, CodeBlock};

verus! {

/// One event of a document's block structure, as the extractor reads it.
pub enum MdEvent {
    /// A fenced code block opens: its info string and the byte range of
    /// the whole block in the document.
    FenceStart { info: String, start: usize, end: usize },
    /// Text; inside a code block, a piece of its content.
    Text(String),
    /// A code block closes.
    CodeEnd,
    /// Anything else.
    Other,
}

/// What the Markdown parser reports of `doc`.
pub uninterp spec fn events_of(doc: Seq<char>) -> Seq<MdEvent>;

/// Relies on `pulldown_cmark::Parser::new` and `into_offset_iter`: the
/// document's events with their byte ranges, a function of the text alone.
#[verifier::external_body]
fn markdown_events(doc: &str) -> (r: Vec<MdEvent>)
    ensures
        r@ == events_of(doc@),
{
    let mut r = Vec::new();
    for (event, range) in Parser::new(doc).into_offset_iter() {
        r.push(match event {
            Event::Start(Tag::CodeBlock(CodeBlockKind::Fenced(info))) => MdEvent::FenceStart {
                info: info.to_string(), start: range.start, end: range.end },
            Event::Text(t) => MdEvent::Text(t.to_string()),
            Event::End(Tag::CodeBlock(_)) => MdEvent::CodeEnd,
            _ => MdEvent::Other,
        });
    }
    r
}

/// Space, tab, line feed or carriage return.
pub open spec fn is_line_space(b: u8) -> bool {
    b == 32 || b == 9 || b == 10 || b == 13
}

/// Space, tab or `>`: what may stand before a closing fence on its line.
pub open spec fn is_pad(b: u8) -> bool {
    b == 32 || b == 9 || b == 62
}

/// `b` without trailing whitespace.
pub open spec fn trim_end(b: Seq<u8>) -> Seq<u8>
    decreases b.len(),
{
    if b.len() > 0 && is_line_space(b.last()) {
        trim_end(b.drop_last())
    } else {
        b
    }
}

/// The length of the run of `f` that ends `b`.
pub open spec fn trailing_run(b: Seq<u8>, f: u8) -> nat
    decreases b.len(),
{
    if b.len() > 0 && b.last() == f {
        1 + trailing_run(b.drop_last(), f)
    } else {
        0
    }
}

/// The length of the run of padding that ends `b`.
pub open spec fn trailing_pad(b: Seq<u8>) -> nat
    decreases b.len(),
{
    if b.len() > 0 && is_pad(b.last()) {
        1 + trailing_pad(b.drop_last())
    } else {
        0
    }
}

/// The length of the run of `f` that starts `b`.
pub open spec fn leading_run(b: Seq<u8>, f: u8) -> nat
    decreases b.len(),
{
    if b.len() > 0 && b[0] == f {
        1 + leading_run(b.skip(1), f)
    } else {
        0
    }
}

/// The fenced block at bytes `start..end` of `doc` ends with a closing
/// fence: its last non-blank line is padding and then a run of the opening
/// fence character at least as long as the opening run.
pub open spec fn is_closed_fence(doc: Seq<u8>, start: int, end: int) -> bool {
    &&& 0 <= start < end <= doc.len()
    &&& {
        let blk = doc.subrange(start, end);
        let f = blk[0];
        let body = trim_end(blk);
        let r = trailing_run(body, f);
        let rest = body.take(body.len() - r);
        let p = trailing_pad(rest);
        &&& f == 96u8 || f == 126u8
        &&& r >= leading_run(blk, f)
        &&& rest.len() > p
        &&& rest[rest.len() - p - 1] == 10u8
    }
}

/// Whether the fenced block at bytes `start..end` of `doc` is closed.
pub fn fence_closed(doc: &[u8], start: usize, end: usize) -> (r: bool)
    ensures
        r == is_closed_fence(doc@, start as int, end as int),
{
    if !(start < end && end <= doc.len()) {
        return false;
    }
    let ghost blk = doc@.subrange(start as int, end as int);
    let f = doc[start];
    if !(f == 96u8 || f == 126u8) {
        return false;
    }
    // the body: the block without trailing whitespace
    let mut e: usize = end;
    while e > start && (doc[e - 1] == 32u8 || doc[e - 1] == 9u8 || doc[e - 1] == 10u8 || doc[e - 1] == 13u8)
        invariant
            start < end <= doc@.len(),
            start <= e <= end,
            trim_end(blk) == trim_end(doc@.subrange(start as int, e as int)),
        decreases e,
    {
        assert(doc@.subrange(start as int, e as int).drop_last() =~= doc@.subrange(start as int, e - 1));
        e -= 1;
    }
    let ghost body = doc@.subrange(start as int, e as int);
    assert(trim_end(blk) == body);
    // the closing run
    let mut k: usize = e;
    while k > start && doc[k - 1] == f
        invariant
            start <= k <= e <= doc@.len(),
            trailing_run(body, f) == (e - k) + trailing_run(doc@.subrange(start as int, k as int), f),
        decreases k,
    {
        assert(doc@.subrange(start as int, k as int).drop_last() =~= doc@.subrange(start as int, k - 1));
        k -= 1;
    }
    let ghost rest = doc@.subrange(start as int, k as int);
    assert(body.take(body.len() - trailing_run(body, f)) =~= rest);
    // the padding before it
    let mut q: usize = k;
    while q > start && (doc[q - 1] == 32u8 || doc[q - 1] == 9u8 || doc[q - 1] == 62u8)
        invariant
            start <= q <= k <= doc@.len(),
            trailing_pad(rest) == (k - q) + trailing_pad(doc@.subrange(start as int, q as int)),
        decreases q,
    {
        assert(doc@.subrange(start as int, q as int).drop_last() =~= doc@.subrange(start as int, q - 1));
        q -= 1;
    }
    // the opening run
    let mut j: usize = start;
    while j < end && doc[j] == f
        invariant
            start <= j <= end <= doc@.len(),
            leading_run(blk, f) == (j - start) + leading_run(doc@.subrange(j as int, end as int), f),
        decreases end - j,
    {
        assert(doc@.subrange(j as int, end as int).skip(1) =~= doc@.subrange(j + 1, end as int));
        j += 1;
    }
    assert(rest.len() - trailing_pad(rest) == q - start);
    let closed = (e - k) >= (j - start) && q > start && doc[q - 1] == 10u8;
    assert(closed ==> rest[q - start - 1] == doc@[q - 1]);
    closed
}


/// Reading the events `evs` of the document with bytes `doc` in order: the
/// blocks completed so far, and the block being read, if any.
pub open spec fn scan_events(doc: Seq<u8>, evs: Seq<MdEvent>) -> (Seq<BlockView>, Option<(BlockView, bool)>)
    decreases evs.len(),
{
    if evs.len() == 0 {
        (Seq::empty(), None)
    } else {
        let (bs, cur) = scan_events(doc, evs.drop_last());
        match evs.last() {
            MdEvent::FenceStart { info, start, end } =>
                (bs, Some((block_of_info(info@), is_closed_fence(doc, start as int, end as int)))),
            MdEvent::Text(t) => match cur {
                Some((b, c)) => (bs, Some((BlockView { content: b.content + t@, ..b }, c))),
                None => (bs, None),
            },
            MdEvent::CodeEnd => match cur {
                Some((b, c)) => (if c { bs.push(b) } else { bs }, None),
                None => (bs, None),
            },
            MdEvent::Other => (bs, cur),
        }
    }
}

/// The closed fenced blocks that the events `evs` of the document with
/// bytes `doc` describe, in order; a block whose fence is never closed is
/// left out.
pub open spec fn blocks_of_events(doc: Seq<u8>, evs: Seq<MdEvent>) -> Seq<BlockView> {
    scan_events(doc, evs).0
}

/// The fenced code blocks of the document `doc`.
pub open spec fn extracted(doc: Seq<char>) -> Seq<BlockView> {
    blocks_of_events(encode_utf8(doc), events_of(doc))
}

/// Every block of `bs` names a target only with a language.
pub open spec fn all_wf(bs: Seq<BlockView>) -> bool {
    forall|i: int| 0 <= i < bs.len() ==> block_wf(#[trigger] bs[i])
}

/// Collects the closed fenced blocks that the events `events` of the
/// document with bytes `doc` describe.
pub fn blocks_from_events(doc: &[u8], events: &Vec<MdEvent>) -> (r: Vec<CodeBlock>)
    ensures
        block_views(r@) == blocks_of_events(doc@, events@),
        all_wf(block_views(r@)),
{
    let mut blocks: Vec<CodeBlock> = Vec::new();
    let mut cur: Option<CodeBlock> = None;
    let mut cur_closed = false;
    let n = events.len();
    let mut i: usize = 0;
    while i < n
        invariant
            n == events@.len(),
            i <= n,
            ({
                let (bs, c) = scan_events(doc@, events@.take(i as int));
                &&& bs == block_views(blocks@)
                &&& match cur {
                    Some(b) => c == Some((b@, cur_closed)),
                    None => c is None,
                }
            }),
            all_wf(block_views(blocks@)),
            cur matches Some(b) ==> block_wf(b@),
        decreases n - i,
    {
        assert(events@.take(i + 1).drop_last() =~= events@.take(i as int));
        assert(events@.take(i + 1).last() == events@[i as int]);
        match &events[i] {
            MdEvent::FenceStart { info, start, end } => {
                cur = Some(parse_info(info.as_str()));
                cur_closed = fence_closed(doc, *start, *end);
            },
            MdEvent::Text(t) => {
                match cur {
                    Some(mut b) => {
                        b.content.append(t.as_str());
                        cur = Some(b);
                    },
                    None => {},
                }
            },
            MdEvent::CodeEnd => {
                match cur {
                    Some(b) => {
                        if cur_closed {
                            let ghost before = blocks@;
                            blocks.push(b);
                            assert(block_views(blocks@) =~= block_views(before).push(b@));
                        }
                        cur = None;
                    },
                    None => {},
                }
            },
            MdEvent::Other => {},
        }
        i += 1;
    }
    assert(events@.take(n as int) =~= events@);
    blocks
}

/// Extracts the fenced code blocks of a Markdown document, in document
/// order; a block whose fence is never closed is left out.
pub fn extract_code_blocks(document: &str) -> (r: Vec<CodeBlock>)
    ensures
        block_views(r@) == extracted(document@),
        all_wf(block_views(r@)),
{
    let events = markdown_events(document);
    blocks_from_events(document.as_bytes(), &events)
}

} // verus!
