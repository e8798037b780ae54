//! Reads BPMN content: XML events become tokens, tokens build the diagram.
use vstd::prelude::*;
use crate::builder::{DataBuilder, XmlToken, spec_feed, spec_parse_run};
use crate::diagram::Diagram;
use crate::error::{ParseError, ParseErrorKind};
use crate::text::{decimal, join2, owned};
use crate::xml::{XmlEvent, reader_from_str, read_event, error_position, error_text, start_name, end_name,
    text_content, attributes, next_attribute};
use quick_xml::events::BytesStart;

verus! {

/// Whether a byte continues a UTF-8 sequence (it is not the first byte of a character).
pub open spec fn is_continuation(b: u8) -> bool {
    0x80 <= b && b < 0xC0
}

/// The line (counted from 1) and the column (characters since the last line
/// feed) reached after the bytes.
pub open spec fn spec_line_column(b: Seq<u8>) -> (nat, nat)
    decreases b.len(),
{
    if b.len() == 0 {
        (1, 0)
    } else {
        let lc = spec_line_column(b.drop_last());
        if b.last() == 10u8 {
            (lc.0 + 1, 0)
        } else if is_continuation(b.last()) {
            lc
        } else {
            (lc.0, lc.1 + 1)
        }
    }
}

/// Where the character that holds byte `pos - 1` starts: the last byte
/// before `pos` that begins a character (0 if there is none).
pub open spec fn spec_char_start(b: Seq<u8>, pos: int) -> int
    decreases pos,
{
    if pos <= 0 {
        0
    } else if !is_continuation(b[pos - 1]) {
        pos - 1
    } else {
        spec_char_start(b, pos - 1)
    }
}

proof fn lemma_line_column_bound(b: Seq<u8>)
    ensures
        spec_line_column(b).0 <= b.len() + 1,
        spec_line_column(b).1 <= b.len(),
    decreases b.len(),
{
    if b.len() > 0 {
        lemma_line_column_bound(b.drop_last());
    }
}

/// Line and column of the byte offset `pos` of the input. Where `pos` splits
/// a character, the prefix is not valid UTF-8 and an encoding error comes back,
/// naming the index where the cut character starts.
pub fn line_and_column(bytes: &Vec<u8>, pos: usize) -> (r: Result<(usize, usize), ParseError>)
    requires
        pos <= bytes@.len(),
        bytes@.len() < usize::MAX,
    ensures
        (pos == bytes@.len() || !is_continuation(bytes@[pos as int])) ==>
            r == Ok::<(usize, usize), ParseError>((spec_line_column(bytes@.subrange(0, pos as int)).0 as usize,
                spec_line_column(bytes@.subrange(0, pos as int)).1 as usize)),
        !(pos == bytes@.len() || !is_continuation(bytes@[pos as int])) ==>
            (r matches Err(e) && e.source matches ParseErrorKind::Encoding(m)
                && m@ == "incomplete utf-8 byte sequence from index "@
                    + crate::text::spec_decimal(spec_char_start(bytes@, pos as int) as nat)),
{
    if pos < bytes.len() && 0x80 <= bytes[pos] && bytes[pos] < 0xC0 {
        let mut k: usize = pos;
        while k > 0 && 0x80 <= bytes[k - 1] && bytes[k - 1] < 0xC0
            invariant
                k <= pos < bytes@.len(),
                spec_char_start(bytes@, pos as int) == spec_char_start(bytes@, k as int),
            decreases k,
        {
            k = k - 1;
        }
        let start: usize = if k > 0 { k - 1 } else { 0 };
        return Err(ParseError {
            source: ParseErrorKind::Encoding(join2("incomplete utf-8 byte sequence from index ", decimal(start).as_str())),
        });
    }
    let mut line: usize = 1;
    let mut column: usize = 0;
    let mut i: usize = 0;
    while i < pos
        invariant
            i <= pos <= bytes@.len() < usize::MAX,
            (line as nat, column as nat) == spec_line_column(bytes@.subrange(0, i as int)),
        decreases pos - i,
    {
        proof {
            assert(bytes@.subrange(0, i + 1).drop_last() =~= bytes@.subrange(0, i as int));
            lemma_line_column_bound(bytes@.subrange(0, i as int));
        }
        let b = bytes[i];
        if b == 10u8 {
            line = line + 1;
            column = 0;
        } else if !(0x80 <= b && b < 0xC0) {
            column = column + 1;
        }
        i = i + 1;
    }
    Ok((line, column))
}

/// The attributes of a tag, as the reader hands them out. At most `limit`
/// are read: no tag of an input holds more attributes than the input has bytes.
fn collect_raw_attributes<'a>(e: &BytesStart<'a>, limit: usize) -> (r: Vec<Option<(String, String)>>)
    ensures
        r@.len() <= limit,
{
    let mut it = attributes(e);
    let mut r: Vec<Option<(String, String)>> = Vec::new();
    let mut n: usize = 0;
    while n < limit
        invariant
            n <= limit,
            r@.len() == n,
        decreases limit - n,
    {
        match next_attribute(&mut it) {
            Some(a) => { r.push(a); },
            None => { break; },
        }
        n = n + 1;
    }
    r
}

/// The token for an event, or `None` at the end of the input.
fn token_of<'a>(event: XmlEvent<'a>, limit: usize) -> (r: Option<XmlToken>)
    ensures
        event is Eof <==> r is None,
        event is Other ==> r == Some(XmlToken::Other),
        event is Start ==> (r matches Some(XmlToken::Start { attributes, .. }) && attributes@.len() <= limit),
        event is Empty ==> (r matches Some(XmlToken::Empty { attributes, .. }) && attributes@.len() <= limit),
        event is End ==> (r matches Some(XmlToken::End { .. })),
        event is Text ==> (r matches Some(XmlToken::Text(_))),
{
    match event {
        XmlEvent::Start(e) => Some(XmlToken::Start { name: start_name(&e), attributes: collect_raw_attributes(&e, limit) }),
        XmlEvent::Empty(e) => Some(XmlToken::Empty { name: start_name(&e), attributes: collect_raw_attributes(&e, limit) }),
        XmlEvent::End(e) => Some(XmlToken::End { name: end_name(&e) }),
        XmlEvent::Text(e) => Some(XmlToken::Text(text_content(e))),
        XmlEvent::Eof => None,
        XmlEvent::Other => Some(XmlToken::Other),
    }
}

/// Reads BPMN content and returns its diagram. An XML error is reported with
/// the line and column where the reader found it. Every event but the last
/// consumes input, so at most `s.len() + 1` events are read; should the reader
/// ever hand out more, reading stops with an XML error. A result that is not
/// an error of the reader (an XML error, or the encoding error of a position
/// it gave) is what handling, in turn, the tokens it handed out gives (see
/// `spec_parse_run`); which tokens those are is left to the reader.
pub fn read_bpmn(s: &str) -> (r: Result<Diagram, ParseError>)
    ensures
        r matches Ok(d) ==> d.wf(),
        (r is Ok || !(r->Err_0.source is Xml || r->Err_0.source is Encoding)) ==>
            exists|ts: Seq<XmlToken>, bs: Seq<DataBuilder>| #[trigger] spec_parse_run(ts, bs, r),
{
    let bytes = s.as_bytes_vec();
    let len = bytes.len();
    let mut reader = reader_from_str(s);
    let mut builder = DataBuilder::new();
    let ghost mut toks: Seq<XmlToken> = Seq::empty();
    let ghost mut trace: Seq<DataBuilder> = seq![builder];
    let mut fuel: usize = if len < usize::MAX { len + 1 } else { len };
    while fuel > 0
        invariant
            builder.inv(),
            bytes@.len() == len,
            trace.len() == toks.len() + 1,
            trace.last() == builder,
            crate::builder::spec_fresh_builder(trace[0]),
            forall|k: int| 0 <= k < toks.len() ==> spec_feed(trace[k], #[trigger] toks[k], trace[k + 1], Ok(())),
        decreases fuel,
    {
        fuel = fuel - 1;
        match read_event(&mut reader) {
            Err(e) => {
                if len == usize::MAX {
                    return Err(ParseError { source: ParseErrorKind::Xml { line: 0, column: 0, source: error_text(&e) } });
                }
                let p = error_position(&reader);
                let pos: usize = if p > len as u64 { len } else { p as usize };
                let (line, column) = match line_and_column(&bytes, pos) {
                    Ok(lc) => lc,
                    Err(e) => { return Err(e); },
                };
                return Err(ParseError { source: ParseErrorKind::Xml { line, column, source: error_text(&e) } });
            },
            Ok(event) => {
                match token_of(event, len) {
                    Some(t) => {
                        let ghost gt = t;
                        let ghost pre = builder;
                        match builder.feed(t) {
                            Ok(()) => {},
                            Err(e) => {
                                proof {
                                    let ts = toks.push(gt);
                                    assert(ts[toks.len() as int] == gt);
                                    assert(spec_feed(trace.last(), ts[trace.len() - 1], builder, Err(e)));
                                    assert forall|k: int| 0 <= k < trace.len() - 1 implies
                                        spec_feed(trace[k], #[trigger] ts[k], trace[k + 1], Ok(())) by {
                                        assert(ts[k] == toks[k]);
                                    }
                                    assert(spec_parse_run(ts, trace, Err(e)));
                                }
                                return Err(e);
                            },
                        }
                        proof {
                            let old_trace = trace;
                            let old_toks = toks;
                            trace = trace.push(builder);
                            toks = toks.push(gt);
                            assert forall|k: int| 0 <= k < toks.len() implies
                                spec_feed(trace[k], #[trigger] toks[k], trace[k + 1], Ok(())) by {
                                if k < old_toks.len() {
                                    assert(trace[k] == old_trace[k] && trace[k + 1] == old_trace[k + 1]);
                                    assert(toks[k] == old_toks[k]);
                                } else {
                                    assert(trace[k] == pre);
                                }
                            }
                        }
                    },
                    None => {
                        let d = builder.into_diagram();
                        assert(spec_parse_run(toks, trace, Ok(d)));
                        return Ok(d);
                    },
                }
            },
        }
    }
    Err(ParseError { source: ParseErrorKind::Xml { line: 0, column: 0, source: owned("more events than bytes of input") } })
}

} // verus!
