//! The executable scanner and sequencer: zero-copy spans over the input
//! buffer, proved to produce exactly what the specification scanner
//! (`crate::model::scan_from`) describes.
use vstd::prelude::*;
use vstd::slice::slice_subrange;

use crate::model::{
    close_first_byte, concat_raw, find_delim_from, find_token_from, is_close_at, is_delim_at,
    is_open_at, is_space, lemma_find_delim_props, lemma_find_token_props,
    lemma_newline_count_bounds, lemma_newline_count_concat, lemma_newline_count_split,
    lemma_scan_step_span, lemma_trim_back_subrange, lemma_trim_front_subrange, newline_count,
    parse_spec, scan_from, scan_step, span_block, spans_to_blocks, trim_ascii, BlockV, FailKind,
    NumberedBlockV, SpecFail, SpecStep, SpecialV, HASH, LBRACE, NL, PERCENT, RBRACE,
};

verus! {

// ---------------------------------------------------------------------------
// Spans
// ---------------------------------------------------------------------------

/// A remaining input slice together with the 1-based line its first byte
/// is on: the scanner's cursor.
#[derive(Clone, Debug)]
pub struct NumberedInput<'a> {
    pub line_number: usize,
    pub i: &'a [u8],
}

impl<'a> NumberedInput<'a> {
    /// How many bytes remain unscanned.
    pub fn input_len(&self) -> (n: usize)
        ensures
            n == self.i@.len(),
    {
        self.i.len()
    }
}

/// A tag span: the kind and the body bytes, trimmed of leading and trailing
/// ASCII whitespace. The slice borrows from the original input buffer.
#[derive(Clone, Copy, Debug)]
pub enum Special<'a> {
    TagPercent(&'a [u8]),
    TagCurly(&'a [u8]),
    TagHash(&'a [u8]),
}

/// One span: a tag, or a maximal plain-text run holding no delimiter token.
#[derive(Clone, Copy, Debug)]
pub enum Block<'a> {
    Special(Special<'a>),
    Plain(&'a [u8]),
}

/// A span together with the 1-based line its first byte is on.
#[derive(Clone, Copy, Debug)]
pub struct NumberedBlock<'a> {
    pub line_number: usize,
    pub block: Block<'a>,
}

impl<'a> View for Special<'a> {
    type V = SpecialV;

    open spec fn view(&self) -> SpecialV {
        match self {
            Special::TagPercent(b) => SpecialV::TagPercent(b@),
            Special::TagCurly(b) => SpecialV::TagCurly(b@),
            Special::TagHash(b) => SpecialV::TagHash(b@),
        }
    }
}

impl<'a> View for Block<'a> {
    type V = BlockV;

    open spec fn view(&self) -> BlockV {
        match self {
            Block::Special(sv) => BlockV::Special(sv@),
            Block::Plain(b) => BlockV::Plain(b@),
        }
    }
}

impl<'a> View for NumberedBlock<'a> {
    type V = NumberedBlockV;

    open spec fn view(&self) -> NumberedBlockV {
        NumberedBlockV { line_number: self.line_number as int, block: self.block@ }
    }
}

/// The models of a sequence of spans.
pub open spec fn blocks_view<'a>(v: Seq<NumberedBlock<'a>>) -> Seq<NumberedBlockV> {
    v.map_values(|b: NumberedBlock<'a>| b@)
}

// ---------------------------------------------------------------------------
// Human-readable rendering of spans
// ---------------------------------------------------------------------------

/// The rendering of a labelled byte slice: the label, then in parentheses
/// the bytes decoded as UTF-8 text when they are valid, with an explicit
/// error indicator otherwise.
pub uninterp spec fn debug_repr(label: Seq<char>, bytes: Seq<u8>) -> Seq<char>;

/// Relies on `core::str::from_utf8` and std's `Debug` formatting: the
/// result is the label followed, in parentheses, by `Ok("...")` with the
/// bytes decoded when they are valid UTF-8 and by `Err(..)` naming the
/// decode error otherwise. It is a function of the two arguments alone.
#[verifier::external_body]
fn debug_render(label: &str, bytes: &[u8]) -> (r: String)
    ensures
        r@ == debug_repr(label@, bytes@),
{
    format!("{}({:?})", label, core::str::from_utf8(bytes))
}

/// The rendering of a tag span: its kind's name, then its body decoded as
/// UTF-8 when valid.
pub open spec fn special_describe(v: SpecialV) -> Seq<char> {
    match v {
        SpecialV::TagPercent(b) => debug_repr("TagPercent"@, b),
        SpecialV::TagCurly(b) => debug_repr("TagCurly"@, b),
        SpecialV::TagHash(b) => debug_repr("TagHash"@, b),
    }
}

/// The rendering of any span: a tag as its kind, a plain run as `Plain`,
/// each with its bytes decoded as UTF-8 when valid.
pub open spec fn block_describe(v: BlockV) -> Seq<char> {
    match v {
        BlockV::Special(sv) => special_describe(sv),
        BlockV::Plain(b) => debug_repr("Plain"@, b),
    }
}

impl<'a> Special<'a> {
    /// A human-readable rendering for tests and inspection — not a stable
    /// wire format. The body is decoded as UTF-8 text when valid, with an
    /// explicit indicator otherwise.
    pub fn describe(&self) -> (r: String)
        ensures
            r@ == special_describe(self@),
    {
        match self {
            Special::TagPercent(b) => debug_render("TagPercent", b),
            Special::TagCurly(b) => debug_render("TagCurly", b),
            Special::TagHash(b) => debug_render("TagHash", b),
        }
    }
}

impl<'a> Block<'a> {
    /// A human-readable rendering for tests and inspection — not a stable
    /// wire format. The bytes are decoded as UTF-8 text when valid, with an
    /// explicit indicator otherwise.
    pub fn describe(&self) -> (r: String)
        ensures
            r@ == block_describe(self@),
    {
        match self {
            Block::Special(sv) => sv.describe(),
            Block::Plain(b) => debug_render("Plain", b),
        }
    }
}

// ---------------------------------------------------------------------------
// Errors
// ---------------------------------------------------------------------------

/// Why one scanner invocation produced no span.
#[derive(Clone, Copy, Debug, PartialEq, Eq, Structural)]
pub enum ScanError {
    /// The remaining input is empty: the ordinary end of a scan, not a
    /// malformed template.
    EndOfInput,
    /// An opening token was found but its closing token never occurs in the
    /// remaining input.
    UnterminatedTag,
    /// A closing token appears where no opening token matched: a stray
    /// closing delimiter, structurally invalid input. Fatal: the whole scan
    /// aborts rather than trying further alternatives.
    MalformedClosingDelimiter,
}

/// A failed whole-template scan: what went wrong, the byte offset into the
/// input where it was detected, and the 1-based line at that offset.
#[derive(Clone, Copy, Debug, PartialEq, Eq, Structural)]
pub struct ParseError {
    pub error: ScanError,
    pub offset: usize,
    pub line_number: usize,
}

/// The executable error reports the same failure as the specification scan:
/// the same kind, at the offset where the specification's remaining input
/// begins, on the same line.
pub open spec fn fail_corresponds(e: ParseError, f: SpecFail, total: int) -> bool {
    &&& e.offset == total - f.rem.len()
    &&& e.line_number as int == f.line
    &&& (e.error == ScanError::UnterminatedTag <==> f.kind == FailKind::Unterminated)
    &&& (e.error == ScanError::MalformedClosingDelimiter <==> f.kind == FailKind::StrayClose)
}

// ---------------------------------------------------------------------------
// Executable helpers
// ---------------------------------------------------------------------------

/// Count the newline bytes in `s[from..to]` in one linear pass. This is the
/// line-count accelerator the scanner uses to advance its line counter over
/// a consumed multi-byte region without re-scanning it byte by byte; any
/// faster batched scan must return exactly this count.
pub fn count_newlines(s: &[u8], from: usize, to: usize) -> (n: usize)
    requires
        from <= to <= s@.len(),
    ensures
        n == newline_count(s@.subrange(from as int, to as int)),
{
    let mut n: usize = 0;
    let mut i: usize = from;
    while i < to
        invariant
            from <= i <= to <= s@.len(),
            n == newline_count(s@.subrange(from as int, i as int)),
            n <= i - from,
        decreases to - i,
    {
        assert(s@.subrange(from as int, i + 1 as int).drop_last() =~= s@.subrange(
            from as int,
            i as int,
        ));
        assert(s@.subrange(from as int, i + 1 as int).last() == s@[i as int]);
        if s[i] == NL {
            n = n + 1;
        }
        i = i + 1;
    }
    n
}

/// Find the first occurrence of the two-byte token `c0 c1` at or after
/// `start`.
fn find_token(s: &[u8], start: usize, c0: u8, c1: u8) -> (r: Option<usize>)
    ensures
        match r {
            Some(j) => find_token_from(s@, start as int, c0, c1) == Some(j as int),
            None => find_token_from(s@, start as int, c0, c1) is None,
        },
{
    let n = s.len();
    let mut i: usize = start;
    while 2 <= n && i <= n - 2
        invariant
            n == s@.len(),
            start <= i,
            find_token_from(s@, start as int, c0, c1) == find_token_from(s@, i as int, c0, c1),
        decreases n - i,
    {
        if s[i] == c0 && s[i + 1] == c1 {
            return Some(i);
        }
        assert(find_token_from(s@, i as int, c0, c1) == find_token_from(s@, i + 1 as int, c0, c1));
        i = i + 1;
    }
    assert(i + 2 > s@.len());
    None
}

/// Decide whether any of the six delimiter tokens starts at `i`.
fn delim_at(s: &[u8], i: usize) -> (r: bool)
    requires
        i + 2 <= s@.len(),
    ensures
        r == is_delim_at(s@, i as int),
{
    let a = s[i];
    let b = s[i + 1];
    (a == LBRACE && (b == PERCENT || b == LBRACE || b == HASH)) || (b == RBRACE && (a == PERCENT
        || a == RBRACE || a == HASH))
}

/// Find the first delimiter token at or after `start`.
fn find_delim(s: &[u8], start: usize) -> (r: Option<usize>)
    ensures
        match r {
            Some(j) => find_delim_from(s@, start as int) == Some(j as int),
            None => find_delim_from(s@, start as int) is None,
        },
{
    let n = s.len();
    let mut i: usize = start;
    while 2 <= n && i <= n - 2
        invariant
            n == s@.len(),
            start <= i,
            find_delim_from(s@, start as int) == find_delim_from(s@, i as int),
        decreases n - i,
    {
        if delim_at(s, i) {
            return Some(i);
        }
        assert(find_delim_from(s@, i as int) == find_delim_from(s@, i + 1 as int));
        i = i + 1;
    }
    assert(i + 2 > s@.len());
    None
}

/// Decide whether `b` is ASCII whitespace.
fn space_byte(b: u8) -> (r: bool)
    ensures
        r == is_space(b),
{
    b == 32 || b == 9 || b == 10 || b == 13 || b == 12
}

/// The subslice `s[from..to]` with leading and trailing ASCII whitespace
/// trimmed away; no bytes are copied.
fn trim_range<'a>(s: &'a [u8], from: usize, to: usize) -> (r: &'a [u8])
    requires
        from <= to <= s@.len(),
    ensures
        r@ == trim_ascii(s@.subrange(from as int, to as int)),
{
    let ghost t = s@.subrange(from as int, to as int);
    let mut a: usize = from;
    let mut b: usize = to;
    while a < b && space_byte(s[a])
        invariant
            from <= a <= b == to <= s@.len(),
            forall|k: int| from <= k < a ==> is_space(s@[k]),
        decreases b - a,
    {
        a = a + 1;
    }
    while b > a && space_byte(s[b - 1])
        invariant
            from <= a <= b <= to <= s@.len(),
            forall|k: int| from <= k < a ==> is_space(s@[k]),
            a == to || !is_space(s@[a as int]),
            forall|k: int| b <= k < to ==> is_space(s@[k]),
        decreases b - a,
    {
        b = b - 1;
    }
    proof {
        lemma_trim_front_subrange(t, a - from);
        lemma_trim_back_subrange(t.subrange(a - from, t.len() as int), b - a);
        assert(t.subrange(a - from, t.len() as int) =~= s@.subrange(a as int, to as int));
        assert(t.subrange(a - from, t.len() as int).subrange(0, b - a) =~= s@.subrange(
            a as int,
            b as int,
        ));
    }
    slice_subrange(s, a, b)
}

// ---------------------------------------------------------------------------
// The delimiter scanner
// ---------------------------------------------------------------------------

/// What `scan_block` promises: its result is exactly what one step of the
/// specification scanner does at the head of the remaining input.
pub open spec fn scan_block_post<'a>(
    inp: NumberedInput<'a>,
    r: Result<(NumberedBlock<'a>, NumberedInput<'a>), ScanError>,
) -> bool {
    let s = inp.i@;
    let line = inp.line_number as int;
    match r {
        Ok((nb, rest)) => {
            &&& scan_step(s, line) matches SpecStep::Span(sp) && nb@ == span_block(sp)
                && rest.i@ == s.skip(sp.raw.len() as int) && rest.line_number as int == line
                + newline_count(sp.raw)
        },
        Err(ScanError::EndOfInput) => s.len() == 0,
        Err(ScanError::UnterminatedTag) => scan_step(s, line) == SpecStep::Unterminated,
        Err(ScanError::MalformedClosingDelimiter) => scan_step(s, line) == SpecStep::StrayClose,
    }
}

/// The delimiter scanner: from the remaining input and the current line,
/// produce exactly one next span together with the rest of the input and the
/// advanced line number, or the typed failure that one step of the
/// specification scanner assigns.
pub fn scan_block<'a>(inp: &NumberedInput<'a>) -> (r: Result<
    (NumberedBlock<'a>, NumberedInput<'a>),
    ScanError,
>)
    requires
        inp.line_number + newline_count(inp.i@) <= usize::MAX,
    ensures
        scan_block_post(*inp, r),
{
    let s: &'a [u8] = inp.i;
    let n = s.len();
    if n == 0 {
        return Err(ScanError::EndOfInput);
    }
    proof {
        lemma_newline_count_bounds(s@);
    }
    if n >= 2 && s[0] == LBRACE && (s[1] == PERCENT || s[1] == LBRACE || s[1] == HASH) {
        let open2 = s[1];
        let c0 = if open2 == LBRACE {
            RBRACE
        } else {
            open2
        };
        assert(c0 == close_first_byte(s@[1]));
        match find_token(s, 2, c0, RBRACE) {
            Some(j) => {
                proof {
                    lemma_find_token_props(s@, 2, c0, RBRACE);
                    lemma_newline_count_split(s@, j + 2);
                    lemma_newline_count_bounds(s@.subrange(0, j + 2 as int));
                    lemma_newline_count_bounds(s@.subrange(j + 2 as int, s@.len() as int));
                }
                let body = trim_range(s, 2, j);
                let nl = count_newlines(s, 0, j + 2);
                let rest = NumberedInput {
                    line_number: inp.line_number + nl,
                    i: slice_subrange(s, j + 2, n),
                };
                let block = if open2 == PERCENT {
                    Block::Special(Special::TagPercent(body))
                } else if open2 == LBRACE {
                    Block::Special(Special::TagCurly(body))
                } else {
                    Block::Special(Special::TagHash(body))
                };
                let nb = NumberedBlock { line_number: inp.line_number, block };
                proof {
                    let sp = scan_step(s@, inp.line_number as int)->Span_0;
                    assert(sp.raw == s@.subrange(0, j + 2));
                    assert(rest.i@ =~= s@.skip(sp.raw.len() as int));
                    assert(nb@ == span_block(sp));
                }
                Ok((nb, rest))
            },
            None => Err(ScanError::UnterminatedTag),
        }
    } else if n >= 2 && s[1] == RBRACE && (s[0] == PERCENT || s[0] == RBRACE || s[0] == HASH) {
        Err(ScanError::MalformedClosingDelimiter)
    } else {
        assert(!is_open_at(s@, 0) && !is_close_at(s@, 0));
        let j = match find_delim(s, 0) {
            Some(j) => j,
            None => n,
        };
        proof {
            lemma_find_delim_props(s@, 0);
            lemma_newline_count_split(s@, j as int);
            lemma_newline_count_bounds(s@.subrange(0, j as int));
            lemma_newline_count_bounds(s@.subrange(j as int, s@.len() as int));
        }
        let piece = slice_subrange(s, 0, j);
        let nl = count_newlines(s, 0, j);
        let rest = NumberedInput { line_number: inp.line_number + nl, i: slice_subrange(s, j, n) };
        let nb = NumberedBlock { line_number: inp.line_number, block: Block::Plain(piece) };
        proof {
            let sp = scan_step(s@, inp.line_number as int)->Span_0;
            assert(sp.raw == s@.subrange(0, j as int));
            assert(rest.i@ =~= s@.skip(sp.raw.len() as int));
            assert(nb@ == span_block(sp));
        }
        Ok((nb, rest))
    }
}

// ---------------------------------------------------------------------------
// The span sequencer
// ---------------------------------------------------------------------------

/// The span sequencer: repeatedly apply the scanner from the full input at
/// line 1, accumulating spans, until the input is exhausted (success: the
/// spans cover the whole input) or a failure aborts the scan, reported with
/// its byte offset and line. No recovery or resynchronization is attempted.
pub fn parse_template<'a>(input: &'a [u8]) -> (r: Result<
    (NumberedInput<'a>, Vec<NumberedBlock<'a>>),
    ParseError,
>)
    requires
        input@.len() < usize::MAX,
    ensures
        match r {
            Ok((rest, blocks)) => {
                &&& parse_spec(input@) matches Ok(spans) && blocks_view(blocks@)
                    == spans_to_blocks(spans)
                &&& rest.i@.len() == 0
                &&& rest.line_number as int == 1 + newline_count(input@)
            },
            Err(e) => {
                &&& parse_spec(input@) matches Err(f) && fail_corresponds(
                    e,
                    f,
                    input@.len() as int,
                )
            },
        },
{
    let mut cur = NumberedInput { line_number: 1, i: input };
    let mut blocks: Vec<NumberedBlock<'a>> = Vec::new();
    let ghost mut done: Seq<crate::model::SpecSpan> = Seq::empty();
    proof {
        assert(concat_raw(done) + cur.i@ =~= input@);
        assert(blocks_view(blocks@) =~= spans_to_blocks(done));
        if scan_from(cur.i@, 1) is Ok {
            let tail = scan_from(cur.i@, 1)->Ok_0;
            assert(done + tail =~= tail);
        }
    }
    loop
        invariant
            input@.len() < usize::MAX,
            concat_raw(done) + cur.i@ == input@,
            cur.line_number as int == 1 + newline_count(concat_raw(done)),
            blocks_view(blocks@) == spans_to_blocks(done),
            (match scan_from(cur.i@, cur.line_number as int) {
                Ok(tail) => parse_spec(input@) == Ok::<Seq<crate::model::SpecSpan>, SpecFail>(
                    done + tail,
                ),
                Err(f) => parse_spec(input@) == Err::<Seq<crate::model::SpecSpan>, SpecFail>(f),
            }),
        decreases cur.i@.len(),
    {
        proof {
            lemma_newline_count_concat(concat_raw(done), cur.i@);
            lemma_newline_count_bounds(input@);
            assert(newline_count(concat_raw(done)) + newline_count(cur.i@) == newline_count(
                input@,
            ));
            lemma_newline_count_bounds(concat_raw(done));
            lemma_newline_count_bounds(cur.i@);
        }
        let ghost line0 = cur.line_number as int;
        let ghost s0 = cur.i@;
        match scan_block(&cur) {
            Ok((nb, rest)) => {
                proof {
                    lemma_scan_step_span(s0, line0);
                }
                let ghost sp = scan_step(s0, line0)->Span_0;
                proof {
                    // One unfolding of the specification scan at the old cursor.
                    assert(scan_from(s0, line0) == (match scan_from(
                        rest.i@,
                        rest.line_number as int,
                    ) {
                        Ok(tail) => Ok::<Seq<crate::model::SpecSpan>, SpecFail>(seq![sp] + tail),
                        Err(f) => Err::<Seq<crate::model::SpecSpan>, SpecFail>(f),
                    }));
                    crate::model::lemma_concat_raw_push(done, sp);
                    assert(sp.raw + rest.i@ =~= s0);
                    assert(concat_raw(done.push(sp)) + rest.i@ =~= input@);
                    lemma_newline_count_concat(concat_raw(done), sp.raw);
                    assert(concat_raw(done) + sp.raw =~= concat_raw(done.push(sp)));
                    if scan_from(rest.i@, rest.line_number as int) is Ok {
                        let tail = scan_from(rest.i@, rest.line_number as int)->Ok_0;
                        assert(done + (seq![sp] + tail) =~= done.push(sp) + tail);
                    }
                }
                let ghost blocks0 = blocks@;
                blocks.push(nb);
                proof {
                    assert(blocks@ == blocks0.push(nb));
                    assert(blocks_view(blocks0).len() == blocks0.len());
                    assert(spans_to_blocks(done).len() == done.len());
                    assert(blocks0.len() == done.len());
                    assert forall|ii: int|
                        0 <= ii < blocks@.len() implies blocks_view(blocks@)[ii]
                        == spans_to_blocks(done.push(sp))[ii] by {
                        if ii < blocks0.len() {
                            assert(blocks_view(blocks0)[ii] == spans_to_blocks(done)[ii]);
                            assert(blocks@[ii] == blocks0[ii]);
                            assert(done.push(sp)[ii] == done[ii]);
                        } else {
                            assert(blocks@[ii] == nb);
                            assert(done.push(sp)[ii] == sp);
                        }
                    }
                    assert(blocks_view(blocks@) =~= spans_to_blocks(done.push(sp)));
                    done = done.push(sp);
                }
                cur = rest;
            },
            Err(e) => {
                if matches!(e, ScanError::EndOfInput) {
                    proof {
                        assert(cur.i@ =~= Seq::<u8>::empty());
                        assert(scan_from(cur.i@, cur.line_number as int) == Ok::<
                            Seq<crate::model::SpecSpan>,
                            SpecFail,
                        >(Seq::empty()));
                        assert(done + Seq::<crate::model::SpecSpan>::empty() =~= done);
                        assert(concat_raw(done) =~= input@);
                    }
                    return Ok((cur, blocks));
                } else {
                    proof {
                        assert(scan_step(cur.i@, cur.line_number as int) != SpecStep::End);
                    }
                    let err = ParseError {
                        error: e,
                        offset: input.len() - cur.i.len(),
                        line_number: cur.line_number,
                    };
                    return Err(err);
                }
            },
        }
    }
}

} // verus!
