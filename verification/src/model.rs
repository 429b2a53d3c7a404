//! Mathematical model of the template scan: byte classes, delimiter tokens,
//! two-byte token search, ASCII whitespace trimming, newline accounting, and
//! the specification-level scanner that the executable code is proved against.
use vstd::prelude::*;

verus! {

/// The bytes of the delimiter tokens and of ASCII whitespace, by name:
/// `{` `}` `%` `#`, newline, space, tab, carriage return, form feed.
pub const LBRACE: u8 = 123;

pub const RBRACE: u8 = 125;

pub const PERCENT: u8 = 37;

pub const HASH: u8 = 35;

pub const NL: u8 = 10;

pub const SPACE: u8 = 32;

pub const TAB: u8 = 9;

pub const CR: u8 = 13;

pub const FF: u8 = 12;

// ---------------------------------------------------------------------------
// Byte classes and delimiter tokens
// ---------------------------------------------------------------------------

/// ASCII whitespace, exactly as `u8::is_ascii_whitespace` has it:
/// space, tab, newline, carriage return and form feed.
pub open spec fn is_space(b: u8) -> bool {
    b == SPACE || b == TAB || b == NL || b == CR || b == FF
}

/// An opening token (`{%`, `{{` or `{#`) starts at position `i` of `s`.
pub open spec fn is_open_at(s: Seq<u8>, i: int) -> bool {
    &&& 0 <= i
    &&& i + 2 <= s.len()
    &&& s[i] == LBRACE
    &&& (s[i + 1] == PERCENT || s[i + 1] == LBRACE || s[i + 1] == HASH)
}

/// A closing token (`%}`, `}}` or `#}`) starts at position `i` of `s`.
pub open spec fn is_close_at(s: Seq<u8>, i: int) -> bool {
    &&& 0 <= i
    &&& i + 2 <= s.len()
    &&& s[i + 1] == RBRACE
    &&& (s[i] == PERCENT || s[i] == RBRACE || s[i] == HASH)
}

/// Any of the six delimiter tokens starts at position `i` of `s`.
pub open spec fn is_delim_at(s: Seq<u8>, i: int) -> bool {
    is_open_at(s, i) || is_close_at(s, i)
}

/// First byte of the closing token that matches the opening token whose
/// second byte is `open2`: `{%` closes with `%}`, `{{` with `}}`, `{#` with
/// `#}`. The second byte of every closing token is `}`.
pub open spec fn close_first_byte(open2: u8) -> u8 {
    if open2 == LBRACE { RBRACE } else { open2 }
}

// ---------------------------------------------------------------------------
// Token search
// ---------------------------------------------------------------------------

/// Position of the first occurrence of the two-byte token `c0 c1` at or
/// after `i` in `s`, if there is one.
pub open spec fn find_token_from(s: Seq<u8>, i: int, c0: u8, c1: u8) -> Option<int>
    decreases s.len() - i when 0 <= i
{
    if i + 2 > s.len() {
        None
    } else if s[i] == c0 && s[i + 1] == c1 {
        Some(i)
    } else {
        find_token_from(s, i + 1, c0, c1)
    }
}

/// Position of the first delimiter token (any of the six) at or after `i`.
pub open spec fn find_delim_from(s: Seq<u8>, i: int) -> Option<int>
    decreases s.len() - i when 0 <= i
{
    if i + 2 > s.len() {
        None
    } else if is_delim_at(s, i) {
        Some(i)
    } else {
        find_delim_from(s, i + 1)
    }
}

pub proof fn lemma_find_token_props(s: Seq<u8>, i: int, c0: u8, c1: u8)
    requires
        0 <= i,
    ensures
        match find_token_from(s, i, c0, c1) {
            Some(j) => {
                &&& i <= j
                &&& j + 2 <= s.len()
                &&& s[j] == c0 && s[j + 1] == c1
                &&& forall|k: int| i <= k < j ==> !(#[trigger] s[k] == c0 && s[k + 1] == c1)
            },
            None => forall|k: int| i <= k && k + 2 <= s.len() ==> !(#[trigger] s[k] == c0 && s[k + 1] == c1),
        },
    decreases s.len() - i,
{
    if i + 2 > s.len() {
    } else if s[i] == c0 && s[i + 1] == c1 {
    } else {
        lemma_find_token_props(s, i + 1, c0, c1);
    }
}

pub proof fn lemma_find_delim_props(s: Seq<u8>, i: int)
    requires
        0 <= i,
    ensures
        match find_delim_from(s, i) {
            Some(j) => {
                &&& i <= j
                &&& j + 2 <= s.len()
                &&& is_delim_at(s, j)
                &&& forall|k: int| i <= k < j ==> !is_delim_at(s, k)
            },
            None => forall|k: int| i <= k ==> !is_delim_at(s, k),
        },
    decreases s.len() - i,
{
    if i + 2 > s.len() {
    } else if is_delim_at(s, i) {
    } else {
        lemma_find_delim_props(s, i + 1);
    }
}

// ---------------------------------------------------------------------------
// Newline accounting
// ---------------------------------------------------------------------------

/// Number of newline bytes in `s`.
pub open spec fn newline_count(s: Seq<u8>) -> int
    decreases s.len(),
{
    if s.len() == 0 {
        0
    } else {
        newline_count(s.drop_last()) + if s.last() == NL { 1int } else { 0int }
    }
}

pub proof fn lemma_newline_count_bounds(s: Seq<u8>)
    ensures
        0 <= newline_count(s) <= s.len(),
    decreases s.len(),
{
    if s.len() > 0 {
        lemma_newline_count_bounds(s.drop_last());
    }
}

pub proof fn lemma_newline_count_concat(a: Seq<u8>, b: Seq<u8>)
    ensures
        newline_count(a + b) == newline_count(a) + newline_count(b),
    decreases b.len(),
{
    if b.len() == 0 {
        assert(a + b =~= a);
    } else {
        lemma_newline_count_concat(a, b.drop_last());
        assert((a + b).drop_last() =~= a + b.drop_last());
        assert((a + b).last() == b.last());
    }
}

/// Newlines in `s` split at `k` into the newlines of the two parts.
pub proof fn lemma_newline_count_split(s: Seq<u8>, k: int)
    requires
        0 <= k <= s.len(),
    ensures
        newline_count(s) == newline_count(s.subrange(0, k)) + newline_count(
            s.subrange(k, s.len() as int),
        ),
{
    assert(s =~= s.subrange(0, k) + s.subrange(k, s.len() as int));
    lemma_newline_count_concat(s.subrange(0, k), s.subrange(k, s.len() as int));
}

// ---------------------------------------------------------------------------
// ASCII whitespace trimming
// ---------------------------------------------------------------------------

/// `s` without its leading ASCII whitespace.
pub open spec fn trim_front(s: Seq<u8>) -> Seq<u8>
    decreases s.len(),
{
    if s.len() > 0 && is_space(s.first()) {
        trim_front(s.drop_first())
    } else {
        s
    }
}

/// `s` without its trailing ASCII whitespace.
pub open spec fn trim_back(s: Seq<u8>) -> Seq<u8>
    decreases s.len(),
{
    if s.len() > 0 && is_space(s.last()) {
        trim_back(s.drop_last())
    } else {
        s
    }
}

/// `s` without leading and trailing ASCII whitespace, as
/// `<[u8]>::trim_ascii` has it.
pub open spec fn trim_ascii(s: Seq<u8>) -> Seq<u8> {
    trim_back(trim_front(s))
}

/// `s` carries no leading and no trailing ASCII whitespace.
pub open spec fn is_trimmed(s: Seq<u8>) -> bool {
    s.len() == 0 || (!is_space(s[0]) && !is_space(s[s.len() - 1]))
}

/// If everything before `i` is whitespace and `i` is past it, trimming the
/// front takes exactly the bytes from `i` on.
pub proof fn lemma_trim_front_subrange(s: Seq<u8>, i: int)
    requires
        0 <= i <= s.len(),
        forall|k: int| 0 <= k < i ==> is_space(s[k]),
        i == s.len() || !is_space(s[i]),
    ensures
        trim_front(s) == s.subrange(i, s.len() as int),
    decreases i,
{
    if i == 0 {
        assert(s.subrange(0, s.len() as int) =~= s);
    } else {
        assert(is_space(s.first()));
        lemma_trim_front_subrange(s.drop_first(), i - 1);
        assert(s.drop_first().subrange(i - 1, s.drop_first().len() as int) =~= s.subrange(
            i,
            s.len() as int,
        ));
    }
}

/// If everything from `j` on is whitespace and `j` is before it, trimming the
/// back takes exactly the bytes before `j`.
pub proof fn lemma_trim_back_subrange(s: Seq<u8>, j: int)
    requires
        0 <= j <= s.len(),
        forall|k: int| j <= k < s.len() ==> is_space(s[k]),
        j == 0 || !is_space(s[j - 1]),
    ensures
        trim_back(s) == s.subrange(0, j),
    decreases s.len() - j,
{
    if j == s.len() {
        if s.len() == 0 || !is_space(s.last()) {
            assert(s.subrange(0, s.len() as int) =~= s);
        } else {
            assert(is_space(s[s.len() - 1]));
            assert(false);
        }
    } else {
        assert(is_space(s.last()));
        lemma_trim_back_subrange(s.drop_last(), j);
        assert(s.drop_last().subrange(0, j) =~= s.subrange(0, j));
    }
}

pub proof fn lemma_trim_front_no_leading(s: Seq<u8>)
    ensures
        trim_front(s).len() == 0 || !is_space(trim_front(s)[0]),
    decreases s.len(),
{
    if s.len() > 0 && is_space(s.first()) {
        lemma_trim_front_no_leading(s.drop_first());
    }
}

pub proof fn lemma_trim_back_prefix(s: Seq<u8>)
    ensures
        trim_back(s).len() <= s.len(),
        forall|k: int| 0 <= k < trim_back(s).len() ==> trim_back(s)[k] == s[k],
        trim_back(s).len() == 0 || !is_space(trim_back(s)[trim_back(s).len() - 1]),
    decreases s.len(),
{
    if s.len() > 0 && is_space(s.last()) {
        lemma_trim_back_prefix(s.drop_last());
        assert(trim_back(s) == trim_back(s.drop_last()));
        assert forall|k: int| 0 <= k < trim_back(s).len() implies trim_back(s)[k] == s[k] by {
            assert(trim_back(s)[k] == s.drop_last()[k]);
        }
    }
}

/// Trimming leaves no whitespace at either end.
pub proof fn lemma_trim_ascii_trimmed(s: Seq<u8>)
    ensures
        is_trimmed(trim_ascii(s)),
{
    lemma_trim_front_no_leading(s);
    lemma_trim_back_prefix(trim_front(s));
}

// ---------------------------------------------------------------------------
// Spans: the scanner's output, at the specification level
// ---------------------------------------------------------------------------

/// The three tag kinds, with the trimmed body bytes.
pub enum SpecialV {
    TagPercent(Seq<u8>),
    TagCurly(Seq<u8>),
    TagHash(Seq<u8>),
}

/// A span's content: a plain-text run, or a tag with its trimmed body.
pub enum BlockV {
    Special(SpecialV),
    Plain(Seq<u8>),
}

/// A span's content together with the 1-based line its first byte is on.
pub struct NumberedBlockV {
    pub line_number: int,
    pub block: BlockV,
}

/// A span as the specification scanner produces it: the raw bytes the span
/// covers (delimiters and untrimmed whitespace included), the line its first
/// byte is on, and its content.
pub struct SpecSpan {
    pub raw: Seq<u8>,
    pub line: int,
    pub block: BlockV,
}

/// The body bytes of a tag.
pub open spec fn special_body(v: SpecialV) -> Seq<u8> {
    match v {
        SpecialV::TagPercent(b) => b,
        SpecialV::TagCurly(b) => b,
        SpecialV::TagHash(b) => b,
    }
}

/// The bytes a span contributes to reconstruction: a plain run verbatim, a
/// tag's trimmed body verbatim.
pub open spec fn block_bytes(b: NumberedBlockV) -> Seq<u8> {
    match b.block {
        BlockV::Plain(x) => x,
        BlockV::Special(sv) => special_body(sv),
    }
}

pub open spec fn span_block(sp: SpecSpan) -> NumberedBlockV {
    NumberedBlockV { line_number: sp.line, block: sp.block }
}

pub open spec fn spans_to_blocks(spans: Seq<SpecSpan>) -> Seq<NumberedBlockV> {
    spans.map_values(|sp: SpecSpan| span_block(sp))
}

/// The raw byte ranges of the spans, concatenated in order.
pub open spec fn concat_raw(spans: Seq<SpecSpan>) -> Seq<u8>
    decreases spans.len(),
{
    if spans.len() == 0 {
        Seq::empty()
    } else {
        spans.first().raw + concat_raw(spans.drop_first())
    }
}

pub proof fn lemma_concat_raw_cons(sp: SpecSpan, t: Seq<SpecSpan>)
    ensures
        concat_raw(seq![sp] + t) == sp.raw + concat_raw(t),
{
    assert((seq![sp] + t).first() == sp);
    assert((seq![sp] + t).drop_first() =~= t);
}

pub proof fn lemma_concat_raw_push(spans: Seq<SpecSpan>, sp: SpecSpan)
    ensures
        concat_raw(spans.push(sp)) == concat_raw(spans) + sp.raw,
    decreases spans.len(),
{
    if spans.len() == 0 {
        assert(spans.push(sp)[0] == sp);
        assert(spans.push(sp).drop_first() =~= Seq::<SpecSpan>::empty());
        assert(concat_raw(spans.push(sp)) == sp.raw + concat_raw(Seq::<SpecSpan>::empty()));
        assert(sp.raw + Seq::<u8>::empty() =~= sp.raw);
        assert(concat_raw(spans) + sp.raw =~= sp.raw);
    } else {
        lemma_concat_raw_push(spans.drop_first(), sp);
        assert(spans.push(sp).first() == spans.first());
        assert(spans.push(sp).drop_first() =~= spans.drop_first().push(sp));
        assert(spans.first().raw + (concat_raw(spans.drop_first()) + sp.raw) =~= (spans.first().raw
            + concat_raw(spans.drop_first())) + sp.raw);
    }
}

/// What the reconstruction pass writes: every span's content bytes in order.
pub open spec fn render(blocks: Seq<NumberedBlockV>) -> Seq<u8>
    decreases blocks.len(),
{
    if blocks.len() == 0 {
        Seq::empty()
    } else {
        render(blocks.drop_last()) + block_bytes(blocks.last())
    }
}

// ---------------------------------------------------------------------------
// The specification scanner
// ---------------------------------------------------------------------------

/// The tag block built from an opening token's second byte and a trimmed body.
pub open spec fn tag_kind_block(open2: u8, body: Seq<u8>) -> BlockV {
    if open2 == PERCENT {
        BlockV::Special(SpecialV::TagPercent(body))
    } else if open2 == LBRACE {
        BlockV::Special(SpecialV::TagCurly(body))
    } else {
        BlockV::Special(SpecialV::TagHash(body))
    }
}

/// What one scanner invocation does at the head of the remaining input `s`,
/// on line `line`.
pub enum SpecStep {
    /// The remaining input is empty: the scan is complete.
    End,
    /// One span is produced; its raw bytes are a non-empty prefix of `s`.
    Span(SpecSpan),
    /// An opening token starts `s` but its closing token never occurs.
    Unterminated,
    /// A closing token starts `s` where no opening token matched: a stray
    /// closing delimiter, fatal for the whole scan.
    StrayClose,
}

/// One scanner step. An opening token at the head starts a tag, whose body
/// runs to the first occurrence of the matching closing token and is trimmed
/// of ASCII whitespace; a closing token at the head is a stray delimiter;
/// otherwise a plain run extends to the first delimiter token (or the end),
/// and is never empty.
pub open spec fn scan_step(s: Seq<u8>, line: int) -> SpecStep {
    if s.len() == 0 {
        SpecStep::End
    } else if is_open_at(s, 0) {
        match find_token_from(s, 2, close_first_byte(s[1]), RBRACE) {
            Some(j) => SpecStep::Span(
                SpecSpan {
                    raw: s.subrange(0, j + 2),
                    line,
                    block: tag_kind_block(s[1], trim_ascii(s.subrange(2, j))),
                },
            ),
            None => SpecStep::Unterminated,
        }
    } else if is_close_at(s, 0) {
        SpecStep::StrayClose
    } else {
        let j = match find_delim_from(s, 0) {
            Some(j) => j,
            None => s.len() as int,
        };
        SpecStep::Span(SpecSpan { raw: s.subrange(0, j), line, block: BlockV::Plain(s.subrange(0, j)) })
    }
}

/// A produced span covers a non-empty prefix of the remaining input, on the
/// current line.
pub proof fn lemma_scan_step_span(s: Seq<u8>, line: int)
    ensures
        scan_step(s, line) matches SpecStep::Span(sp) ==> {
            &&& 0 < sp.raw.len() <= s.len()
            &&& sp.raw == s.subrange(0, sp.raw.len() as int)
            &&& sp.line == line
        },
{
    if s.len() == 0 {
    } else if is_open_at(s, 0) {
        lemma_find_token_props(s, 2, close_first_byte(s[1]), RBRACE);
    } else if is_close_at(s, 0) {
    } else {
        lemma_find_delim_props(s, 0);
    }
}

/// Which way a scan failed.
pub enum FailKind {
    /// An opening token whose closing token never occurs.
    Unterminated,
    /// A stray closing token where no opening token matched.
    StrayClose,
}

/// A failed scan: the kind of failure, the input that remained unscanned
/// when it happened, and the line it happened on.
pub struct SpecFail {
    pub kind: FailKind,
    pub rem: Seq<u8>,
    pub line: int,
}

/// The whole scan of the remaining input `s` starting on line `line`:
/// either every byte of `s` is covered by the returned spans in order, or
/// the first failure is reported with its position. After each span the
/// line number advances by the newline bytes in the span's raw bytes.
pub open spec fn scan_from(s: Seq<u8>, line: int) -> Result<Seq<SpecSpan>, SpecFail>
    decreases s.len(),
{
    match scan_step(s, line) {
        SpecStep::End => Ok(Seq::empty()),
        SpecStep::Span(sp) => {
            proof {
                lemma_scan_step_span(s, line);
            }
            match scan_from(s.skip(sp.raw.len() as int), line + newline_count(sp.raw)) {
                Ok(tail) => Ok(seq![sp] + tail),
                Err(f) => Err(f),
            }
        },
        SpecStep::Unterminated => Err(SpecFail { kind: FailKind::Unterminated, rem: s, line }),
        SpecStep::StrayClose => Err(SpecFail { kind: FailKind::StrayClose, rem: s, line }),
    }
}

/// The scan of a whole template: all of it, starting on line 1.
pub open spec fn parse_spec(s: Seq<u8>) -> Result<Seq<SpecSpan>, SpecFail> {
    scan_from(s, 1)
}

} // verus!
