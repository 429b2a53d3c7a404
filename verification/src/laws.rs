//! The library's general laws, proved once over the specification scanner:
//! coverage of the input by the spans, first-occurrence closing-token
//! matching, line accounting, and idempotence of tag-body trimming.
use vstd::prelude::*;

use crate::model::{
    close_first_byte, concat_raw, is_open_at, is_space, lemma_concat_raw_cons,
    lemma_find_token_props, lemma_newline_count_concat, lemma_scan_step_span,
    lemma_trim_ascii_trimmed, newline_count, scan_from, scan_step, special_body, trim_ascii, find_token_from,
    trim_back, trim_front, BlockV, SpecSpan, SpecStep, RBRACE,
};

verus! {

/// Coverage: when a scan succeeds, concatenating the raw byte ranges of all
/// its spans in order reproduces the scanned input exactly — every byte is
/// covered once, with no gaps and no overlaps.
pub proof fn lemma_coverage(s: Seq<u8>, line: int)
    requires
        scan_from(s, line) is Ok,
    ensures
        concat_raw(scan_from(s, line)->Ok_0) == s,
    decreases s.len(),
{
    lemma_scan_step_span(s, line);
    match scan_step(s, line) {
        SpecStep::End => {
            assert(s =~= Seq::<u8>::empty());
            assert(concat_raw(Seq::<SpecSpan>::empty()) == Seq::<u8>::empty());
        },
        SpecStep::Span(sp) => {
            let k = sp.raw.len() as int;
            let rest = s.skip(k);
            let line2 = line + newline_count(sp.raw);
            lemma_coverage(rest, line2);
            let tail = scan_from(rest, line2)->Ok_0;
            let spans = scan_from(s, line)->Ok_0;
            assert(spans == seq![sp] + tail);
            lemma_concat_raw_cons(sp, tail);
            assert(sp.raw + rest =~= s);
        },
        SpecStep::Unterminated => {},
        SpecStep::StrayClose => {},
    }
}

/// No-nesting: when an opening token heads the input and the scanner
/// produces a tag span, the span ends at the *first* occurrence of the
/// matching closing token — no occurrence of that token lies strictly
/// inside the body region, whatever other tokens (including other opening
/// tokens) the body holds. Delimiters never nest.
pub proof fn lemma_no_nesting(s: Seq<u8>, line: int)
    requires
        is_open_at(s, 0),
        scan_step(s, line) is Span,
    ensures
        ({
            let sp = scan_step(s, line)->Span_0;
            let m = sp.raw.len() as int;
            let c0 = close_first_byte(s[1]);
            &&& 4 <= m <= s.len()
            &&& s[m - 2] == c0 && s[m - 1] == RBRACE
            &&& forall|k: int| 2 <= k < m - 2 ==> !(#[trigger] s[k] == c0 && s[k + 1] == RBRACE)
        }),
{
    lemma_find_token_props(s, 2, close_first_byte(s[1]), RBRACE);
}

/// Line accounting: the `i`-th span of a successful scan begins on the
/// starting line plus the newline bytes in everything the scan consumed
/// before it. With a whole-template scan, which starts at line 1, a span
/// that begins after `k` newline bytes of preceding input is on line
/// `k + 1`.
pub proof fn lemma_line_accounting(s: Seq<u8>, line: int, i: int)
    requires
        scan_from(s, line) is Ok,
        0 <= i < scan_from(s, line)->Ok_0.len(),
    ensures
        scan_from(s, line)->Ok_0[i].line == line + newline_count(
            concat_raw(scan_from(s, line)->Ok_0.take(i)),
        ),
    decreases s.len(),
{
    lemma_scan_step_span(s, line);
    match scan_step(s, line) {
        SpecStep::End => {},
        SpecStep::Span(sp) => {
            let k = sp.raw.len() as int;
            let rest = s.skip(k);
            let line2 = line + newline_count(sp.raw);
            let tail = scan_from(rest, line2)->Ok_0;
            let spans = scan_from(s, line)->Ok_0;
            assert(spans == seq![sp] + tail);
            if i == 0 {
                assert(spans[0] == sp);
                assert(spans.take(0) =~= Seq::<SpecSpan>::empty());
                assert(concat_raw(Seq::<SpecSpan>::empty()) == Seq::<u8>::empty());
                assert(newline_count(Seq::<u8>::empty()) == 0);
            } else {
                lemma_line_accounting(rest, line2, i - 1);
                assert(spans[i] == tail[i - 1]);
                assert(spans.take(i) =~= seq![sp] + tail.take(i - 1));
                lemma_concat_raw_cons(sp, tail.take(i - 1));
                lemma_newline_count_concat(sp.raw, concat_raw(tail.take(i - 1)));
            }
        },
        SpecStep::Unterminated => {},
        SpecStep::StrayClose => {},
    }
}

/// Idempotent trim: trimming ASCII whitespace from both ends is idempotent
/// — a trimmed sequence has no leading or trailing whitespace left, so
/// trimming it again changes nothing.
pub proof fn lemma_trim_ascii_idempotent(s: Seq<u8>)
    ensures
        trim_ascii(trim_ascii(s)) == trim_ascii(s),
{
    lemma_trim_ascii_trimmed(s);
    let r = trim_ascii(s);
    if r.len() > 0 {
        assert(!is_space(r.first()));
        assert(trim_front(r) == r);
        assert(!is_space(r.last()));
        assert(trim_back(r) == r);
    } else {
        assert(trim_front(r) == r);
        assert(trim_back(r) == r);
    }
}

/// Every tag body a successful scan produces is already trimmed: the
/// scanner trims once, and by idempotence of trimming, re-trimming any
/// produced body is a no-op.
pub proof fn lemma_tag_bodies_trimmed(s: Seq<u8>, line: int, i: int)
    requires
        scan_from(s, line) is Ok,
        0 <= i < scan_from(s, line)->Ok_0.len(),
        scan_from(s, line)->Ok_0[i].block is Special,
    ensures
        ({
            let sv = scan_from(s, line)->Ok_0[i].block->Special_0;
            trim_ascii(special_body(sv)) == special_body(sv)
        }),
    decreases s.len(),
{
    lemma_scan_step_span(s, line);
    match scan_step(s, line) {
        SpecStep::End => {},
        SpecStep::Span(sp) => {
            let k = sp.raw.len() as int;
            let rest = s.skip(k);
            let line2 = line + newline_count(sp.raw);
            let tail = scan_from(rest, line2)->Ok_0;
            let spans = scan_from(s, line)->Ok_0;
            assert(spans == seq![sp] + tail);
            if i == 0 {
                assert(spans[0] == sp);
                if is_open_at(s, 0) {
                    lemma_find_token_props(s, 2, close_first_byte(s[1]), RBRACE);
                    match find_token_from(s, 2, close_first_byte(s[1]), RBRACE) {
                        Some(j) => {
                            assert(special_body(sp.block->Special_0) == trim_ascii(
                                s.subrange(2, j),
                            ));
                            lemma_trim_ascii_idempotent(s.subrange(2, j));
                        },
                        None => {},
                    }
                }
            } else {
                lemma_tag_bodies_trimmed(rest, line2, i - 1);
                assert(spans[i] == tail[i - 1]);
            }
        },
        SpecStep::Unterminated => {},
        SpecStep::StrayClose => {},
    }
}

} // verus!

