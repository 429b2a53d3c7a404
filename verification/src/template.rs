//! The parsed template and its reconstruction pass: a byte sink abstraction,
//! a growable-buffer sink, and `instantiate`, which writes every span's
//! content bytes back out verbatim.
use vstd::prelude::*;

use crate::model::{block_bytes, parse_spec, render, spans_to_blocks, NumberedBlockV};
use crate::parse::{blocks_view, parse_template, Block, NumberedBlock, Special};

verus! {

/// A byte sink for the reconstruction pass: the "write all bytes"
/// capability. `contents` is everything the sink holds; a `reliable` sink
/// never refuses bytes.
pub trait Sink {
    /// The sink's own failure kind, propagated unchanged by the
    /// reconstruction pass.
    type Err;

    /// Everything written to the sink so far.
    spec fn contents(&self) -> Seq<u8>;

    /// Whether this sink always accepts bytes (a growable buffer does; a
    /// device may not).
    spec fn reliable(&self) -> bool;

    /// Append all of `bytes` to the sink, or report the sink's own error.
    fn write_all(&mut self, bytes: &[u8]) -> (r: Result<(), Self::Err>)
        ensures
            r is Ok ==> final(self).contents() == old(self).contents() + bytes@,
            final(self).reliable() == old(self).reliable(),
            old(self).reliable() ==> r is Ok,
    ;
}

/// The failure of a sink of this crate: a write the sink refused because
/// its capacity would be exceeded. A growable buffer never produces it.
#[derive(Clone, Copy, Debug, PartialEq, Eq, Structural)]
pub struct SinkError;

impl Sink for Vec<u8> {
    type Err = SinkError;

    open spec fn contents(&self) -> Seq<u8> {
        self@
    }

    open spec fn reliable(&self) -> bool {
        true
    }

    fn write_all(&mut self, bytes: &[u8]) -> (r: Result<(), SinkError>) {
        let mut k: usize = 0;
        proof {
            assert(old(self)@ + bytes@.subrange(0, 0) =~= old(self)@);
        }
        while k < bytes.len()
            invariant
                k <= bytes@.len(),
                self@ == old(self)@ + bytes@.subrange(0, k as int),
            decreases bytes@.len() - k,
        {
            self.push(bytes[k]);
            proof {
                assert((old(self)@ + bytes@.subrange(0, k as int)).push(bytes@[k as int]) =~= old(
                    self,
                )@ + bytes@.subrange(0, k + 1 as int));
            }
            k = k + 1;
        }
        proof {
            assert(bytes@.subrange(0, bytes@.len() as int) =~= bytes@);
        }
        Ok(())
    }
}

/// A sink of fixed capacity: a write succeeds only while the contents stay
/// within it, and is refused whole otherwise — the kind of sink whose
/// failure aborts a reconstruction pass part-way.
pub struct BoundedSink {
    buf: Vec<u8>,
    cap: usize,
}

impl BoundedSink {
    /// An empty sink that accepts at most `cap` bytes in all.
    pub fn new(cap: usize) -> (r: BoundedSink)
        ensures
            r.contents() == Seq::<u8>::empty(),
            r.capacity() == cap,
    {
        BoundedSink { buf: Vec::new(), cap }
    }

    /// How many bytes the sink accepts in all.
    pub closed spec fn capacity(&self) -> usize {
        self.cap
    }

    /// Everything the sink accepted, in order.
    pub fn into_bytes(self) -> (r: Vec<u8>)
        ensures
            r@ == self.contents(),
    {
        self.buf
    }
}

impl Sink for BoundedSink {
    type Err = SinkError;

    closed spec fn contents(&self) -> Seq<u8> {
        self.buf@
    }

    closed spec fn reliable(&self) -> bool {
        false
    }

    fn write_all(&mut self, bytes: &[u8]) -> (r: Result<(), SinkError>)
        ensures
            r is Ok <==> old(self).contents().len() + bytes@.len() <= old(self).capacity(),
            final(self).capacity() == old(self).capacity(),
            r is Err ==> final(self).contents() == old(self).contents(),
    {
        if bytes.len() <= self.cap && self.buf.len() <= self.cap - bytes.len() {
            let _res = self.buf.write_all(bytes);
            Ok(())
        } else {
            Err(SinkError)
        }
    }
}

/// A fully scanned template: an ordered sequence of positioned spans that
/// covers the whole input exactly once, with no gaps and no overlaps. The
/// spans borrow from the input buffer; the value is read-only once built.
pub struct ParsedTemplate<'a> {
    parsed: Vec<NumberedBlock<'a>>,
}

impl<'a> View for ParsedTemplate<'a> {
    type V = Seq<NumberedBlockV>;

    closed spec fn view(&self) -> Seq<NumberedBlockV> {
        blocks_view(self.parsed@)
    }
}

impl<'a> ParsedTemplate<'a> {
    /// Scan `template` to completion, from its first byte at line 1. There
    /// is a value exactly when the specification scan succeeds; a stray
    /// closing delimiter, an unterminated tag, or input left unconsumed
    /// yields no value.
    pub fn new(template: &'a [u8]) -> (r: Option<ParsedTemplate<'a>>)
        requires
            template@.len() < usize::MAX,
        ensures
            match r {
                Some(t) => parse_spec(template@) matches Ok(spans) && t@ == spans_to_blocks(
                    spans,
                ),
                None => parse_spec(template@) is Err,
            },
    {
        match parse_template(template) {
            Ok((rest, parsed)) => {
                if rest.input_len() == 0 {
                    Some(ParsedTemplate { parsed })
                } else {
                    None
                }
            },
            Err(_) => None,
        }
    }

    /// The spans, in input order.
    pub fn blocks(&self) -> (r: &Vec<NumberedBlock<'a>>)
        ensures
            blocks_view(r@) == self@,
    {
        &self.parsed
    }

    /// The reconstruction pass: write, in span order, each plain run's bytes
    /// and each tag's trimmed body verbatim — the delimiter tokens and the
    /// tag kinds are not written, and nothing is escaped, evaluated or
    /// looked up. The sink's first failure aborts the pass and is returned
    /// unchanged; a reliable sink always receives the whole rendering.
    pub fn instantiate<S: Sink>(&self, wr: &mut S) -> (r: Result<(), S::Err>)
        ensures
            r is Ok ==> final(wr).contents() == old(wr).contents() + render(self@),
            final(wr).reliable() == old(wr).reliable(),
            old(wr).reliable() ==> r is Ok,
    {
        let n = self.parsed.len();
        let mut idx: usize = 0;
        proof {
            assert(old(wr).contents() + render(self@.take(0)) =~= old(wr).contents());
        }
        while idx < n
            invariant
                n == self.parsed@.len(),
                idx <= n,
                self@.len() == n,
                wr.contents() == old(wr).contents() + render(self@.take(idx as int)),
                wr.reliable() == old(wr).reliable(),
            decreases n - idx,
        {
            proof {
                assert(self@[idx as int] == self.parsed@[idx as int]@);
            }
            let res = match &self.parsed[idx].block {
                Block::Plain(x) => wr.write_all(x),
                Block::Special(Special::TagPercent(x)) => wr.write_all(x),
                Block::Special(Special::TagCurly(x)) => wr.write_all(x),
                Block::Special(Special::TagHash(x)) => wr.write_all(x),
            };
            match res {
                Ok(_) => {},
                Err(e) => {
                    return Err(e);
                },
            }
            proof {
                assert(self@.take(idx + 1 as int).drop_last() =~= self@.take(idx as int));
                assert(self@.take(idx + 1 as int).last() == self@[idx as int]);
            }
            idx = idx + 1;
        }
        proof {
            assert(self@.take(n as int) =~= self@);
        }
        Ok(())
    }
}

} // verus!
