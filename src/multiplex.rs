//! Draining of the child's two output streams into one merged, bounded buffer.
//!
//! The reads themselves are done by the caller; this type decides what each
//! completed read does to the buffer and when draining stops.
use vstd::prelude::*;

use crate::protocol::{
    decoded, encode_chunk, lemma_reads_decode, stream_of, switch_count, encode_reads, lemma_escape_len, lemma_escape_plain, marker, source_after,
    Encoder, Source, ESCAPE,
};

verus! {

/// Draining stops once the merged output is longer than this.
pub const CEILING: usize = 1_000_000;

/// The largest chunk a single read of one stream hands over.
pub const READ_CHUNK: usize = 4096;

/// The merge of stdout and stderr, as far as it has been read.
pub struct Multiplexer {
    encoder: Encoder,
    output: Vec<u8>,
    stdout_open: bool,
    stderr_open: bool,
    reads: Ghost<Seq<(Source, Seq<u8>)>>,
}

impl Multiplexer {
    /// The merged bytes so far.
    pub closed spec fn output_spec(&self) -> Seq<u8> {
        self.output@
    }

    /// Every non-empty read so far, in the order it completed.
    pub closed spec fn reads(&self) -> Seq<(Source, Seq<u8>)> {
        self.reads@
    }

    /// Whether `src` has not yet reached end of input.
    pub closed spec fn open_spec(&self, src: Source) -> bool {
        match src {
            Source::Stdout => self.stdout_open,
            Source::Stderr => self.stderr_open,
        }
    }

    pub closed spec fn current_spec(&self) -> Source {
        self.encoder.current
    }

    /// Whether another read is taken.
    pub open spec fn wants_more_spec(&self) -> bool {
        self.output_spec().len() <= CEILING && (self.open_spec(Source::Stdout) || self.open_spec(
            Source::Stderr,
        ))
    }

    /// The buffer is the encoding of the reads, each read was at most one
    /// chunk, and the last read was taken while the buffer was under the ceiling.
    pub open spec fn wf(&self) -> bool {
        &&& self.output_spec() == encode_reads(self.reads())
        &&& self.current_spec() == source_after(self.reads())
        &&& forall|k: int|
            0 <= k < self.reads().len() ==> 0 < (#[trigger] self.reads()[k]).1.len() <= READ_CHUNK
        &&& self.reads().len() > 0 ==> encode_reads(self.reads().drop_last()).len() <= CEILING
    }

    pub fn new() -> (r: Multiplexer)
        ensures
            r.wf(),
            r.reads() == Seq::<(Source, Seq<u8>)>::empty(),
            r.output_spec() == Seq::<u8>::empty(),
            r.open_spec(Source::Stdout),
            r.open_spec(Source::Stderr),
    {
        Multiplexer {
            encoder: Encoder::new(),
            output: Vec::new(),
            stdout_open: true,
            stderr_open: true,
            reads: Ghost(Seq::empty()),
        }
    }

    pub fn is_open(&self, src: Source) -> (r: bool)
        ensures
            r == self.open_spec(src),
    {
        match src {
            Source::Stdout => self.stdout_open,
            Source::Stderr => self.stderr_open,
        }
    }

    /// Whether draining goes on: a stream is still open and the buffer has
    /// not passed the ceiling.
    pub fn wants_more(&self) -> (r: bool)
        ensures
            r == self.wants_more_spec(),
    {
        self.output.len() <= CEILING && (self.stdout_open || self.stderr_open)
    }

    /// Takes the result of one read of `src`: an empty chunk closes the
    /// stream, any other is merged into the buffer.
    pub fn on_read(&mut self, src: Source, chunk: &[u8])
        requires
            old(self).wf(),
            old(self).wants_more_spec(),
            old(self).open_spec(src),
            chunk@.len() <= READ_CHUNK,
        ensures
            final(self).wf(),
            old(self).output_spec().is_prefix_of(final(self).output_spec()),
            chunk@.len() == 0 ==> {
                &&& final(self).reads() == old(self).reads()
                &&& final(self).output_spec() == old(self).output_spec()
                &&& !final(self).open_spec(src)
            },
            chunk@.len() > 0 ==> {
                &&& final(self).reads() == old(self).reads().push((src, chunk@))
                &&& final(self).output_spec() == old(self).output_spec() + encode_chunk(
                    source_after(old(self).reads()),
                    src,
                    chunk@,
                )
                &&& final(self).open_spec(src)
            },
            forall|s: Source| s != src ==> final(self).open_spec(s) == old(self).open_spec(s),
    {
        if chunk.len() == 0 {
            match src {
                Source::Stdout => self.stdout_open = false,
                Source::Stderr => self.stderr_open = false,
            }
            return;
        }
        let ghost prev = self.reads@;
        self.encoder.append(src, chunk, &mut self.output);
        self.reads = Ghost(prev.push((src, chunk@)));
        proof {
            let reads = self.reads@;
            assert(reads.drop_last() =~= prev);
            assert forall|k: int| 0 <= k < reads.len() implies 0 < (
            #[trigger] reads[k]).1.len() <= READ_CHUNK by {
                if k < prev.len() {
                    assert(reads[k] == prev[k]);
                }
            }
        }
    }

    /// The number of merged bytes so far.
    pub fn len(&self) -> (r: usize)
        ensures
            r == self.output_spec().len(),
    {
        self.output.len()
    }

    /// Gives up the merged bytes.
    pub fn into_output(self) -> (r: Vec<u8>)
        ensures
            r@ == self.output_spec(),
    {
        self.output
    }
}

/// The merged output passes the ceiling by at most one encoded chunk: a
/// switch marker and one read with every byte escaped. Where the data holds
/// no escape byte, the excess is at most one chunk for each of the two streams.
pub proof fn lemma_output_ceiling(m: Multiplexer)
    requires
        m.wf(),
    ensures
        m.output_spec().len() <= CEILING + 2 + 2 * READ_CHUNK,
        (forall|k: int, i: int|
            0 <= k < m.reads().len() && 0 <= i < m.reads()[k].1.len() ==> #[trigger] m.reads()[k].1[i]
                != ESCAPE) ==> m.output_spec().len() <= CEILING + 2 * READ_CHUNK,
{
    let reads = m.reads();
    if reads.len() > 0 {
        let prev = reads.drop_last();
        let last = reads.last();
        assert(reads[reads.len() - 1] == last);
        lemma_escape_len(last.1);
        assert(marker(last.0).len() == 2);
        if forall|k: int, i: int|
            0 <= k < reads.len() && 0 <= i < reads[k].1.len() ==> #[trigger] reads[k].1[i]
                != ESCAPE {
            assert forall|i: int| 0 <= i < last.1.len() implies last.1[i] != ESCAPE by {
                assert(reads[reads.len() - 1].1[i] != ESCAPE);
            }
            lemma_escape_plain(last.1);
        }
    }
}

/// The merged output always decodes, without error, into what each stream
/// produced in the order it was read, with one marker per change of stream.
pub proof fn lemma_drain_decodes(m: Multiplexer)
    requires
        m.wf(),
    ensures
        !decoded(m.output_spec()).malformed,
        !decoded(m.output_spec()).pending,
        decoded(m.output_spec()).stdout == stream_of(m.reads(), Source::Stdout),
        decoded(m.output_spec()).stderr == stream_of(m.reads(), Source::Stderr),
        decoded(m.output_spec()).markers == switch_count(m.reads()),
{
    lemma_reads_decode(m.reads());
}

} // verus!
