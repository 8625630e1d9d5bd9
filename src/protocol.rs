//! The self-describing wire format that merges two output streams into one
//! byte sequence, and a decoder that splits it again.
use vstd::prelude::*;

verus! {

/// Lead byte of every two-byte marker; a literal occurrence is doubled.
pub const ESCAPE: u8 = 0x7F;

/// Marker tag for standard output (`'O'`).
pub const STDOUT_TAG: u8 = 0x4F;

/// Marker tag for standard error (`'E'`).
pub const STDERR_TAG: u8 = 0x45;

/// One of the child's two output streams.
#[derive(Clone, Copy, Debug, PartialEq, Eq, Structural)]
pub enum Source {
    Stdout,
    Stderr,
}

impl Source {
    pub open spec fn tag_spec(self) -> u8 {
        match self {
            Source::Stdout => STDOUT_TAG,
            Source::Stderr => STDERR_TAG,
        }
    }

    /// The tag byte that a switch marker to this stream carries.
    pub fn tag(self) -> (r: u8)
        ensures
            r == self.tag_spec(),
    {
        match self {
            Source::Stdout => STDOUT_TAG,
            Source::Stderr => STDERR_TAG,
        }
    }
}

/// The encoding of one data byte: the escape byte is doubled, any other is kept.
pub open spec fn escape_byte(b: u8) -> Seq<u8> {
    if b == ESCAPE {
        seq![ESCAPE, ESCAPE]
    } else {
        seq![b]
    }
}

/// The encoding of a run of data bytes.
pub open spec fn escape(data: Seq<u8>) -> Seq<u8>
    decreases data.len(),
{
    if data.len() == 0 {
        Seq::empty()
    } else {
        escape(data.drop_last()) + escape_byte(data.last())
    }
}

/// The marker announcing that `src` is now the active stream.
pub open spec fn marker(src: Source) -> Seq<u8> {
    seq![ESCAPE, src.tag_spec()]
}

/// What a chunk read from `src` adds while `current` is the active stream.
pub open spec fn encode_chunk(current: Source, src: Source, data: Seq<u8>) -> Seq<u8> {
    if current == src {
        escape(data)
    } else {
        marker(src) + escape(data)
    }
}

/// The active stream after a series of reads; the merge starts on stdout.
pub open spec fn source_after(reads: Seq<(Source, Seq<u8>)>) -> Source {
    if reads.len() == 0 {
        Source::Stdout
    } else {
        reads.last().0
    }
}

/// The merged encoding of a series of reads, in the order they completed.
pub open spec fn encode_reads(reads: Seq<(Source, Seq<u8>)>) -> Seq<u8>
    decreases reads.len(),
{
    if reads.len() == 0 {
        Seq::empty()
    } else {
        let prev = reads.drop_last();
        encode_reads(prev) + encode_chunk(source_after(prev), reads.last().0, reads.last().1)
    }
}

/// Everything that one stream produced over a series of reads, in order.
pub open spec fn stream_of(reads: Seq<(Source, Seq<u8>)>, src: Source) -> Seq<u8>
    decreases reads.len(),
{
    if reads.len() == 0 {
        Seq::empty()
    } else {
        let prev = reads.drop_last();
        if reads.last().0 == src {
            stream_of(prev, src) + reads.last().1
        } else {
            stream_of(prev, src)
        }
    }
}

/// How many times the active stream changes over a series of reads.
pub open spec fn switch_count(reads: Seq<(Source, Seq<u8>)>) -> nat
    decreases reads.len(),
{
    if reads.len() == 0 {
        0
    } else {
        let prev = reads.drop_last();
        if source_after(prev) == reads.last().0 {
            switch_count(prev)
        } else {
            switch_count(prev) + 1
        }
    }
}

/// The decoder's state after some prefix of an encoded sequence.
#[verifier::ext_equal]
pub struct DecodeState {
    /// The stream that data bytes currently belong to.
    pub source: Source,
    /// An escape byte was read and its partner is still to come.
    pub pending: bool,
    /// An escape byte was followed by a byte that is no tag and no escape.
    pub malformed: bool,
    pub stdout: Seq<u8>,
    pub stderr: Seq<u8>,
    /// Number of switch markers read.
    pub markers: nat,
}

pub open spec fn decode_start() -> DecodeState {
    DecodeState {
        source: Source::Stdout,
        pending: false,
        malformed: false,
        stdout: Seq::empty(),
        stderr: Seq::empty(),
        markers: 0,
    }
}

/// Adds a data byte to the active stream.
pub open spec fn emit(st: DecodeState, b: u8) -> DecodeState {
    if st.source == Source::Stdout {
        DecodeState { stdout: st.stdout.push(b), ..st }
    } else {
        DecodeState { stderr: st.stderr.push(b), ..st }
    }
}

/// Adds a run of data bytes to the active stream.
pub open spec fn emit_all(st: DecodeState, data: Seq<u8>) -> DecodeState {
    if st.source == Source::Stdout {
        DecodeState { stdout: st.stdout + data, ..st }
    } else {
        DecodeState { stderr: st.stderr + data, ..st }
    }
}

/// The decoder reads one byte.
pub open spec fn decode_step(st: DecodeState, b: u8) -> DecodeState {
    if st.malformed {
        st
    } else if st.pending {
        if b == ESCAPE {
            emit(DecodeState { pending: false, ..st }, b)
        } else if b == STDOUT_TAG {
            DecodeState { pending: false, source: Source::Stdout, markers: st.markers + 1, ..st }
        } else if b == STDERR_TAG {
            DecodeState { pending: false, source: Source::Stderr, markers: st.markers + 1, ..st }
        } else {
            DecodeState { malformed: true, ..st }
        }
    } else if b == ESCAPE {
        DecodeState { pending: true, ..st }
    } else {
        emit(st, b)
    }
}

/// The decoder reads a sequence of bytes, one by one, from `st` on.
pub open spec fn decode_run(st: DecodeState, bytes: Seq<u8>) -> DecodeState
    decreases bytes.len(),
{
    if bytes.len() == 0 {
        st
    } else {
        decode_step(decode_run(st, bytes.drop_last()), bytes.last())
    }
}

/// What decoding a whole sequence ends in.
pub open spec fn decoded(bytes: Seq<u8>) -> DecodeState {
    decode_run(decode_start(), bytes)
}

/// The decoder reads `a` and then `b`: the same as reading `a + b`.
pub proof fn lemma_decode_run_append(st: DecodeState, a: Seq<u8>, b: Seq<u8>)
    ensures
        decode_run(st, a + b) == decode_run(decode_run(st, a), b),
    decreases b.len(),
{
    if b.len() == 0 {
        assert(a + b =~= a);
    } else {
        assert((a + b).drop_last() =~= a + b.drop_last());
        assert((a + b).last() == b.last());
        lemma_decode_run_append(st, a, b.drop_last());
    }
}

/// Escaping distributes over concatenation.
pub proof fn lemma_escape_append(a: Seq<u8>, b: Seq<u8>)
    ensures
        escape(a + b) == escape(a) + escape(b),
    decreases b.len(),
{
    if b.len() == 0 {
        assert(a + b =~= a);
        assert(escape(a) + escape(b) =~= escape(a));
    } else {
        assert((a + b).drop_last() =~= a + b.drop_last());
        lemma_escape_append(a, b.drop_last());
        assert(escape(a + b) =~= escape(a) + escape(b));
    }
}

/// Data without the escape byte is encoded as it is.
pub proof fn lemma_escape_plain(data: Seq<u8>)
    requires
        forall|i: int| 0 <= i < data.len() ==> data[i] != ESCAPE,
    ensures
        escape(data) == data,
    decreases data.len(),
{
    if data.len() > 0 {
        lemma_escape_plain(data.drop_last());
        assert(escape(data) =~= data);
    }
}

/// Escaping at most doubles the length.
pub proof fn lemma_escape_len(data: Seq<u8>)
    ensures
        data.len() <= escape(data).len() <= 2 * data.len(),
    decreases data.len(),
{
    if data.len() > 0 {
        lemma_escape_len(data.drop_last());
    }
}

/// Decoding escaped data from a settled state hands back the data itself,
/// to the active stream.
pub proof fn lemma_escape_decodes(st: DecodeState, data: Seq<u8>)
    requires
        !st.pending,
        !st.malformed,
    ensures
        decode_run(st, escape(data)) == emit_all(st, data),
    decreases data.len(),
{
    if data.len() == 0 {
        assert(emit_all(st, data) =~= st);
    } else {
        let prev = data.drop_last();
        let b = data.last();
        lemma_escape_decodes(st, prev);
        lemma_decode_run_append(st, escape(prev), escape_byte(b));
        let mid = emit_all(st, prev);
        reveal_with_fuel(decode_run, 3);
        if b == ESCAPE {
            assert(seq![ESCAPE, ESCAPE].drop_last() =~= seq![ESCAPE]);
            assert(seq![ESCAPE].drop_last() =~= Seq::<u8>::empty());
        } else {
            assert(seq![b].drop_last() =~= Seq::<u8>::empty());
        }
        assert(decode_run(mid, escape_byte(b)) =~= emit_all(st, data));
    }
}

/// Decoding one encoded chunk from a settled state switches to its stream,
/// counting a marker exactly when the stream changes, and appends its data.
pub proof fn lemma_chunk_decodes(st: DecodeState, src: Source, data: Seq<u8>)
    requires
        !st.pending,
        !st.malformed,
    ensures
        decode_run(st, encode_chunk(st.source, src, data)) == emit_all(
            DecodeState {
                source: src,
                markers: if st.source == src { st.markers } else { st.markers + 1 },
                ..st
            },
            data,
        ),
{
    if st.source == src {
        lemma_escape_decodes(st, data);
        assert(DecodeState { source: src, markers: st.markers, ..st } =~= st);
    } else {
        let m = marker(src);
        assert(m.drop_last() =~= seq![ESCAPE]);
        assert(seq![ESCAPE].drop_last() =~= Seq::<u8>::empty());
        let switched = DecodeState { source: src, markers: st.markers + 1, ..st };
        reveal_with_fuel(decode_run, 3);
        assert(decode_run(st, m) =~= switched);
        lemma_decode_run_append(st, m, escape(data));
        lemma_escape_decodes(switched, data);
    }
}

/// The merged encoding of any series of reads decodes without error into
/// each stream's bytes in the order they were read, with one marker for each
/// change of stream.
pub proof fn lemma_reads_decode(reads: Seq<(Source, Seq<u8>)>)
    ensures
        decoded(encode_reads(reads)) == (DecodeState {
            source: source_after(reads),
            pending: false,
            malformed: false,
            stdout: stream_of(reads, Source::Stdout),
            stderr: stream_of(reads, Source::Stderr),
            markers: switch_count(reads),
        }),
    decreases reads.len(),
{
    if reads.len() == 0 {
        assert(decoded(encode_reads(reads)) =~= decode_start());
    } else {
        let prev = reads.drop_last();
        let (src, data) = reads.last();
        lemma_reads_decode(prev);
        lemma_decode_run_append(
            decode_start(),
            encode_reads(prev),
            encode_chunk(source_after(prev), src, data),
        );
        lemma_chunk_decodes(decoded(encode_reads(prev)), src, data);
        assert(decoded(encode_reads(reads)) =~= (DecodeState {
            source: source_after(reads),
            pending: false,
            malformed: false,
            stdout: stream_of(reads, Source::Stdout),
            stderr: stream_of(reads, Source::Stderr),
            markers: switch_count(reads),
        }));
    }
}

/// A run that stays on stdout and never produces the escape byte is merged
/// verbatim: the output is stdout's bytes, with no marker.
pub proof fn lemma_single_stream_verbatim(reads: Seq<(Source, Seq<u8>)>)
    requires
        forall|k: int| 0 <= k < reads.len() ==> #[trigger] reads[k].0 == Source::Stdout,
        forall|k: int, i: int|
            0 <= k < reads.len() && 0 <= i < reads[k].1.len() ==> #[trigger] reads[k].1[i]
                != ESCAPE,
    ensures
        encode_reads(reads) == stream_of(reads, Source::Stdout),
        switch_count(reads) == 0,
    decreases reads.len(),
{
    if reads.len() > 0 {
        let prev = reads.drop_last();
        assert forall|k: int| 0 <= k < prev.len() implies #[trigger] prev[k].0 == Source::Stdout by {
            assert(prev[k] == reads[k]);
        }
        assert forall|k: int, i: int|
            0 <= k < prev.len() && 0 <= i < prev[k].1.len() implies #[trigger] prev[k].1[i]
                != ESCAPE by {
            assert(prev[k] == reads[k]);
            assert(reads[k].1[i] != ESCAPE);
        }
        lemma_single_stream_verbatim(prev);
        let last = reads.last();
        assert(reads[reads.len() - 1] == last);
        assert forall|i: int| 0 <= i < last.1.len() implies last.1[i] != ESCAPE by {
            assert(reads[reads.len() - 1].1[i] != ESCAPE);
        }
        lemma_escape_plain(last.1);
    }
}

/// A literal escape byte in the data is doubled in the encoding, and the
/// encoding decodes back to the data with that byte once.
pub proof fn lemma_literal_escape_round_trip(before: Seq<u8>, after: Seq<u8>)
    ensures
        escape(before.push(ESCAPE) + after) == escape(before) + seq![ESCAPE, ESCAPE] + escape(
            after,
        ),
        decoded(escape(before.push(ESCAPE) + after)).stdout == before.push(ESCAPE) + after,
        !decoded(escape(before.push(ESCAPE) + after)).pending,
        !decoded(escape(before.push(ESCAPE) + after)).malformed,
{
    let data = before.push(ESCAPE) + after;
    lemma_escape_append(before.push(ESCAPE), after);
    assert(before.push(ESCAPE).drop_last() =~= before);
    lemma_escape_decodes(decode_start(), data);
    assert(emit_all(decode_start(), data).stdout =~= data);
}

/// Two streams separated again.
pub struct Demuxed {
    pub stdout: Vec<u8>,
    pub stderr: Vec<u8>,
    /// Number of switch markers met.
    pub markers: usize,
}

/// Why an encoded sequence could not be decoded.
#[derive(Clone, Copy, Debug, PartialEq, Eq, Structural)]
pub enum DecodeError {
    /// The sequence ends on an escape byte whose partner is missing.
    DanglingEscape,
    /// An escape byte is followed by a byte that is neither a tag nor an escape.
    UnknownMarker,
}

/// Splits a merged sequence back into the two streams.
pub fn decode(encoded: &[u8]) -> (r: Result<Demuxed, DecodeError>)
    ensures
        match r {
            Ok(d) => {
                &&& !decoded(encoded@).malformed
                &&& !decoded(encoded@).pending
                &&& d.stdout@ == decoded(encoded@).stdout
                &&& d.stderr@ == decoded(encoded@).stderr
                &&& d.markers == decoded(encoded@).markers
            },
            Err(DecodeError::DanglingEscape) => !decoded(encoded@).malformed && decoded(
                encoded@,
            ).pending,
            Err(DecodeError::UnknownMarker) => decoded(encoded@).malformed,
        },
{
    let mut source = Source::Stdout;
    let mut pending = false;
    let mut malformed = false;
    let mut stdout: Vec<u8> = Vec::new();
    let mut stderr: Vec<u8> = Vec::new();
    let mut markers: usize = 0;
    let mut i: usize = 0;
    while i < encoded.len()
        invariant
            i <= encoded@.len(),
            markers <= i,
            decode_run(decode_start(), encoded@.take(i as int)) == (DecodeState {
                source,
                pending,
                malformed,
                stdout: stdout@,
                stderr: stderr@,
                markers: markers as nat,
            }),
        decreases encoded@.len() - i,
    {
        let b = encoded[i];
        proof {
            assert(encoded@.take(i + 1).drop_last() =~= encoded@.take(i as int));
        }
        if malformed {
        } else if pending {
            pending = false;
            if b == ESCAPE {
                match source {
                    Source::Stdout => stdout.push(b),
                    Source::Stderr => stderr.push(b),
                }
            } else if b == STDOUT_TAG {
                source = Source::Stdout;
                markers = markers + 1;
            } else if b == STDERR_TAG {
                source = Source::Stderr;
                markers = markers + 1;
            } else {
                pending = true;
                malformed = true;
            }
        } else if b == ESCAPE {
            pending = true;
        } else {
            match source {
                Source::Stdout => stdout.push(b),
                Source::Stderr => stderr.push(b),
            }
        }
        i = i + 1;
        proof {
            assert(decode_run(decode_start(), encoded@.take(i as int)) =~= (DecodeState {
                source,
                pending,
                malformed,
                stdout: stdout@,
                stderr: stderr@,
                markers: markers as nat,
            }));
        }
    }
    proof {
        assert(encoded@.take(i as int) =~= encoded@);
    }
    if malformed {
        Err(DecodeError::UnknownMarker)
    } else if pending {
        Err(DecodeError::DanglingEscape)
    } else {
        Ok(Demuxed { stdout, stderr, markers })
    }
}

/// Appends the escaped form of `data` to `out`.
pub fn escape_into(out: &mut Vec<u8>, data: &[u8])
    ensures
        final(out)@ == old(out)@ + escape(data@),
{
    let ghost base = out@;
    let mut i: usize = 0;
    while i < data.len()
        invariant
            i <= data@.len(),
            out@ == base + escape(data@.take(i as int)),
        decreases data@.len() - i,
    {
        let b = data[i];
        proof {
            assert(data@.take(i + 1).drop_last() =~= data@.take(i as int));
        }
        out.push(b);
        if b == ESCAPE {
            out.push(ESCAPE);
        }
        i = i + 1;
        assert(out@ =~= base + escape(data@.take(i as int)));
    }
    assert(data@.take(i as int) =~= data@);
}

/// The encoding side of the protocol: remembers which stream is active.
pub struct Encoder {
    /// The active stream; a new encoder starts on stdout.
    pub current: Source,
}

impl Encoder {
    pub fn new() -> (r: Encoder)
        ensures
            r.current == Source::Stdout,
    {
        Encoder { current: Source::Stdout }
    }

    /// Appends a chunk read from `src`, preceded by a switch marker when
    /// `src` is not the active stream.
    pub fn append(&mut self, src: Source, data: &[u8], out: &mut Vec<u8>)
        ensures
            final(out)@ == old(out)@ + encode_chunk(old(self).current, src, data@),
            final(self).current == src,
    {
        let ghost base = out@;
        if self.current != src {
            out.push(ESCAPE);
            out.push(src.tag());
            self.current = src;
            assert(out@ =~= base + marker(src));
        }
        escape_into(out, data);
        assert(out@ =~= base + encode_chunk(old(self).current, src, data@));
    }
}

} // verus!
