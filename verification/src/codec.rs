//! Frame codec: the wire format and the byte-at-a-time decoder.
//!
//! A frame is `[0x55, 0xAA, LEN, PAYLOAD, CSUM]` where `LEN` is the payload
//! length plus 4 (two header bytes, the length byte and the checksum byte)
//! and `CSUM` is an 8-bit wrapping accumulator seeded with `LEN` and summed
//! over the payload bytes.

use vstd::prelude::*;

verus! {

/// First header byte of every frame.
pub const FRAME_HEADER_1: u8 = 0x55;

/// Second header byte of every frame.
pub const FRAME_HEADER_2: u8 = 0xAA;

/// The length byte counts the payload plus this fixed protocol offset
/// (two header bytes, the length byte itself and the checksum byte).
pub const FRAME_OVERHEAD: u8 = 4;

/// Longest payload whose length byte still fits in `u8`.
pub const MAX_PAYLOAD_LEN: usize = 251;

/// 8-bit wrapping addition, the step of the checksum accumulator.
pub open spec fn add8(a: u8, b: u8) -> u8 {
    ((a + b) % 256) as u8
}

/// The checksum accumulator run over `s`, starting from `acc`.
pub open spec fn sum8(acc: u8, s: Seq<u8>) -> u8
    decreases s.len(),
{
    if s.len() == 0 {
        acc
    } else {
        sum8(add8(acc, s[0]), s.skip(1))
    }
}

/// The length byte of a frame carrying `payload`.
pub open spec fn length_byte(payload: Seq<u8>) -> u8
    recommends
        payload.len() <= MAX_PAYLOAD_LEN,
{
    ((payload.len() + FRAME_OVERHEAD) % 256) as u8
}

/// The checksum byte of a frame carrying `payload`: the wrapping sum of the
/// length byte and every payload byte.
pub open spec fn checksum(payload: Seq<u8>) -> u8
    recommends
        payload.len() <= MAX_PAYLOAD_LEN,
{
    sum8(length_byte(payload), payload)
}

/// The bytes of a frame carrying `payload`, with `csum` in place of the
/// checksum byte (well-formed exactly when `csum == checksum(payload)`).
pub open spec fn frame_bytes_with_checksum(payload: Seq<u8>, csum: u8) -> Seq<u8>
    recommends
        payload.len() <= MAX_PAYLOAD_LEN,
{
    seq![FRAME_HEADER_1, FRAME_HEADER_2, length_byte(payload)] + payload + seq![csum]
}

/// The wire bytes of the well-formed frame carrying `payload`.
pub open spec fn frame_bytes(payload: Seq<u8>) -> Seq<u8>
    recommends
        payload.len() <= MAX_PAYLOAD_LEN,
{
    frame_bytes_with_checksum(payload, checksum(payload))
}

/// Appending a byte to the summed sequence adds it to the accumulator.
pub proof fn lemma_sum8_push(acc: u8, s: Seq<u8>, b: u8)
    ensures
        sum8(acc, s.push(b)) == add8(sum8(acc, s), b),
    decreases s.len(),
{
    if s.len() == 0 {
        assert(s.push(b)[0] == b);
        assert(s.push(b).skip(1) =~= Seq::<u8>::empty());
        assert(sum8(acc, s.push(b)) == sum8(add8(acc, b), Seq::<u8>::empty()));
        assert(sum8(add8(acc, b), Seq::<u8>::empty()) == add8(acc, b));
    } else {
        assert(s.push(b)[0] == s[0]);
        assert(s.push(b).skip(1) =~= s.skip(1).push(b));
        lemma_sum8_push(add8(acc, s[0]), s.skip(1), b);
        assert(sum8(acc, s.push(b)) == sum8(add8(acc, s[0]), s.skip(1).push(b)));
        assert(sum8(acc, s) == sum8(add8(acc, s[0]), s.skip(1)));
    }
}

/// Mathematical model of the decoder: the state the machine is in, with the
/// length byte, the running checksum accumulator and the payload gathered
/// so far where the state carries them.
pub enum DecoderModel {
    /// Waiting for the first header byte.
    Idle,
    /// Saw `0x55`, waiting for the second header byte.
    Header2,
    /// Saw the full header, the next byte is the length byte.
    HeaderOk,
    /// Gathering payload bytes until the length byte is reached.
    Receiving { size: u8, csum: u8, buffer: Seq<u8> },
    /// Payload complete, the next byte must equal the accumulator.
    WaitCSum { csum: u8, buffer: Seq<u8> },
}

impl DecoderModel {
    /// Internal bounds the transition function maintains: while receiving,
    /// the buffer is strictly short of the length byte's promise, and a
    /// finished buffer never exceeds the longest encodable payload.
    pub open spec fn wf(self) -> bool {
        match self {
            DecoderModel::Receiving { size, csum, buffer } => buffer.len() + FRAME_OVERHEAD
                < size,
            DecoderModel::WaitCSum { csum, buffer } => buffer.len() <= MAX_PAYLOAD_LEN,
            _ => true,
        }
    }
}

/// The decoder's transition on one input byte: the state it moves to.
///
/// A length byte that promises no payload bytes moves straight from
/// `HeaderOk` to `WaitCSum`, so the legal zero-length payload decodes: the
/// byte after such a length byte is already the checksum.
pub open spec fn step_state(s: DecoderModel, b: u8) -> DecoderModel {
    match s {
        DecoderModel::Idle => if b == FRAME_HEADER_1 {
            DecoderModel::Header2
        } else {
            DecoderModel::Idle
        },
        DecoderModel::Header2 => if b == FRAME_HEADER_2 {
            DecoderModel::HeaderOk
        } else {
            DecoderModel::Idle
        },
        DecoderModel::HeaderOk => if b <= FRAME_OVERHEAD {
            DecoderModel::WaitCSum { csum: b, buffer: Seq::empty() }
        } else {
            DecoderModel::Receiving { size: b, csum: b, buffer: Seq::empty() }
        },
        DecoderModel::Receiving { size, csum, buffer } => {
            if buffer.len() + 1 + FRAME_OVERHEAD >= size {
                DecoderModel::WaitCSum { csum: add8(csum, b), buffer: buffer.push(b) }
            } else {
                DecoderModel::Receiving { size, csum: add8(csum, b), buffer: buffer.push(b) }
            }
        },
        DecoderModel::WaitCSum { csum, buffer } => DecoderModel::Idle,
    }
}

/// The decoder's output on one input byte: the completed payload, if the
/// byte closes a frame whose checksum matches.
pub open spec fn step_emit(s: DecoderModel, b: u8) -> Option<Seq<u8>> {
    if s matches DecoderModel::WaitCSum { csum, buffer } && b == csum {
        Some(s->WaitCSum_buffer)
    } else {
        None
    }
}

/// The decoder's diagnostic on one input byte: the expected and received
/// checksum, if the byte closes a frame whose checksum does not match.
pub open spec fn step_diag(s: DecoderModel, b: u8) -> Option<(u8, u8)> {
    if s matches DecoderModel::WaitCSum { csum, buffer } && b != csum {
        Some((s->WaitCSum_csum, b))
    } else {
        None
    }
}

/// Exec form of the decoder state, mirroring [`DecoderModel`] with a `Vec`
/// as the payload buffer.
#[derive(Debug)]
pub enum DecoderState {
    Idle,
    Header2,
    HeaderOk,
    Receiving { size: u8, csum: u8, buffer: Vec<u8> },
    WaitCSum { csum: u8, buffer: Vec<u8> },
}

impl View for DecoderState {
    type V = DecoderModel;

    open spec fn view(&self) -> DecoderModel {
        match self {
            DecoderState::Idle => DecoderModel::Idle,
            DecoderState::Header2 => DecoderModel::Header2,
            DecoderState::HeaderOk => DecoderModel::HeaderOk,
            DecoderState::Receiving { size, csum, buffer } => DecoderModel::Receiving {
                size: *size,
                csum: *csum,
                buffer: buffer@,
            },
            DecoderState::WaitCSum { csum, buffer } => DecoderModel::WaitCSum {
                csum: *csum,
                buffer: buffer@,
            },
        }
    }
}

/// A checksum mismatch diagnostic: the accumulator the decoder expected and
/// the byte the wire carried instead.
#[derive(Debug, Clone, Copy, PartialEq, Eq, Structural)]
pub struct ChecksumMismatch {
    pub expected: u8,
    pub got: u8,
}

impl View for ChecksumMismatch {
    type V = (u8, u8);

    open spec fn view(&self) -> (u8, u8) {
        (self.expected, self.got)
    }
}

impl DeepView for ChecksumMismatch {
    type V = (u8, u8);

    open spec fn deep_view(&self) -> (u8, u8) {
        (self.expected, self.got)
    }
}

/// One transition of the decoder: consume `byte` in `state`, give back the
/// next state, the completed payload if `byte` closed a valid frame, and a
/// diagnostic if it closed a corrupt one.
pub fn decoder_step(state: DecoderState, byte: u8) -> (r: (
    DecoderState,
    Option<Vec<u8>>,
    Option<ChecksumMismatch>,
))
    requires
        state@.wf(),
    ensures
        r.0@ == step_state(state@, byte),
        r.0@.wf(),
        r.1.deep_view() == step_emit(state@, byte),
        r.2.deep_view() == step_diag(state@, byte),
{
    match state {
        DecoderState::Idle => {
            if byte == FRAME_HEADER_1 {
                (DecoderState::Header2, None, None)
            } else {
                (DecoderState::Idle, None, None)
            }
        },
        DecoderState::Header2 => {
            if byte == FRAME_HEADER_2 {
                (DecoderState::HeaderOk, None, None)
            } else {
                (DecoderState::Idle, None, None)
            }
        },
        DecoderState::HeaderOk => {
            if byte <= FRAME_OVERHEAD {
                (DecoderState::WaitCSum { csum: byte, buffer: Vec::new() }, None, None)
            } else {
                (DecoderState::Receiving { size: byte, csum: byte, buffer: Vec::new() }, None, None)
            }
        },
        DecoderState::Receiving { size, csum, mut buffer } => {
            buffer.push(byte);
            let csum2 = csum.wrapping_add(byte);
            if buffer.len() + (FRAME_OVERHEAD as usize) >= size as usize {
                (DecoderState::WaitCSum { csum: csum2, buffer }, None, None)
            } else {
                (DecoderState::Receiving { size, csum: csum2, buffer }, None, None)
            }
        },
        DecoderState::WaitCSum { csum, buffer } => {
            if byte == csum {
                (DecoderState::Idle, Some(buffer), None)
            } else {
                (DecoderState::Idle, None, Some(ChecksumMismatch { expected: csum, got: byte }))
            }
        },
    }
}

/// The state the decoder reaches after consuming `bytes` from `s`.
pub open spec fn run_state(s: DecoderModel, bytes: Seq<u8>) -> DecoderModel
    decreases bytes.len(),
{
    if bytes.len() == 0 {
        s
    } else {
        run_state(step_state(s, bytes[0]), bytes.skip(1))
    }
}

/// The completed payloads the decoder emits, in order, while consuming
/// `bytes` from `s`.
pub open spec fn run_outputs(s: DecoderModel, bytes: Seq<u8>) -> Seq<Seq<u8>>
    decreases bytes.len(),
{
    if bytes.len() == 0 {
        Seq::empty()
    } else {
        let rest = run_outputs(step_state(s, bytes[0]), bytes.skip(1));
        match step_emit(s, bytes[0]) {
            Some(p) => seq![p] + rest,
            None => rest,
        }
    }
}

/// The checksum-mismatch diagnostics the decoder reports, in order, while
/// consuming `bytes` from `s`.
pub open spec fn run_diags(s: DecoderModel, bytes: Seq<u8>) -> Seq<(u8, u8)>
    decreases bytes.len(),
{
    if bytes.len() == 0 {
        Seq::empty()
    } else {
        let rest = run_diags(step_state(s, bytes[0]), bytes.skip(1));
        match step_diag(s, bytes[0]) {
            Some(d) => seq![d] + rest,
            None => rest,
        }
    }
}

/// Consuming `a + b` reaches the same state as consuming `a`, then `b`.
pub proof fn lemma_run_state_concat(s: DecoderModel, a: Seq<u8>, b: Seq<u8>)
    ensures
        run_state(s, a + b) == run_state(run_state(s, a), b),
    decreases a.len(),
{
    if a.len() == 0 {
        assert(a + b =~= b);
    } else {
        assert((a + b)[0] == a[0]);
        assert((a + b).skip(1) =~= a.skip(1) + b);
        lemma_run_state_concat(step_state(s, a[0]), a.skip(1), b);
    }
}

/// Consuming `a + b` emits the payloads of `a`, then those of `b` run from
/// the state `a` left behind.
pub proof fn lemma_run_outputs_concat(s: DecoderModel, a: Seq<u8>, b: Seq<u8>)
    ensures
        run_outputs(s, a + b) =~= run_outputs(s, a) + run_outputs(run_state(s, a), b),
    decreases a.len(),
{
    if a.len() == 0 {
        assert(a + b =~= b);
    } else {
        assert((a + b)[0] == a[0]);
        assert((a + b).skip(1) =~= a.skip(1) + b);
        lemma_run_outputs_concat(step_state(s, a[0]), a.skip(1), b);
    }
}

/// Consuming `a + b` reports the diagnostics of `a`, then those of `b` run
/// from the state `a` left behind.
pub proof fn lemma_run_diags_concat(s: DecoderModel, a: Seq<u8>, b: Seq<u8>)
    ensures
        run_diags(s, a + b) =~= run_diags(s, a) + run_diags(run_state(s, a), b),
    decreases a.len(),
{
    if a.len() == 0 {
        assert(a + b =~= b);
    } else {
        assert((a + b)[0] == a[0]);
        assert((a + b).skip(1) =~= a.skip(1) + b);
        lemma_run_diags_concat(step_state(s, a[0]), a.skip(1), b);
    }
}

/// Running the decoder over a single byte is one transition.
proof fn lemma_run_single(s: DecoderModel, b: u8)
    ensures
        run_state(s, seq![b]) == step_state(s, b),
        run_outputs(s, seq![b]) =~= (match step_emit(s, b) {
            Some(p) => seq![p],
            None => Seq::<Seq<u8>>::empty(),
        }),
        run_diags(s, seq![b]) =~= (match step_diag(s, b) {
            Some(d) => seq![d],
            None => Seq::<(u8, u8)>::empty(),
        }),
{
    assert(seq![b][0] == b);
    assert(seq![b].skip(1) =~= Seq::<u8>::empty());
    assert(run_state(step_state(s, b), Seq::<u8>::empty()) == step_state(s, b));
    assert(run_outputs(step_state(s, b), Seq::<u8>::empty()) =~= Seq::<Seq<u8>>::empty());
    assert(run_diags(step_state(s, b), Seq::<u8>::empty()) =~= Seq::<(u8, u8)>::empty());
}

/// The decoder a link owner task drives: the current state of the frame
/// state machine, persisting across arbitrarily chunked reads.
#[derive(Debug)]
pub struct Decoder {
    state: DecoderState,
}

impl Decoder {
    /// The model state the decoder currently sits in.
    pub closed spec fn model(&self) -> DecoderModel {
        self.state@
    }

    /// The decoder's state stays within the transition function's bounds.
    pub closed spec fn inv(&self) -> bool {
        self.state@.wf()
    }

    /// A fresh decoder, waiting for the first header byte.
    pub fn new() -> (d: Decoder)
        ensures
            d.inv(),
            d.model() == DecoderModel::Idle,
    {
        Decoder { state: DecoderState::Idle }
    }

    /// Feed one chunk of raw bytes; give back every payload completed inside
    /// it and a diagnostic for every frame whose checksum failed.
    pub fn feed(&mut self, bytes: &[u8]) -> (r: (Vec<Vec<u8>>, Vec<ChecksumMismatch>))
        requires
            old(self).inv(),
        ensures
            final(self).inv(),
            final(self).model() == run_state(old(self).model(), bytes@),
            r.0.deep_view() == run_outputs(old(self).model(), bytes@),
            r.1.deep_view() == run_diags(old(self).model(), bytes@),
    {
        let ghost start = self.state@;
        let mut outputs: Vec<Vec<u8>> = Vec::new();
        let mut diags: Vec<ChecksumMismatch> = Vec::new();
        let mut i: usize = 0;
        while i < bytes.len()
            invariant
                i <= bytes@.len(),
                self.inv(),
                self.model() == run_state(start, bytes@.take(i as int)),
                outputs.deep_view() == run_outputs(start, bytes@.take(i as int)),
                diags.deep_view() == run_diags(start, bytes@.take(i as int)),
            decreases bytes@.len() - i,
        {
            let b = bytes[i];
            let ghost pre = self.state@;
            let ghost outs_pre = outputs.deep_view();
            let ghost diags_pre = diags.deep_view();
            let mut state = DecoderState::Idle;
            core::mem::swap(&mut state, &mut self.state);
            let (next, payload, diag) = decoder_step(state, b);
            self.state = next;
            proof {
                assert(bytes@.take(i + 1 as int) =~= bytes@.take(i as int) + seq![b]);
                lemma_run_state_concat(start, bytes@.take(i as int), seq![b]);
                lemma_run_outputs_concat(start, bytes@.take(i as int), seq![b]);
                lemma_run_diags_concat(start, bytes@.take(i as int), seq![b]);
                lemma_run_single(pre, b);
            }
            match payload {
                Some(p) => {
                    let ghost pv = p.deep_view();
                    outputs.push(p);
                    proof {
                        assert(outputs.deep_view() =~= outs_pre.push(pv));
                        assert(outputs.deep_view() =~= run_outputs(start, bytes@.take(i + 1 as int)));
                    }
                },
                None => {
                    proof {
                        assert(outputs.deep_view() =~= run_outputs(start, bytes@.take(i + 1 as int)));
                    }
                },
            }
            match diag {
                Some(d) => {
                    let ghost dv = d.deep_view();
                    diags.push(d);
                    proof {
                        assert(diags.deep_view() =~= diags_pre.push(dv));
                        assert(diags.deep_view() =~= run_diags(start, bytes@.take(i + 1 as int)));
                    }
                },
                None => {
                    proof {
                        assert(diags.deep_view() =~= run_diags(start, bytes@.take(i + 1 as int)));
                    }
                },
            }
            i = i + 1;
        }
        proof {
            assert(bytes@.take(bytes@.len() as int) =~= bytes@);
        }
        (outputs, diags)
    }
}

/// Build the wire frame for `payload`: header, length byte, payload bytes,
/// then the wrapping checksum.
pub fn encode(payload: &Vec<u8>) -> (frame: Vec<u8>)
    requires
        payload@.len() <= MAX_PAYLOAD_LEN,
    ensures
        frame@ == frame_bytes(payload@),
        frame@.len() == payload@.len() + 4,
{
    let len_byte: u8 = (payload.len() as u8) + FRAME_OVERHEAD;
    let mut frame: Vec<u8> = Vec::new();
    frame.push(FRAME_HEADER_1);
    frame.push(FRAME_HEADER_2);
    frame.push(len_byte);
    let mut csum: u8 = len_byte;
    let mut i: usize = 0;
    while i < payload.len()
        invariant
            i <= payload@.len(),
            payload@.len() <= MAX_PAYLOAD_LEN,
            len_byte == length_byte(payload@),
            frame@ =~= seq![FRAME_HEADER_1, FRAME_HEADER_2, len_byte] + payload@.take(i as int),
            csum == sum8(len_byte, payload@.take(i as int)),
        decreases payload@.len() - i,
    {
        let b = payload[i];
        frame.push(b);
        proof {
            lemma_sum8_push(len_byte, payload@.take(i as int), b);
            assert(payload@.take(i + 1 as int) =~= payload@.take(i as int).push(b));
        }
        csum = csum.wrapping_add(b);
        i = i + 1;
    }
    proof {
        assert(payload@.take(payload@.len() as int) =~= payload@);
    }
    frame.push(csum);
    proof {
        assert(frame@ =~= frame_bytes(payload@));
    }
    frame
}

/// From the header, the decoder lands where the length byte says: waiting
/// for the checksum when no payload byte is owed, receiving otherwise.
proof fn lemma_run_header(lenb: u8)
    ensures
        run_state(DecoderModel::Idle, seq![FRAME_HEADER_1, FRAME_HEADER_2, lenb]) == (if lenb
            <= FRAME_OVERHEAD {
            DecoderModel::WaitCSum { csum: lenb, buffer: Seq::empty() }
        } else {
            DecoderModel::Receiving { size: lenb, csum: lenb, buffer: Seq::empty() }
        }),
        run_outputs(DecoderModel::Idle, seq![FRAME_HEADER_1, FRAME_HEADER_2, lenb])
            =~= Seq::<Seq<u8>>::empty(),
        run_diags(DecoderModel::Idle, seq![FRAME_HEADER_1, FRAME_HEADER_2, lenb]) =~= Seq::<
            (u8, u8),
        >::empty(),
{
    let head = seq![FRAME_HEADER_1, FRAME_HEADER_2, lenb];
    assert(head[0] == FRAME_HEADER_1);
    assert(head.skip(1) =~= seq![FRAME_HEADER_2, lenb]);
    assert(seq![FRAME_HEADER_2, lenb].skip(1) =~= seq![lenb]);
    assert(seq![lenb].skip(1) =~= Seq::<u8>::empty());
    assert(run_state(DecoderModel::Idle, head) == run_state(
        DecoderModel::Header2,
        seq![FRAME_HEADER_2, lenb],
    ));
    assert(run_state(DecoderModel::Header2, seq![FRAME_HEADER_2, lenb]) == run_state(
        DecoderModel::HeaderOk,
        seq![lenb],
    ));
    assert(run_state(DecoderModel::HeaderOk, seq![lenb]) == run_state(
        step_state(DecoderModel::HeaderOk, lenb),
        Seq::<u8>::empty(),
    ));
    assert(run_outputs(DecoderModel::Idle, head) =~= run_outputs(
        DecoderModel::Header2,
        seq![FRAME_HEADER_2, lenb],
    ));
    assert(run_outputs(DecoderModel::Header2, seq![FRAME_HEADER_2, lenb]) =~= run_outputs(
        DecoderModel::HeaderOk,
        seq![lenb],
    ));
    assert(run_outputs(DecoderModel::HeaderOk, seq![lenb]) =~= run_outputs(
        step_state(DecoderModel::HeaderOk, lenb),
        Seq::<u8>::empty(),
    ));
    assert(run_diags(DecoderModel::Idle, head) =~= run_diags(
        DecoderModel::Header2,
        seq![FRAME_HEADER_2, lenb],
    ));
    assert(run_diags(DecoderModel::Header2, seq![FRAME_HEADER_2, lenb]) =~= run_diags(
        DecoderModel::HeaderOk,
        seq![lenb],
    ));
    assert(run_diags(DecoderModel::HeaderOk, seq![lenb]) =~= run_diags(
        step_state(DecoderModel::HeaderOk, lenb),
        Seq::<u8>::empty(),
    ));
}

/// Feeding the bytes a frame still owes while receiving gathers them all
/// into the buffer, sums them into the accumulator, and emits nothing.
proof fn lemma_receive_payload(size: u8, csum: u8, buffer: Seq<u8>, rest: Seq<u8>)
    requires
        rest.len() >= 1,
        buffer.len() + rest.len() + FRAME_OVERHEAD == size,
    ensures
        run_state(DecoderModel::Receiving { size, csum, buffer }, rest)
            == (DecoderModel::WaitCSum { csum: sum8(csum, rest), buffer: buffer + rest }),
        run_outputs(DecoderModel::Receiving { size, csum, buffer }, rest)
            =~= Seq::<Seq<u8>>::empty(),
        run_diags(DecoderModel::Receiving { size, csum, buffer }, rest) =~= Seq::<
            (u8, u8),
        >::empty(),
    decreases rest.len(),
{
    let s = DecoderModel::Receiving { size, csum, buffer };
    let b = rest[0];
    if rest.len() == 1 {
        assert(step_state(s, b) == (DecoderModel::WaitCSum {
            csum: add8(csum, b),
            buffer: buffer.push(b),
        }));
        assert(rest.skip(1) =~= Seq::<u8>::empty());
        assert(buffer + rest =~= buffer.push(b));
        assert(sum8(csum, rest) == sum8(add8(csum, b), rest.skip(1)));
        assert(run_state(s, rest) == run_state(step_state(s, b), Seq::<u8>::empty()));
        assert(run_outputs(s, rest) =~= run_outputs(step_state(s, b), Seq::<u8>::empty()));
        assert(run_diags(s, rest) =~= run_diags(step_state(s, b), Seq::<u8>::empty()));
    } else {
        assert(step_state(s, b) == (DecoderModel::Receiving {
            size,
            csum: add8(csum, b),
            buffer: buffer.push(b),
        }));
        lemma_receive_payload(size, add8(csum, b), buffer.push(b), rest.skip(1));
        assert(buffer.push(b) + rest.skip(1) =~= buffer + rest);
        assert(sum8(csum, rest) == sum8(add8(csum, b), rest.skip(1)));
        assert(run_outputs(s, rest) =~= run_outputs(step_state(s, b), rest.skip(1)));
        assert(run_diags(s, rest) =~= run_diags(step_state(s, b), rest.skip(1)));
    }
}

/// What the decoder, started idle, does with one whole frame whose checksum
/// byte is `c`: it always returns to `Idle`; it emits the payload exactly
/// when `c` is the payload's true checksum, and otherwise emits nothing and
/// reports one diagnostic naming the expected and received checksum.
pub proof fn lemma_frame_decode(payload: Seq<u8>, c: u8)
    requires
        payload.len() <= MAX_PAYLOAD_LEN,
    ensures
        run_state(DecoderModel::Idle, frame_bytes_with_checksum(payload, c)) == DecoderModel::Idle,
        run_outputs(DecoderModel::Idle, frame_bytes_with_checksum(payload, c)) =~= (if c
            == checksum(payload) {
            seq![payload]
        } else {
            Seq::<Seq<u8>>::empty()
        }),
        run_diags(DecoderModel::Idle, frame_bytes_with_checksum(payload, c)) =~= (if c == checksum(
            payload,
        ) {
            Seq::<(u8, u8)>::empty()
        } else {
            seq![(checksum(payload), c)]
        }),
{
    let lenb = length_byte(payload);
    let head = seq![FRAME_HEADER_1, FRAME_HEADER_2, lenb];
    let frame = frame_bytes_with_checksum(payload, c);
    lemma_run_header(lenb);
    if payload.len() == 0 {
        let wait = DecoderModel::WaitCSum { csum: lenb, buffer: Seq::empty() };
        assert(frame =~= head + seq![c]);
        lemma_run_state_concat(DecoderModel::Idle, head, seq![c]);
        lemma_run_outputs_concat(DecoderModel::Idle, head, seq![c]);
        lemma_run_diags_concat(DecoderModel::Idle, head, seq![c]);
        lemma_run_single(wait, c);
        assert(checksum(payload) == lenb);
        assert(payload =~= Seq::<u8>::empty());
    } else {
        let mid = DecoderModel::Receiving { size: lenb, csum: lenb, buffer: Seq::empty() };
        let cs = checksum(payload);
        let tail = payload + seq![c];
        assert(frame =~= head + tail);
        lemma_run_state_concat(DecoderModel::Idle, head, tail);
        lemma_run_outputs_concat(DecoderModel::Idle, head, tail);
        lemma_run_diags_concat(DecoderModel::Idle, head, tail);
        lemma_receive_payload(lenb, lenb, Seq::empty(), payload);
        let wait = DecoderModel::WaitCSum { csum: sum8(lenb, payload), buffer: payload };
        assert(Seq::empty() + payload =~= payload);
        assert(run_state(mid, payload) == wait);
        lemma_run_state_concat(mid, payload, seq![c]);
        lemma_run_outputs_concat(mid, payload, seq![c]);
        lemma_run_diags_concat(mid, payload, seq![c]);
        lemma_run_single(wait, c);
        assert(sum8(lenb, payload) == cs);
    }
}

/// Round trip: fed exactly the bytes `encode` produces for a payload, the
/// idle decoder emits that payload once, reports no diagnostic, and returns
/// to `Idle`, ready for the next frame.
pub proof fn lemma_round_trip(payload: Seq<u8>)
    requires
        payload.len() <= MAX_PAYLOAD_LEN,
    ensures
        run_state(DecoderModel::Idle, frame_bytes(payload)) == DecoderModel::Idle,
        run_outputs(DecoderModel::Idle, frame_bytes(payload)) =~= seq![payload],
        run_diags(DecoderModel::Idle, frame_bytes(payload)) =~= Seq::<(u8, u8)>::empty(),
{
    lemma_frame_decode(payload, checksum(payload));
}

/// Checksum sensitivity: flipping any single bit of a well-formed frame's
/// checksum byte makes the idle decoder reject the frame — no payload is
/// emitted, one diagnostic is reported, and the decoder returns to `Idle`.
pub proof fn lemma_checksum_bit_flip_rejected(payload: Seq<u8>, k: u8)
    requires
        payload.len() <= MAX_PAYLOAD_LEN,
        k < 8,
    ensures
        ({
            let bad = checksum(payload) ^ (1u8 << k);
            &&& run_state(DecoderModel::Idle, frame_bytes_with_checksum(payload, bad))
                == DecoderModel::Idle
            &&& run_outputs(DecoderModel::Idle, frame_bytes_with_checksum(payload, bad)) =~= Seq::<
                Seq<u8>,
            >::empty()
            &&& run_diags(DecoderModel::Idle, frame_bytes_with_checksum(payload, bad))
                =~= seq![(checksum(payload), bad)]
        }),
{
    let cs = checksum(payload);
    assert(cs ^ (1u8 << k) != cs) by (bit_vector)
        requires
            k < 8,
    ;
    lemma_frame_decode(payload, cs ^ (1u8 << k));
}

/// Resynchronization: a frame whose checksum byte is wrong is dropped with
/// one diagnostic, and a well-formed frame fed immediately afterwards is
/// decoded — a rejection never desynchronizes the stream.
pub proof fn lemma_resynchronization(first: Seq<u8>, bad: u8, second: Seq<u8>)
    requires
        first.len() <= MAX_PAYLOAD_LEN,
        second.len() <= MAX_PAYLOAD_LEN,
        bad != checksum(first),
    ensures
        ({
            let stream = frame_bytes_with_checksum(first, bad) + frame_bytes(second);
            &&& run_state(DecoderModel::Idle, stream) == DecoderModel::Idle
            &&& run_outputs(DecoderModel::Idle, stream) =~= seq![second]
            &&& run_diags(DecoderModel::Idle, stream) =~= seq![(checksum(first), bad)]
        }),
{
    lemma_frame_decode(first, bad);
    lemma_round_trip(second);
    lemma_run_state_concat(
        DecoderModel::Idle,
        frame_bytes_with_checksum(first, bad),
        frame_bytes(second),
    );
    lemma_run_outputs_concat(
        DecoderModel::Idle,
        frame_bytes_with_checksum(first, bad),
        frame_bytes(second),
    );
    lemma_run_diags_concat(
        DecoderModel::Idle,
        frame_bytes_with_checksum(first, bad),
        frame_bytes(second),
    );
}

/// The state reached when the chunks of `chunks` are fed one call at a time.
pub open spec fn run_state_chunks(s: DecoderModel, chunks: Seq<Seq<u8>>) -> DecoderModel
    decreases chunks.len(),
{
    if chunks.len() == 0 {
        s
    } else {
        run_state_chunks(run_state(s, chunks[0]), chunks.skip(1))
    }
}

/// The payloads emitted, in order, when the chunks of `chunks` are fed one
/// call at a time.
pub open spec fn run_outputs_chunks(s: DecoderModel, chunks: Seq<Seq<u8>>) -> Seq<Seq<u8>>
    decreases chunks.len(),
{
    if chunks.len() == 0 {
        Seq::empty()
    } else {
        run_outputs(s, chunks[0]) + run_outputs_chunks(run_state(s, chunks[0]), chunks.skip(1))
    }
}

/// The diagnostics reported, in order, when the chunks of `chunks` are fed
/// one call at a time.
pub open spec fn run_diags_chunks(s: DecoderModel, chunks: Seq<Seq<u8>>) -> Seq<(u8, u8)>
    decreases chunks.len(),
{
    if chunks.len() == 0 {
        Seq::empty()
    } else {
        run_diags(s, chunks[0]) + run_diags_chunks(run_state(s, chunks[0]), chunks.skip(1))
    }
}

/// Arbitrary fragmentation: feeding a byte stream split into any sequence of
/// chunks reaches the same state and emits the same payloads and diagnostics
/// as feeding the whole stream at once.
pub proof fn lemma_fragmentation(s: DecoderModel, chunks: Seq<Seq<u8>>)
    ensures
        run_state_chunks(s, chunks) == run_state(s, chunks.flatten()),
        run_outputs_chunks(s, chunks) =~= run_outputs(s, chunks.flatten()),
        run_diags_chunks(s, chunks) =~= run_diags(s, chunks.flatten()),
    decreases chunks.len(),
{
    if chunks.len() == 0 {
        assert(chunks.flatten() =~= Seq::<u8>::empty());
    } else {
        assert(chunks.flatten() =~= chunks[0] + chunks.skip(1).flatten());
        lemma_fragmentation(run_state(s, chunks[0]), chunks.skip(1));
        lemma_run_state_concat(s, chunks[0], chunks.skip(1).flatten());
        lemma_run_outputs_concat(s, chunks[0], chunks.skip(1).flatten());
        lemma_run_diags_concat(s, chunks[0], chunks.skip(1).flatten());
    }
}

/// Round trip under any chunking: however the bytes of a well-formed frame
/// are partitioned into chunks fed one call at a time, the idle decoder
/// emits exactly the original payload and returns to `Idle`.
pub proof fn lemma_fragmented_round_trip(payload: Seq<u8>, chunks: Seq<Seq<u8>>)
    requires
        payload.len() <= MAX_PAYLOAD_LEN,
        chunks.flatten() == frame_bytes(payload),
    ensures
        run_state_chunks(DecoderModel::Idle, chunks) == DecoderModel::Idle,
        run_outputs_chunks(DecoderModel::Idle, chunks) =~= seq![payload],
        run_diags_chunks(DecoderModel::Idle, chunks) =~= Seq::<(u8, u8)>::empty(),
{
    lemma_fragmentation(DecoderModel::Idle, chunks);
    lemma_round_trip(payload);
}

} // verus!
