//! The hub communicator's logic: assembling COBS frames from the serial
//! line, checking and unstuffing them, and deciding what to do with a
//! status report from the hub (shutdown, reboot, kicker pulse, colour
//! thresholds to forward to the vision node).
use vstd::prelude::*;

verus! {

/// Size of the receive buffer: a frame ends at its zero terminator or when
/// this many bytes have arrived, whichever comes first.
pub const FRAME_CAPACITY: usize = 64;

/// `q` followed by zero bytes up to length `n`.
pub open spec fn zero_padded(q: Seq<u8>, n: nat) -> Seq<u8> {
    q + Seq::new((n - q.len()) as nat, |i: int| 0u8)
}

/// One received byte: the pending bytes and the byte either stay pending, or,
/// when the byte is the zero terminator or the buffer is full, leave as a
/// frame padded with zeros to the buffer size.
pub open spec fn assembler_step(pending: Seq<u8>, byte: u8) -> (Seq<u8>, Option<Seq<u8>>) {
    let q = pending.push(byte);
    if byte == 0 || q.len() >= FRAME_CAPACITY {
        (Seq::empty(), Some(zero_padded(q, FRAME_CAPACITY as nat)))
    } else {
        (q, None)
    }
}

/// A byte completes a frame exactly when it is the zero terminator or fills
/// the buffer; the frame then holds the pending bytes, the byte, and zeros up
/// to the buffer size, and nothing stays pending. Otherwise the byte is
/// appended to the pending bytes and no frame comes out.
pub proof fn lemma_assembler_step(pending: Seq<u8>, byte: u8)
    requires
        pending.len() < FRAME_CAPACITY,
    ensures
        byte == 0 || pending.len() + 1 == FRAME_CAPACITY ==> {
            let (next, out) = assembler_step(pending, byte);
            &&& next.len() == 0
            &&& out matches Some(f) && {
                &&& f.len() == FRAME_CAPACITY
                &&& forall|k: int| 0 <= k < pending.len() ==> f[k] == pending[k]
                &&& f[pending.len() as int] == byte
                &&& forall|k: int| pending.len() < k < FRAME_CAPACITY ==> f[k] == 0
            }
        },
        !(byte == 0 || pending.len() + 1 == FRAME_CAPACITY) ==> assembler_step(pending, byte) == (
            pending.push(byte),
            None::<Seq<u8>>,
        ),
{
}

/// The bytes still pending and the frames emitted, in order, after feeding
/// `bytes` one by one to an assembler holding `pending`.
pub open spec fn assemble(pending: Seq<u8>, bytes: Seq<u8>) -> (Seq<u8>, Seq<Seq<u8>>)
    decreases bytes.len(),
{
    if bytes.len() == 0 {
        (pending, Seq::empty())
    } else {
        let (next, emitted) = assembler_step(pending, bytes[0]);
        let (rest, frames) = assemble(next, bytes.drop_first());
        match emitted {
            Some(f) => (rest, seq![f] + frames),
            None => (rest, frames),
        }
    }
}

/// Collects bytes read one at a time from the serial line into frames.
pub struct FrameAssembler {
    pending: Vec<u8>,
}

impl View for FrameAssembler {
    type V = Seq<u8>;

    closed spec fn view(&self) -> Seq<u8> {
        self.pending@
    }
}

impl FrameAssembler {
    /// Fewer bytes are pending than a frame can hold.
    pub open spec fn wf(&self) -> bool {
        self@.len() < FRAME_CAPACITY
    }

    /// An assembler with nothing pending.
    pub fn new() -> (a: FrameAssembler)
        ensures
            a.wf(),
            a@ == Seq::<u8>::empty(),
    {
        FrameAssembler { pending: Vec::new() }
    }

    /// Takes one received byte; returns the completed frame, padded with zeros
    /// to `FRAME_CAPACITY` bytes, when the byte completes one.
    pub fn push(&mut self, byte: u8) -> (frame: Option<Vec<u8>>)
        requires
            old(self).wf(),
        ensures
            final(self).wf(),
            final(self)@ == assembler_step(old(self)@, byte).0,
            match frame {
                Some(f) => assembler_step(old(self)@, byte).1 == Some(f@),
                None => assembler_step(old(self)@, byte).1 is None,
            },
            byte == 0 || old(self)@.len() + 1 == FRAME_CAPACITY ==> {
                &&& final(self)@.len() == 0
                &&& frame matches Some(f) && {
                    &&& f@.len() == FRAME_CAPACITY
                    &&& forall|k: int| 0 <= k < old(self)@.len() ==> f@[k] == old(self)@[k]
                    &&& f@[old(self)@.len() as int] == byte
                    &&& forall|k: int| old(self)@.len() < k < FRAME_CAPACITY ==> f@[k] == 0
                }
            },
            !(byte == 0 || old(self)@.len() + 1 == FRAME_CAPACITY) ==> {
                &&& frame is None
                &&& final(self)@ == old(self)@.push(byte)
            },
    {
        proof {
            lemma_assembler_step(old(self)@, byte);
        }
        let ghost q = self@.push(byte);
        self.pending.push(byte);
        if byte == 0 || self.pending.len() >= FRAME_CAPACITY {
            let mut frame: Vec<u8> = Vec::new();
            std::mem::swap(&mut frame, &mut self.pending);
            while frame.len() < FRAME_CAPACITY
                invariant
                    q.len() <= frame@.len() <= FRAME_CAPACITY,
                    frame@ == zero_padded(q, frame@.len()),
                decreases FRAME_CAPACITY - frame.len(),
            {
                frame.push(0);
                assert(frame@ =~= zero_padded(q, frame@.len()));
            }
            assert(self@ =~= Seq::<u8>::empty());
            Some(frame)
        } else {
            None
        }
    }
}

/// Feeding bytes that hold no terminator and do not fill the buffer only
/// adds them to the pending bytes.
pub proof fn lemma_assemble_unterminated(pending: Seq<u8>, bytes: Seq<u8>)
    requires
        pending.len() + bytes.len() < FRAME_CAPACITY,
        forall|i: int| 0 <= i < bytes.len() ==> #[trigger] bytes[i] != 0,
    ensures
        assemble(pending, bytes) == (pending + bytes, Seq::<Seq<u8>>::empty()),
    decreases bytes.len(),
{
    if bytes.len() > 0 {
        lemma_assemble_unterminated(pending.push(bytes[0]), bytes.drop_first());
        assert(pending.push(bytes[0]) + bytes.drop_first() =~= pending + bytes);
    }
}

/// A frame as the sender writes it, zero-free bytes followed by one zero
/// terminator, that fits the buffer, is received as exactly one frame: those
/// bytes padded with zeros, with nothing left pending.
pub proof fn lemma_assemble_terminated_frame(frame: Seq<u8>)
    requires
        1 <= frame.len() <= FRAME_CAPACITY,
        frame.last() == 0,
        forall|i: int| 0 <= i < frame.len() - 1 ==> #[trigger] frame[i] != 0,
    ensures
        assemble(Seq::empty(), frame) == (
            Seq::<u8>::empty(),
            seq![zero_padded(frame, FRAME_CAPACITY as nat)],
        ),
{
    lemma_assemble_terminated_from(Seq::empty(), frame);
    assert(Seq::<u8>::empty() + frame =~= frame);
}

proof fn lemma_assemble_terminated_from(pending: Seq<u8>, frame: Seq<u8>)
    requires
        1 <= frame.len(),
        pending.len() + frame.len() <= FRAME_CAPACITY,
        frame.last() == 0,
        forall|i: int| 0 <= i < frame.len() - 1 ==> #[trigger] frame[i] != 0,
    ensures
        assemble(pending, frame) == (
            Seq::<u8>::empty(),
            seq![zero_padded(pending + frame, FRAME_CAPACITY as nat)],
        ),
    decreases frame.len(),
{
    if frame.len() == 1 {
        assert(pending.push(frame[0]) =~= pending + frame);
        assert(frame.drop_first() =~= Seq::<u8>::empty());
        let (next, emitted) = assembler_step(pending, frame[0]);
        assert(assemble(next, frame.drop_first()) == (next, Seq::<Seq<u8>>::empty()));
        assert(seq![zero_padded(pending + frame, FRAME_CAPACITY as nat)] + Seq::<Seq<u8>>::empty()
            =~= seq![zero_padded(pending + frame, FRAME_CAPACITY as nat)]);
    } else {
        assert(frame[0] != 0);
        let rest = frame.drop_first();
        assert forall|i: int| 0 <= i < rest.len() - 1 implies #[trigger] rest[i] != 0 by {
            assert(rest[i] == frame[i + 1]);
        }
        lemma_assemble_terminated_from(pending.push(frame[0]), rest);
        assert(pending.push(frame[0]) + rest =~= pending + frame);
    }
}

/// The bytes before the first zero of `s`, or all of `s` when it holds none.
pub open spec fn zero_free_prefix(s: Seq<u8>) -> Seq<u8>
    decreases s.len(),
{
    if s.len() == 0 || s[0] == 0 {
        Seq::empty()
    } else {
        seq![s[0]] + zero_free_prefix(s.drop_first())
    }
}

proof fn lemma_zero_free_prefix_len(s: Seq<u8>)
    ensures
        zero_free_prefix(s).len() <= s.len(),
    decreases s.len(),
{
    if s.len() > 0 && s[0] != 0 {
        lemma_zero_free_prefix_len(s.drop_first());
    }
}

/// COBS decoding of a run of zero-free encoded bytes: each block starts with
/// a code byte `c` and carries the `c - 1` bytes after it; a zero follows the
/// block unless `c` is 0xFF or the run ends there. A block whose code byte
/// reaches past the end of the run makes the run malformed (`None`).
pub open spec fn cobs_decoded_run(run: Seq<u8>) -> Option<Seq<u8>>
    decreases run.len(),
{
    if run.len() == 0 {
        Some(Seq::empty())
    } else {
        let code = run[0] as int;
        if code == 0 || code > run.len() {
            None
        } else {
            let data = run.subrange(1, code);
            let rest = run.skip(code);
            match cobs_decoded_run(rest) {
                None => None,
                Some(d) => Some(
                    if code != 0xFF && rest.len() > 0 {
                        data.push(0) + d
                    } else {
                        data + d
                    },
                ),
            }
        }
    }
}

/// A decoded run is never longer than the run.
pub proof fn lemma_cobs_decoded_len(run: Seq<u8>)
    ensures
        cobs_decoded_run(run) matches Some(d) ==> d.len() <= run.len(),
    decreases run.len(),
{
    if run.len() > 0 {
        let code = run[0] as int;
        if code != 0 && code <= run.len() {
            lemma_cobs_decoded_len(run.skip(code));
        }
    }
}

/// The payload carried by a received frame: the COBS decoding of the bytes
/// before its first zero; an empty frame carries none.
pub open spec fn frame_payload(frame: Seq<u8>) -> Option<Seq<u8>> {
    if frame.len() == 0 {
        None
    } else {
        cobs_decoded_run(zero_free_prefix(frame))
    }
}

proof fn lemma_zero_free_prefix_of_terminated(run: Seq<u8>, tail: Seq<u8>)
    requires
        forall|i: int| 0 <= i < run.len() ==> #[trigger] run[i] != 0,
    ensures
        zero_free_prefix(run.push(0) + tail) == run,
    decreases run.len(),
{
    if run.len() == 0 {
        assert((run.push(0) + tail)[0] == 0);
    } else {
        let rest = run.drop_first();
        assert forall|i: int| 0 <= i < rest.len() implies #[trigger] rest[i] != 0 by {
            assert(rest[i] == run[i + 1]);
        }
        lemma_zero_free_prefix_of_terminated(rest, tail);
        assert((run.push(0) + tail).drop_first() =~= rest.push(0) + tail);
        assert(seq![run[0]] + rest =~= run);
    }
}

/// A sender's frame, a zero-free COBS encoding followed by the zero
/// terminator, that fits the buffer, arrives as one frame whose payload is
/// the decoding of exactly that encoding: the padding the receiver adds is
/// never decoded.
pub proof fn lemma_received_frame_payload(encoded: Seq<u8>)
    requires
        encoded.len() < FRAME_CAPACITY,
        forall|i: int| 0 <= i < encoded.len() ==> #[trigger] encoded[i] != 0,
    ensures
        assemble(Seq::empty(), encoded.push(0)) == (
            Seq::<u8>::empty(),
            seq![zero_padded(encoded.push(0), FRAME_CAPACITY as nat)],
        ),
        frame_payload(zero_padded(encoded.push(0), FRAME_CAPACITY as nat)) == cobs_decoded_run(encoded),
{
    let frame = encoded.push(0);
    assert forall|i: int| 0 <= i < frame.len() - 1 implies #[trigger] frame[i] != 0 by {
        assert(frame[i] == encoded[i]);
    }
    lemma_assemble_terminated_frame(frame);
    let padding = Seq::new((FRAME_CAPACITY as nat - frame.len()) as nat, |i: int| 0u8);
    lemma_zero_free_prefix_of_terminated(encoded, padding);
}

/// The zero-free prefix is the longest prefix of `s` without a zero: it
/// matches `s` position by position, holds no zero, and is all of `s` or is
/// followed in `s` by a zero.
pub proof fn lemma_zero_free_prefix_law(s: Seq<u8>)
    ensures
        zero_free_prefix(s).len() <= s.len(),
        forall|i: int| 0 <= i < zero_free_prefix(s).len() ==> #[trigger] zero_free_prefix(s)[i] == s[i] && s[i] != 0,
        zero_free_prefix(s).len() == s.len() || s[zero_free_prefix(s).len() as int] == 0,
    decreases s.len(),
{
    if s.len() > 0 && s[0] != 0 {
        let rest = s.drop_first();
        lemma_zero_free_prefix_law(rest);
        let z = zero_free_prefix(s);
        assert(z == seq![s[0]] + zero_free_prefix(rest));
        assert forall|i: int| 0 <= i < z.len() implies #[trigger] z[i] == s[i] && s[i] != 0 by {
            if i > 0 {
                assert(z[i] == zero_free_prefix(rest)[i - 1]);
                assert(rest[i - 1] == s[i]);
            }
        }
        if zero_free_prefix(rest).len() < rest.len() {
            assert(rest[zero_free_prefix(rest).len() as int] == s[z.len() as int]);
        }
    }
}

/// A message of fewer than 254 bytes, preceded by one more than its length,
/// decodes to itself.
pub proof fn lemma_cobs_single_block(d: Seq<u8>)
    requires
        d.len() < 254,
    ensures
        cobs_decoded_run(seq![(d.len() + 1) as u8] + d) == Some(d),
{
    let run = seq![(d.len() + 1) as u8] + d;
    assert(run[0] as int == d.len() + 1);
    assert(run.subrange(1, (d.len() + 1) as int) =~= d);
    assert(run.skip((d.len() + 1) as int) =~= Seq::<u8>::empty());
    assert(cobs_decoded_run(Seq::<u8>::empty()) == Some(Seq::<u8>::empty()));
    assert(d + Seq::<u8>::empty() =~= d);
}

/// Two such blocks in a row decode to the first message, a zero byte, and
/// the second message: a block shorter than 254 bytes stands for its data
/// followed by a zero whenever another block follows.
pub proof fn lemma_cobs_two_blocks(d: Seq<u8>, e: Seq<u8>)
    requires
        d.len() < 254,
        e.len() < 254,
    ensures
        cobs_decoded_run(seq![(d.len() + 1) as u8] + d + (seq![(e.len() + 1) as u8] + e)) == Some(
            d.push(0) + e,
        ),
{
    let second = seq![(e.len() + 1) as u8] + e;
    let run = seq![(d.len() + 1) as u8] + d + second;
    lemma_cobs_single_block(e);
    assert(run[0] as int == d.len() + 1);
    assert(run.subrange(1, (d.len() + 1) as int) =~= d);
    assert(run.skip((d.len() + 1) as int) =~= second);
    assert(second.len() > 0);
}

#[verifier::external_type_specification]
#[verifier::external_body]
pub struct ExDecodeError(cobs::DecodeError);

/// Calls `cobs::decode_in_place`. The contract claims what its source shows:
/// an empty buffer is an error; otherwise only the bytes before the first zero
/// are decoded, block by block as `cobs_decoded_run` states, the decoded
/// message is written to the front of the buffer and its length returned, and
/// the buffer keeps its length. Which error variant comes back is left unsaid.
#[verifier::external_body]
fn cobs_decode_in_place(buf: &mut Vec<u8>) -> (res: Result<usize, cobs::DecodeError>)
    ensures
        final(buf)@.len() == old(buf)@.len(),
        old(buf)@.len() == 0 ==> res is Err,
        old(buf)@.len() > 0 ==> match cobs_decoded_run(zero_free_prefix(old(buf)@)) {
            Some(d) => res matches Ok(n) && n == d.len() && final(buf)@.take(n as int) == d,
            None => res is Err,
        },
{
    cobs::decode_in_place(buf.as_mut_slice())
}

/// Why a received frame carries no message.
#[derive(Clone, Copy, Debug, PartialEq, Eq, Structural)]
pub enum FrameError {
    /// The frame is not a well-formed COBS encoding.
    BadEncoding,
}

/// The message left in a buffer that COBS decoding has overwritten: its first
/// `decoded_len` bytes, or `BadEncoding` when decoding failed (`None`).
pub fn decoded_payload(buf: Vec<u8>, decoded_len: Option<usize>) -> (res: Result<Vec<u8>, FrameError>)
    ensures
        match decoded_len {
            Some(n) => res matches Ok(payload) && payload@ == buf@.take(
                if n <= buf@.len() { n as int } else { buf@.len() as int },
            ),
            None => res == Err::<Vec<u8>, FrameError>(FrameError::BadEncoding),
        },
{
    match decoded_len {
        Some(n) => {
            let mut payload = buf;
            let ghost whole = payload@;
            payload.truncate(n);
            assert(payload@ =~= whole.take(if n <= whole.len() { n as int } else { whole.len() as int }));
            Ok(payload)
        },
        None => Err(FrameError::BadEncoding),
    }
}

/// Unstuffs a received frame into the message bytes it carries, as the
/// communicator does before deserialising a status report.
pub fn decode_frame(frame: Vec<u8>) -> (res: Result<Vec<u8>, FrameError>)
    ensures
        match frame_payload(frame@) {
            Some(d) => res matches Ok(payload) && payload@ == d,
            None => res == Err::<Vec<u8>, FrameError>(FrameError::BadEncoding),
        },
{
    let mut buf = frame;
    proof {
        lemma_zero_free_prefix_len(frame@);
        lemma_cobs_decoded_len(zero_free_prefix(frame@));
    }
    let decoded_len = match cobs_decode_in_place(&mut buf) {
        Ok(n) => Some(n),
        Err(_) => None,
    };
    decoded_payload(buf, decoded_len)
}

/// An HSV colour range as the hub configures it.
#[derive(Clone, Copy, Debug, PartialEq, Eq, Structural)]
pub struct ColorRange {
    pub h_min: u8,
    pub h_max: u8,
    pub s_min: u8,
    pub s_max: u8,
    pub v_min: u8,
    pub v_max: u8,
}

/// The six bytes that forward a colour range to the vision node.
pub open spec fn color_message(c: ColorRange) -> Seq<u8> {
    seq![c.h_min, c.h_max, c.s_min, c.s_max, c.v_min, c.v_max]
}

/// The forwarded message holds the six bounds in a fixed order: hue minimum
/// and maximum, saturation minimum and maximum, value minimum and maximum.
pub proof fn lemma_color_message_positions(c: ColorRange)
    ensures
        color_message(c).len() == 6,
        color_message(c)[0] == c.h_min,
        color_message(c)[1] == c.h_max,
        color_message(c)[2] == c.s_min,
        color_message(c)[3] == c.s_max,
        color_message(c)[4] == c.v_min,
        color_message(c)[5] == c.v_max,
{
}

impl ColorRange {
    /// The message that forwards this range: hue, saturation and value
    /// bounds, each minimum before its maximum.
    pub fn to_message(&self) -> (m: Vec<u8>)
        ensures
            m@ == color_message(*self),
            m@.len() == 6,
            m@[0] == self.h_min,
            m@[1] == self.h_max,
            m@[2] == self.s_min,
            m@[3] == self.s_max,
            m@[4] == self.v_min,
            m@[5] == self.v_max,
    {
        let mut m: Vec<u8> = Vec::new();
        m.push(self.h_min);
        m.push(self.h_max);
        m.push(self.s_min);
        m.push(self.s_max);
        m.push(self.v_min);
        m.push(self.v_max);
        assert(m@ =~= color_message(*self));
        m
    }
}

/// What the hub asks of the Jetson besides reporting its state.
#[derive(Clone, Copy, Debug, PartialEq, Eq, Structural)]
pub enum HubConfig {
    /// New colour range for the own goal.
    OpenCvOwn(ColorRange),
    /// New colour range for the opponent's goal.
    OpenCvOpp(ColorRange),
    /// Any other setting, which the communicator ignores.
    Unhandled,
}

/// The parts of a status report from the hub that the communicator decides on.
/// `ball_aligned` says that the robot's turning rate is below the kicking limit.
#[derive(Clone, Copy, Debug, PartialEq, Eq, Structural)]
pub struct HubReport {
    pub shutdown: bool,
    pub reboot: bool,
    pub have_ball: bool,
    pub ball_aligned: bool,
    pub config: HubConfig,
}

/// What the communicator does on a report: shut down, reboot, pulse the
/// kicker, publish the ball state, and forward colour ranges as messages.
#[derive(Debug)]
pub struct HubActions {
    pub shutdown: bool,
    pub reboot: bool,
    pub kick: bool,
    pub have_ball: bool,
    pub hsv_own: Option<Vec<u8>>,
    pub hsv_opp: Option<Vec<u8>>,
}

/// The kicker fires when the ball is held while the robot is aligned
/// (`engaged`), and only if it was not engaged at the previous report; the
/// new latch is whether it is engaged now. Returns (latch, fire).
pub open spec fn kick_step(was_engaged: bool, engaged: bool) -> (bool, bool) {
    (engaged, engaged && !was_engaged)
}

/// The report asks for the kicker: ball held and robot aligned.
pub open spec fn engaged(report: HubReport) -> bool {
    report.have_ball && report.ball_aligned
}

/// Decides on the hub's status reports; remembers whether the kicker was
/// engaged at the previous report.
pub struct ReportHandler {
    prev_kick: bool,
}

impl ReportHandler {
    /// Whether the previous report engaged the kicker.
    pub closed spec fn was_engaged(&self) -> bool {
        self.prev_kick
    }

    /// A handler before any report: the kicker is not engaged.
    pub fn new() -> (h: ReportHandler)
        ensures
            !h.was_engaged(),
    {
        ReportHandler { prev_kick: false }
    }

    /// The actions for one report.
    pub fn handle(&mut self, report: &HubReport) -> (a: HubActions)
        ensures
            a.shutdown == report.shutdown,
            a.reboot == report.reboot,
            a.have_ball == report.have_ball,
            (final(self).was_engaged(), a.kick) == kick_step(old(self).was_engaged(), engaged(*report)),
            final(self).was_engaged() == (report.have_ball && report.ball_aligned),
            a.kick == (report.have_ball && report.ball_aligned && !old(self).was_engaged()),
            match report.config {
                HubConfig::OpenCvOwn(c) => a.hsv_own matches Some(m) && m@ == color_message(c),
                _ => a.hsv_own is None,
            },
            match report.config {
                HubConfig::OpenCvOpp(c) => a.hsv_opp matches Some(m) && m@ == color_message(c),
                _ => a.hsv_opp is None,
            },
    {
        let engaged_now = report.have_ball && report.ball_aligned;
        let kick = engaged_now && !self.prev_kick;
        self.prev_kick = engaged_now;
        let (hsv_own, hsv_opp) = match &report.config {
            HubConfig::OpenCvOwn(c) => (Some(c.to_message()), None),
            HubConfig::OpenCvOpp(c) => (None, Some(c.to_message())),
            HubConfig::Unhandled => (None, None),
        };
        HubActions {
            shutdown: report.shutdown,
            reboot: report.reboot,
            kick,
            have_ball: report.have_ball,
            hsv_own,
            hsv_opp,
        }
    }
}

/// After a report the latch holds exactly whether that report engaged the
/// kicker, and the kicker fires exactly when the report engages it and the
/// previous one did not; a report engages it exactly when the ball is held
/// and the robot aligned.
pub proof fn lemma_kick_latch(was_engaged: bool, now: bool, report: HubReport)
    ensures
        kick_step(was_engaged, now).0 == now,
        kick_step(was_engaged, now).1 == (now && !was_engaged),
        engaged(report) == (report.have_ball && report.ball_aligned),
{
}

/// The kicker's firings over a run of reports, given their engagement.
pub open spec fn kick_run(was_engaged: bool, engagements: Seq<bool>) -> Seq<bool>
    decreases engagements.len(),
{
    if engagements.len() == 0 {
        Seq::empty()
    } else {
        let (latch, fire) = kick_step(was_engaged, engagements[0]);
        seq![fire] + kick_run(latch, engagements.drop_first())
    }
}

/// A run of reports that all engage the kicker fires it at most once: on the
/// first report when the previous one did not engage it, and never after.
pub proof fn lemma_engaged_run_fires_once(was_engaged: bool, engagements: Seq<bool>)
    requires
        forall|k: int| 0 <= k < engagements.len() ==> #[trigger] engagements[k],
    ensures
        kick_run(was_engaged, engagements).len() == engagements.len(),
        engagements.len() > 0 ==> kick_run(was_engaged, engagements)[0] == !was_engaged,
        forall|k: int| 1 <= k < engagements.len() ==> !#[trigger] kick_run(was_engaged, engagements)[k],
    decreases engagements.len(),
{
    if engagements.len() > 0 {
        let rest = engagements.drop_first();
        assert forall|k: int| 0 <= k < rest.len() implies #[trigger] rest[k] by {
            assert(rest[k] == engagements[k + 1]);
        }
        lemma_engaged_run_fires_once(true, rest);
        assert(kick_step(was_engaged, engagements[0]) == (true, !was_engaged));
        let r = kick_run(was_engaged, engagements);
        assert(r == seq![!was_engaged] + kick_run(true, rest));
        assert forall|k: int| 1 <= k < engagements.len() implies !#[trigger] r[k] by {
            assert(r[k] == kick_run(true, rest)[k - 1]);
        }
    }
}

/// The kicker never fires at two reports in a row.
pub proof fn lemma_no_consecutive_kicks(was_engaged: bool, first: bool, second: bool)
    ensures
        kick_step(was_engaged, first).1 ==> !kick_step(kick_step(was_engaged, first).0, second).1,
{
}

/// After a report that does not engage the kicker, the next report that
/// engages it fires it.
pub proof fn lemma_kick_rearms(was_engaged: bool, first: bool, second: bool)
    ensures
        !first && second ==> kick_step(kick_step(was_engaged, first).0, second).1,
{
}

/// The colour thresholds that the vision node applies after the
/// communicator forwards a colour range: the six bytes are taken in the
/// order in which they were sent, so the hue range lands in the hue and
/// saturation minimum, and so on.
pub proof fn lemma_forwarded_threshold(t: crate::vision::HsvThreshold, c: ColorRange)
    ensures
        crate::vision::threshold_after_message(t, color_message(c)) == (crate::vision::HsvThreshold {
            h_min: c.h_min,
            s_min: c.h_max,
            v_min: c.s_min,
            h_max: c.s_max,
            s_max: c.v_min,
            v_max: c.v_max,
        }),
{
}

} // verus!
