//! The reader of a client response: it turns what each read of the socket
//! brought into the events of the incoming message, in network order, and
//! ends every stream with exactly one `End` or `Error`.

use vstd::prelude::*;
use crate::headers::{HeaderList, HeadersView};
use crate::text::push_bytes;
use crate::wire::{read_response_head, fields_into_headers, fields_to_headers, response_head_of, HeadView, ResponseHead, MAX_FIELDS};

verus! {

/// What one read of the socket brought.
pub enum ReadOutcome {
    /// Bytes; an empty read means the peer closed.
    Bytes(Vec<u8>),
    Eof,
    Failed(String),
}

pub enum OutcomeView {
    Bytes(Seq<u8>),
    Eof,
    Failed(Seq<char>),
}

impl View for ReadOutcome {
    type V = OutcomeView;

    open spec fn view(&self) -> OutcomeView {
        match self {
            ReadOutcome::Bytes(b) => OutcomeView::Bytes(b@),
            ReadOutcome::Eof => OutcomeView::Eof,
            ReadOutcome::Failed(e) => OutcomeView::Failed(e@),
        }
    }
}

/// Why a stream failed.
pub enum StreamFailure {
    /// A read failed with this message.
    Io(String),
    /// The reply does not start with an HTTP response head.
    BadHead,
    /// The peer closed before the response head was complete.
    ClosedEarly,
}

pub enum FailureKindView {
    Io(Seq<char>),
    BadHead,
    ClosedEarly,
}

/// An event of the incoming message.
pub enum StreamStep {
    /// The response head is complete: the message can be handed to the script.
    Ready { status: u16, headers: HeaderList },
    Data(Vec<u8>),
    End,
    Error(StreamFailure),
}

pub enum StepView {
    Ready(u16, HeadersView),
    Data(Seq<u8>),
    End,
    Error(FailureKindView),
}

impl View for StreamStep {
    type V = StepView;

    open spec fn view(&self) -> StepView {
        match self {
            StreamStep::Ready { status, headers } => StepView::Ready(*status, headers@),
            StreamStep::Data(b) => StepView::Data(b@),
            StreamStep::End => StepView::End,
            StreamStep::Error(f) => StepView::Error(
                match f {
                    StreamFailure::Io(e) => FailureKindView::Io(e@),
                    StreamFailure::BadHead => FailureKindView::BadHead,
                    StreamFailure::ClosedEarly => FailureKindView::ClosedEarly,
                },
            ),
        }
    }
}

pub open spec fn steps_view(s: Seq<StreamStep>) -> Seq<StepView> {
    s.map_values(|x: StreamStep| x@)
}

pub open spec fn is_terminal(s: StepView) -> bool {
    s is End || s is Error
}

/// The bytes of the `Data` steps, in order.
pub open spec fn data_of(steps: Seq<StepView>) -> Seq<u8>
    decreases steps.len(),
{
    if steps.len() == 0 {
        Seq::empty()
    } else {
        data_of(steps.drop_last()) + match steps.last() {
            StepView::Data(b) => b,
            _ => Seq::empty(),
        }
    }
}

#[derive(PartialEq, Eq, Structural, Clone, Copy)]
pub enum Phase {
    /// Reading the response head.
    Head,
    /// Reading the body.
    Body,
    /// Ended or failed; nothing more comes out.
    Done,
}

/// The reader's state. `received` is every byte read so far, `emitted` the
/// bytes handed out as `Data`, `head_len` where the body starts in `received`.
pub struct StreamView {
    pub buf: Seq<u8>,
    pub phase: Phase,
    pub received: Seq<u8>,
    pub emitted: Seq<u8>,
    pub head_len: nat,
    pub had_head: bool,
}

/// The reader's invariant: before the head, all bytes are buffered; once the
/// head is read, what was handed out is exactly the bytes after it.
pub open spec fn stream_inv(s: StreamView) -> bool {
    &&& (s.phase == Phase::Head ==> s.buf == s.received && s.emitted.len() == 0 && !s.had_head)
    &&& (s.phase == Phase::Body ==> s.had_head)
    &&& (s.had_head ==> s.head_len <= s.received.len() && s.emitted == s.received.subrange(
        s.head_len as int,
        s.received.len() as int,
    ))
    &&& (!s.had_head ==> s.emitted.len() == 0)
}

pub open spec fn done(s: StreamView) -> StreamView {
    StreamView { buf: Seq::empty(), phase: Phase::Done, ..s }
}

/// What one read outcome does to the reader, and the steps it hands out.
pub open spec fn feed_spec(s: StreamView, o: OutcomeView) -> (StreamView, Seq<StepView>) {
    if s.phase == Phase::Done {
        (s, Seq::empty())
    } else {
        match o {
            OutcomeView::Bytes(b) => {
                if b.len() == 0 {
                    close_spec(s)
                } else if s.phase == Phase::Body {
                    (
                        StreamView { received: s.received + b, emitted: s.emitted + b, ..s },
                        seq![StepView::Data(b)],
                    )
                } else {
                    let buf = s.buf + b;
                    let s1 = StreamView { buf, received: s.received + b, ..s };
                    match response_head_of(buf, MAX_FIELDS as nat) {
                        HeadView::Partial => (s1, Seq::empty()),
                        HeadView::Invalid => (done(s1), seq![StepView::Error(FailureKindView::BadHead)]),
                        HeadView::Complete { start, fields, head_len } => {
                            if start.2 is None || head_len > buf.len() {
                                (done(s1), seq![StepView::Error(FailureKindView::BadHead)])
                            } else {
                                let rest = buf.subrange(head_len as int, buf.len() as int);
                                (
                                    StreamView {
                                        buf: Seq::empty(),
                                        phase: Phase::Body,
                                        received: s1.received,
                                        emitted: rest,
                                        head_len,
                                        had_head: true,
                                    },
                                    seq![StepView::Ready(start.2->0, fields_to_headers(fields))] + if rest.len()
                                        > 0 {
                                        seq![StepView::Data(rest)]
                                    } else {
                                        Seq::empty()
                                    },
                                )
                            }
                        },
                    }
                }
            },
            OutcomeView::Eof => close_spec(s),
            OutcomeView::Failed(e) => (done(s), seq![StepView::Error(FailureKindView::Io(e))]),
        }
    }
}

/// The peer closed: the end of the body, or a failure before the head.
pub open spec fn close_spec(s: StreamView) -> (StreamView, Seq<StepView>) {
    if s.phase == Phase::Body {
        (done(s), seq![StepView::End])
    } else {
        (done(s), seq![StepView::Error(FailureKindView::ClosedEarly)])
    }
}

pub struct ClientStream {
    buf: Vec<u8>,
    phase: Phase,
    received: Ghost<Seq<u8>>,
    emitted: Ghost<Seq<u8>>,
    head_len: Ghost<nat>,
    had_head: Ghost<bool>,
}

impl View for ClientStream {
    type V = StreamView;

    closed spec fn view(&self) -> StreamView {
        StreamView {
            buf: self.buf@,
            phase: self.phase,
            received: self.received@,
            emitted: self.emitted@,
            head_len: self.head_len@,
            had_head: self.had_head@,
        }
    }
}

impl ClientStream {
    pub fn new() -> (r: ClientStream)
        ensures
            r@.phase == Phase::Head,
            r@.received.len() == 0,
            r@.buf.len() == 0,
            r@.emitted.len() == 0,
            !r@.had_head,
            stream_inv(r@),
    {
        ClientStream {
            buf: Vec::new(),
            phase: Phase::Head,
            received: Ghost(Seq::empty()),
            emitted: Ghost(Seq::empty()),
            head_len: Ghost(0),
            had_head: Ghost(false),
        }
    }

    pub fn phase(&self) -> (r: Phase)
        ensures
            r == self@.phase,
    {
        self.phase
    }

    fn finish(&mut self)
        ensures
            final(self)@ == done(old(self)@),
    {
        self.buf = Vec::new();
        self.phase = Phase::Done;
    }

    /// Takes what one read brought and hands out the message events it makes.
    pub fn feed(&mut self, outcome: ReadOutcome) -> (r: Vec<StreamStep>)
        requires
            stream_inv(old(self)@),
        ensures
            stream_inv(final(self)@),
            (final(self)@, steps_view(r@)) == feed_spec(old(self)@, outcome@),
    {
        if self.phase == Phase::Done {
            return Vec::new();
        }
        let mut steps: Vec<StreamStep> = Vec::new();
        match outcome {
            ReadOutcome::Bytes(b) => {
                if b.len() == 0 {
                    return self.close();
                }
                if self.phase == Phase::Body {
                    proof {
                        self.received@ = self.received@ + b@;
                        self.emitted@ = self.emitted@ + b@;
                        assert(self.emitted@ =~= self.received@.subrange(
                            self.head_len@ as int,
                            self.received@.len() as int,
                        ));
                    }
                    steps.push(StreamStep::Data(b));
                    proof {
                        assert(steps_view(steps@) =~= seq![StepView::Data(b@)]);
                    }
                    return steps;
                }
                push_bytes(&mut self.buf, b.as_slice());
                proof {
                    self.received@ = self.received@ + b@;
                }
                let head = read_response_head(self.buf.as_slice());
                match head {
                    ResponseHead::Partial => {},
                    ResponseHead::Invalid => {
                        self.finish();
                        steps.push(StreamStep::Error(StreamFailure::BadHead));
                    },
                    ResponseHead::Complete { code, fields, head_len } => {
                        match code {
                            None => {
                                self.finish();
                                steps.push(StreamStep::Error(StreamFailure::BadHead));
                            },
                            Some(status) => {
                                let headers = fields_into_headers(&fields);
                                let n = self.buf.len();
                                let rest = vstd::slice::slice_to_vec(
                                    vstd::slice::slice_subrange(self.buf.as_slice(), head_len, n),
                                );
                                steps.push(StreamStep::Ready { status, headers });
                                let more = rest.len() > 0;
                                proof {
                                    self.emitted@ = rest@;
                                    self.head_len@ = head_len as nat;
                                    self.had_head@ = true;
                                }
                                if more {
                                    steps.push(StreamStep::Data(rest));
                                }
                                self.buf = Vec::new();
                                self.phase = Phase::Body;
                            },
                        }
                    },
                }
                proof {
                    let exp = feed_spec(old(self)@, outcome@).1;
                    assert(steps_view(steps@) =~= exp);
                }
                steps
            },
            ReadOutcome::Eof => self.close(),
            ReadOutcome::Failed(e) => {
                self.finish();
                steps.push(StreamStep::Error(StreamFailure::Io(e)));
                proof {
                    assert(steps_view(steps@) =~= feed_spec(old(self)@, outcome@).1);
                }
                steps
            },
        }
    }

    fn close(&mut self) -> (r: Vec<StreamStep>)
        requires
            old(self)@.phase != Phase::Done,
            stream_inv(old(self)@),
        ensures
            stream_inv(final(self)@),
            (final(self)@, steps_view(r@)) == close_spec(old(self)@),
    {
        let mut steps: Vec<StreamStep> = Vec::new();
        if self.phase == Phase::Body {
            steps.push(StreamStep::End);
        } else {
            steps.push(StreamStep::Error(StreamFailure::ClosedEarly));
        }
        self.finish();
        proof {
            assert(steps_view(steps@) =~= close_spec(old(self)@).1);
        }
        steps
    }
}

/// The reader run over a sequence of read outcomes.
pub open spec fn run_spec(s: StreamView, outs: Seq<OutcomeView>) -> (StreamView, Seq<StepView>)
    decreases outs.len(),
{
    if outs.len() == 0 {
        (s, Seq::empty())
    } else {
        let (s1, st1) = feed_spec(s, outs[0]);
        let (s2, st2) = run_spec(s1, outs.drop_first());
        (s2, st1 + st2)
    }
}

/// An outcome after which the socket is not read again.
pub open spec fn ends_reading(o: OutcomeView) -> bool {
    match o {
        OutcomeView::Bytes(b) => b.len() == 0,
        _ => true,
    }
}

pub open spec fn outcome_bytes(o: OutcomeView) -> Seq<u8> {
    match o {
        OutcomeView::Bytes(b) => b,
        _ => Seq::empty(),
    }
}

/// Every byte the outcomes brought, in order.
pub open spec fn all_bytes(outs: Seq<OutcomeView>) -> Seq<u8>
    decreases outs.len(),
{
    if outs.len() == 0 {
        Seq::empty()
    } else {
        outcome_bytes(outs[0]) + all_bytes(outs.drop_first())
    }
}

proof fn lemma_run_from_done(s: StreamView, outs: Seq<OutcomeView>)
    requires
        s.phase == Phase::Done,
    ensures
        run_spec(s, outs) == (s, Seq::<StepView>::empty()),
    decreases outs.len(),
{
    if outs.len() > 0 {
        lemma_run_from_done(s, outs.drop_first());
        assert(Seq::<StepView>::empty() + Seq::<StepView>::empty() =~= Seq::<StepView>::empty());
    }
}

proof fn lemma_data_of_concat(a: Seq<StepView>, b: Seq<StepView>)
    ensures
        data_of(a + b) == data_of(a) + data_of(b),
    decreases b.len(),
{
    if b.len() == 0 {
        assert(a + b =~= a);
        assert(data_of(a) + Seq::<u8>::empty() =~= data_of(a));
    } else {
        lemma_data_of_concat(a, b.drop_last());
        assert((a + b).drop_last() =~= a + b.drop_last());
        assert(data_of(a) + data_of(b.drop_last()) + match b.last() {
            StepView::Data(x) => x,
            _ => Seq::empty(),
        } =~= data_of(a) + data_of(b));
    }
}

/// One feed: only the last of its steps can end the stream, an ending step
/// leaves the reader done, and it hands out the bytes it adds to `emitted`.
proof fn lemma_feed_shape(s: StreamView, o: OutcomeView)
    requires
        stream_inv(s),
    ensures
        ({
            let (s1, st) = feed_spec(s, o);
            &&& stream_inv(s1)
            &&& forall|i: int| 0 <= i < st.len() - 1 ==> !is_terminal(#[trigger] st[i])
            &&& (st.len() > 0 && is_terminal(st.last()) ==> s1.phase == Phase::Done)
            &&& (s.phase != Phase::Done && s1.phase == Phase::Done ==> st.len() > 0 && is_terminal(st.last())
                || !s1.had_head)
            &&& (s.phase != Phase::Done && ends_reading(o) ==> s1.phase == Phase::Done && st.len() > 0
                && is_terminal(st.last()))
            &&& s.emitted + data_of(st) == s1.emitted
            &&& (s.phase != Phase::Done && (s1.had_head || s1.phase != Phase::Done) ==> s1.received
                == s.received + outcome_bytes(o))
            &&& (s1.phase != Phase::Done ==> !ends_reading(o) || s.phase == Phase::Done)
            &&& (s.phase == Phase::Done ==> s1 == s && st.len() == 0)
        }),
{
    let (s1, st) = feed_spec(s, o);
    reveal_with_fuel(data_of, 3);
    if s.phase != Phase::Done {
        match o {
            OutcomeView::Bytes(b) => {
                if b.len() > 0 && s.phase == Phase::Body {
                    assert(s1.emitted =~= s1.received.subrange(s1.head_len as int, s1.received.len() as int));
                    assert(data_of(st) =~= b);
                } else if b.len() > 0 {
                    let buf = s.buf + b;
                    match response_head_of(buf, MAX_FIELDS as nat) {
                        HeadView::Complete { start, fields, head_len } => {
                            if !(start.2 is None || head_len > buf.len()) {
                                let rest = buf.subrange(head_len as int, buf.len() as int);
                                assert(s.emitted.len() == 0);
                                if rest.len() > 0 {
                                    assert(st.drop_last() =~= seq![StepView::Ready(start.2->0, fields_to_headers(fields))]);
                                    assert(st.drop_last().drop_last() =~= Seq::<StepView>::empty());
                                    assert(data_of(st) =~= rest);
                                } else {
                                    assert(st.drop_last() =~= Seq::<StepView>::empty());
                                    assert(data_of(st) =~= rest);
                                }
                                assert(s.emitted + data_of(st) =~= s1.emitted);
                            } else {
                                assert(data_of(st) =~= Seq::<u8>::empty());
                                assert(s.emitted + data_of(st) =~= s1.emitted);
                            }
                        },
                        _ => {
                            assert(data_of(st) =~= Seq::<u8>::empty());
                            assert(s.emitted + data_of(st) =~= s1.emitted);
                        },
                    }
                } else {
                    assert(data_of(st) =~= Seq::<u8>::empty());
                    assert(s.emitted + data_of(st) =~= s1.emitted);
                    assert(s.received + b =~= s.received);
                }
            },
            _ => {
                assert(data_of(st) =~= Seq::<u8>::empty());
                assert(s.emitted + data_of(st) =~= s1.emitted);
                assert(s.received + Seq::<u8>::empty() =~= s.received);
            },
        }
    } else {
        assert(s.emitted + Seq::<u8>::empty() =~= s.emitted);
    }
}

/// Over any run of the reader, a step that ends the stream (`End` or `Error`)
/// is the last step, and once the socket reports its end, exactly one such
/// step has come out.
pub proof fn lemma_one_terminal_step(s: StreamView, outs: Seq<OutcomeView>)
    requires
        stream_inv(s),
    ensures
        ({
            let steps = run_spec(s, outs).1;
            &&& forall|i: int| 0 <= i < steps.len() - 1 ==> !is_terminal(#[trigger] steps[i])
            &&& (s.phase != Phase::Done && (exists|k: int| 0 <= k < outs.len() && ends_reading(#[trigger] outs[k]))
                ==> steps.len() > 0 && is_terminal(steps.last()))
        }),
    decreases outs.len(),
{
    if outs.len() > 0 {
        let (s1, st1) = feed_spec(s, outs[0]);
        let rest = outs.drop_first();
        let (s2, st2) = run_spec(s1, rest);
        lemma_feed_shape(s, outs[0]);
        lemma_one_terminal_step(s1, rest);
        let steps = st1 + st2;
        if st1.len() > 0 && is_terminal(st1.last()) {
            lemma_run_from_done(s1, rest);
            assert(steps =~= st1);
        }
        assert forall|i: int| 0 <= i < steps.len() - 1 implies !is_terminal(#[trigger] steps[i]) by {
            if i < st1.len() {
                if i == st1.len() - 1 {
                    if is_terminal(st1.last()) {
                        assert(steps =~= st1);
                    }
                } else {
                    assert(steps[i] == st1[i]);
                }
            } else {
                assert(steps[i] == st2[i - st1.len()]);
            }
        }
        if s.phase != Phase::Done && (exists|k: int| 0 <= k < outs.len() && ends_reading(#[trigger] outs[k])) {
            let k = choose|k: int| 0 <= k < outs.len() && ends_reading(#[trigger] outs[k]);
            if s1.phase == Phase::Done {
                lemma_run_from_done(s1, rest);
                assert(steps =~= st1);
                if !(st1.len() > 0 && is_terminal(st1.last())) {
                    // the head was refused: that step is an error too
                    assert(st1.len() > 0 && is_terminal(st1.last()));
                }
            } else {
                assert(k != 0);
                assert(ends_reading(rest[k - 1]));
                assert(steps.last() == st2.last());
            }
        }
    }
}

/// The `Data` steps of a run are the bytes received after the response
/// head, in the order they arrived.
pub proof fn lemma_data_in_network_order(s: StreamView, outs: Seq<OutcomeView>)
    requires
        stream_inv(s),
        s.phase == Phase::Head,
        s.received.len() == 0,
        forall|i: int| 0 <= i < outs.len() - 1 ==> !ends_reading(#[trigger] outs[i]),
    ensures
        ({
            let (f, steps) = run_spec(s, outs);
            f.had_head ==> f.head_len <= all_bytes(outs).len() && data_of(steps) == all_bytes(outs).subrange(
                f.head_len as int,
                all_bytes(outs).len() as int,
            )
        }),
{
    lemma_run_accumulates(s, outs);
    let (f, steps) = run_spec(s, outs);
    assert(s.emitted =~= Seq::<u8>::empty());
    assert(Seq::<u8>::empty() + data_of(steps) =~= data_of(steps));
    assert(s.received + all_bytes(outs) =~= all_bytes(outs));
}

proof fn lemma_run_accumulates(s: StreamView, outs: Seq<OutcomeView>)
    requires
        stream_inv(s),
        s.phase != Phase::Done,
        forall|i: int| 0 <= i < outs.len() - 1 ==> !ends_reading(#[trigger] outs[i]),
    ensures
        ({
            let (f, steps) = run_spec(s, outs);
            &&& stream_inv(f)
            &&& s.emitted + data_of(steps) == f.emitted
            &&& (f.had_head || f.phase != Phase::Done) ==> f.received == s.received + all_bytes(outs)
        }),
    decreases outs.len(),
{
    if outs.len() == 0 {
        assert(s.emitted + data_of(Seq::<StepView>::empty()) =~= s.emitted);
        assert(s.received + all_bytes(outs) =~= s.received);
    } else {
        let o = outs[0];
        let (s1, st1) = feed_spec(s, o);
        let rest = outs.drop_first();
        let (f, st2) = run_spec(s1, rest);
        lemma_feed_shape(s, o);
        lemma_data_of_concat(st1, st2);
        let ob = outcome_bytes(o);
        assert(all_bytes(outs) == ob + all_bytes(rest));
        if s1.phase == Phase::Done {
            lemma_run_from_done(s1, rest);
            assert(st1 + st2 =~= st1);
            assert(data_of(st2) =~= Seq::<u8>::empty());
            assert(s.emitted + data_of(st1) =~= f.emitted);
            if f.had_head {
                // done with the head read: only an outcome that ends reading gets here
                if outs.len() > 1 {
                    assert(!ends_reading(outs[0]));
                }
                assert(rest.len() == 0 || !ends_reading(o));
                if rest.len() > 0 {
                    assert(s1.phase != Phase::Done || !s1.had_head);
                }
                assert(all_bytes(rest) =~= Seq::<u8>::empty());
                assert(s.received + all_bytes(outs) =~= s1.received);
            }
        } else {
            assert forall|i: int| 0 <= i < rest.len() - 1 implies !ends_reading(#[trigger] rest[i]) by {
                assert(rest[i] == outs[i + 1]);
            }
            lemma_run_accumulates(s1, rest);
            assert(s.emitted + data_of(st1 + st2) =~= s.emitted + data_of(st1) + data_of(st2));
            assert(s.received + all_bytes(outs) =~= s.received + ob + all_bytes(rest));
        }
    }
}

} // verus!
