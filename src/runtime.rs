//! The bookkeeping of the event loop: which script callbacks are waiting for
//! which work, what each completion calls, and with what arguments.
//!
//! Every callback the runtime hands to a binding gets a number, its slot. A
//! binding fills a fresh slot and returns the work to start; when the work
//! completes, its envelope comes back and `dispatch` says which callbacks to
//! call. A one-shot slot is emptied when its callback is called, so it is
//! never called twice; an incoming message keeps its listeners until the
//! stream ends.

use vstd::prelude::*;
use crate::emitter::{
    all_listeners, events_unique, flat_listeners, listeners_of, with_listener, CallbackId, EventEmitter,
    ListenersView,
};
use crate::headers::{HeaderList, HeadersView};
use crate::request::{Request, RequestView};
use crate::response::{Response, ResponseView};
use crate::text::{decode_lossy, lossy_text, opt_text, utf8_bytes};
use crate::client::{
    base_headers, get_method, get_request, plan_request, planned_request, planned_target, resolve_target, target_spec, url_parts_of, RequestOptions,
    Target, TargetView, UrlError,
};
use crate::request::request_bytes;
use crate::stream::{StreamFailure, StreamStep};
use vstd::utf8::{encode_utf8, valid_utf8};

verus! {

/// A connection, named by the number the host gave it.
pub type ConnectionId = u64;

#[derive(PartialEq, Eq, Structural, Clone, Copy, Debug)]
pub enum OpKind {
    Timeout,
    Interval,
    ReadFile,
    WriteFile,
    Fetch,
}

/// Kinds whose callback is called once.
pub open spec fn one_shot(k: OpKind) -> bool {
    k != OpKind::Interval
}

pub enum Slot {
    /// Done with: nothing will call it.
    Free,
    /// Waiting for the completion of work of this kind.
    Waiting(OpKind),
    /// A response stream handed to the script, with its listeners.
    Streaming(EventEmitter),
    /// A server's request handler.
    Handler,
    /// A listener of an incoming message.
    Listener,
}

pub enum SlotView {
    Free,
    Waiting(OpKind),
    Streaming(ListenersView),
    Handler,
    Listener,
}

impl View for Slot {
    type V = SlotView;

    open spec fn view(&self) -> SlotView {
        match self {
            Slot::Free => SlotView::Free,
            Slot::Waiting(k) => SlotView::Waiting(*k),
            Slot::Streaming(e) => SlotView::Streaming(e@),
            Slot::Handler => SlotView::Handler,
            Slot::Listener => SlotView::Listener,
        }
    }
}

pub type SlotsView = Seq<SlotView>;

/// Every stream's listeners are listener slots.
pub open spec fn slots_wf(s: SlotsView) -> bool {
    forall|i: int|
        0 <= i < s.len() && #[trigger] s[i] is Streaming ==> {
            let l = s[i]->Streaming_0;
            &&& events_unique(l)
            &&& forall|c: CallbackId| #[trigger]
                all_listeners(l).contains(c) ==> c < s.len() && s[c as int] is Listener
        }
}

/// The completion of a piece of work, as it comes back to the event loop.
pub enum Envelope {
    TimerFire { op: CallbackId },
    ReadOk { op: CallbackId, contents: Vec<u8> },
    ReadErr { op: CallbackId, message: String },
    WriteOk { op: CallbackId },
    WriteErr { op: CallbackId, message: String },
    Accept { request: Request, connection: ConnectionId, handler: CallbackId },
    ClientResponseReady { op: CallbackId, status: u16, headers: HeaderList },
    StreamData { op: CallbackId, chunk: Vec<u8> },
    StreamEnd { op: CallbackId },
    StreamError { op: CallbackId, error: String },
}

pub enum EnvelopeView {
    TimerFire(CallbackId),
    ReadOk(CallbackId, Seq<u8>),
    ReadErr(CallbackId, Seq<char>),
    WriteOk(CallbackId),
    WriteErr(CallbackId, Seq<char>),
    Accept(RequestView, ConnectionId, CallbackId),
    ClientResponseReady(CallbackId, u16, HeadersView),
    StreamData(CallbackId, Seq<u8>),
    StreamEnd(CallbackId),
    StreamError(CallbackId, Seq<char>),
}

impl View for Envelope {
    type V = EnvelopeView;

    open spec fn view(&self) -> EnvelopeView {
        match self {
            Envelope::TimerFire { op } => EnvelopeView::TimerFire(*op),
            Envelope::ReadOk { op, contents } => EnvelopeView::ReadOk(*op, contents@),
            Envelope::ReadErr { op, message } => EnvelopeView::ReadErr(*op, message@),
            Envelope::WriteOk { op } => EnvelopeView::WriteOk(*op),
            Envelope::WriteErr { op, message } => EnvelopeView::WriteErr(*op, message@),
            Envelope::Accept { request, connection, handler } => EnvelopeView::Accept(
                request@,
                *connection,
                *handler,
            ),
            Envelope::ClientResponseReady { op, status, headers } => EnvelopeView::ClientResponseReady(
                *op,
                *status,
                headers@,
            ),
            Envelope::StreamData { op, chunk } => EnvelopeView::StreamData(*op, chunk@),
            Envelope::StreamEnd { op } => EnvelopeView::StreamEnd(*op),
            Envelope::StreamError { op, error } => EnvelopeView::StreamError(*op, error@),
        }
    }
}

impl Envelope {
    pub open spec fn wf(&self) -> bool {
        match self {
            Envelope::Accept { request, .. } => request.wf(),
            Envelope::ClientResponseReady { headers, .. } => headers.wf(),
            _ => true,
        }
    }
}

/// A value handed to a script callback.
pub enum ScriptArg {
    Undefined,
    Null,
    Text(String),
    /// An incoming message: its number, status and headers.
    Message { id: CallbackId, status: u16, headers: HeaderList },
    Request(Request),
    Response { response: Response, connection: ConnectionId },
}

pub enum ArgView {
    Undefined,
    Null,
    Text(Seq<char>),
    Message(CallbackId, u16, HeadersView),
    Request(RequestView),
    Response(ResponseView, ConnectionId),
}

impl View for ScriptArg {
    type V = ArgView;

    open spec fn view(&self) -> ArgView {
        match self {
            ScriptArg::Undefined => ArgView::Undefined,
            ScriptArg::Null => ArgView::Null,
            ScriptArg::Text(t) => ArgView::Text(t@),
            ScriptArg::Message { id, status, headers } => ArgView::Message(*id, *status, headers@),
            ScriptArg::Request(r) => ArgView::Request(r@),
            ScriptArg::Response { response, connection } => ArgView::Response(response@, *connection),
        }
    }
}

/// A call of a script callback with arguments.
pub struct Invocation {
    pub callback: CallbackId,
    pub args: Vec<ScriptArg>,
}

pub type InvocationView = (CallbackId, Seq<ArgView>);

impl View for Invocation {
    type V = InvocationView;

    open spec fn view(&self) -> InvocationView {
        (self.callback, args_view(self.args@))
    }
}

/// What the event loop does with one envelope: the calls to make, in order,
/// the callbacks no longer needed, and an envelope to dispatch next, once
/// the calls have been made.
pub struct Dispatch {
    pub invocations: Vec<Invocation>,
    pub release: Vec<CallbackId>,
    pub follow_up: Option<Envelope>,
}

pub struct DispatchView {
    pub invocations: Seq<InvocationView>,
    pub release: Seq<CallbackId>,
    pub follow_up: Option<EnvelopeView>,
}

impl View for Dispatch {
    type V = DispatchView;

    open spec fn view(&self) -> DispatchView {
        DispatchView {
            invocations: invocations_view(self.invocations@),
            release: self.release@,
            follow_up: match self.follow_up {
                Some(e) => Some(e@),
                None => None,
            },
        }
    }
}

pub open spec fn data_event() -> Seq<char> {
    seq!['d', 'a', 't', 'a']
}

pub open spec fn end_event() -> Seq<char> {
    seq!['e', 'n', 'd']
}

pub open spec fn error_event() -> Seq<char> {
    seq!['e', 'r', 'r', 'o', 'r']
}

pub open spec fn nothing() -> DispatchView {
    DispatchView { invocations: Seq::empty(), release: Seq::empty(), follow_up: None }
}

/// One call of `cb`, released afterwards.
pub open spec fn call_once(cb: CallbackId, args: Seq<ArgView>) -> DispatchView {
    DispatchView { invocations: seq![(cb, args)], release: seq![cb], follow_up: None }
}

/// Each listener called with the same arguments, in registration order.
pub open spec fn call_each(ids: Seq<CallbackId>, args: Seq<ArgView>) -> Seq<InvocationView> {
    ids.map_values(|c: CallbackId| (c, args))
}

pub open spec fn slot_at(s: SlotsView, i: CallbackId) -> SlotView {
    if i < s.len() {
        s[i as int]
    } else {
        SlotView::Free
    }
}

pub open spec fn free_at(s: SlotsView, i: CallbackId) -> SlotsView {
    s.update(i as int, SlotView::Free)
}

/// Completes one-shot work of kind `k` on slot `op` with these arguments.
pub open spec fn complete_spec(s: SlotsView, op: CallbackId, k: OpKind, args: Seq<ArgView>) -> (SlotsView, DispatchView) {
    if slot_at(s, op) == SlotView::Waiting(k) {
        (free_at(s, op), call_once(op, args))
    } else {
        (s, nothing())
    }
}

/// A fetch whose stream ends before its response head: the callback still
/// gets an incoming message (status 0, no headers), and the end or the error
/// is dispatched again once the callback has registered its listeners.
pub open spec fn failed_before_head(s: SlotsView, op: CallbackId, error: Option<Seq<char>>) -> (SlotsView, DispatchView) {
    (
        s.update(op as int, SlotView::Streaming(Seq::empty())),
        DispatchView {
            invocations: seq![(op, seq![ArgView::Message(op, 0, Seq::empty())])],
            release: seq![op],
            follow_up: Some(end_envelope(op, error)),
        },
    )
}

/// What the event loop does with an envelope.
pub open spec fn dispatch_spec(s: SlotsView, e: EnvelopeView) -> (SlotsView, DispatchView) {
    match e {
        EnvelopeView::TimerFire(op) => {
            if slot_at(s, op) == SlotView::Waiting(OpKind::Interval) {
                (s, DispatchView { invocations: seq![(op, Seq::empty())], release: Seq::empty(), follow_up: None })
            } else {
                complete_spec(s, op, OpKind::Timeout, Seq::empty())
            }
        },
        EnvelopeView::ReadOk(op, contents) => complete_spec(
            s,
            op,
            OpKind::ReadFile,
            seq![ArgView::Null, ArgView::Text(lossy_text(contents))],
        ),
        EnvelopeView::ReadErr(op, m) => complete_spec(
            s,
            op,
            OpKind::ReadFile,
            seq![ArgView::Text(m), ArgView::Undefined],
        ),
        EnvelopeView::WriteOk(op) => complete_spec(s, op, OpKind::WriteFile, seq![ArgView::Null]),
        EnvelopeView::WriteErr(op, m) => complete_spec(s, op, OpKind::WriteFile, seq![ArgView::Text(m)]),
        EnvelopeView::Accept(req, conn, handler) => {
            if slot_at(s, handler) == SlotView::Handler {
                (
                    s,
                    DispatchView {
                        invocations: seq![
                            (
                                handler,
                                seq![
                                    ArgView::Request(req),
                                    ArgView::Response(
                                        ResponseView {
                                            status_code: 200,
                                            headers: Seq::empty(),
                                            body: Seq::empty(),
                                            finished: false,
                                        },
                                        conn,
                                    ),
                                ],
                            ),
                        ],
                        release: Seq::empty(),
                        follow_up: None,
                    },
                )
            } else {
                (s, nothing())
            }
        },
        EnvelopeView::ClientResponseReady(op, status, headers) => {
            if slot_at(s, op) == SlotView::Waiting(OpKind::Fetch) {
                (
                    s.update(op as int, SlotView::Streaming(Seq::empty())),
                    call_once(op, seq![ArgView::Message(op, status, headers)]),
                )
            } else {
                (s, nothing())
            }
        },
        EnvelopeView::StreamData(op, chunk) => match slot_at(s, op) {
            SlotView::Streaming(l) => (
                s,
                DispatchView {
                    invocations: call_each(listeners_of(l, data_event()), seq![ArgView::Text(lossy_text(chunk))]),
                    release: Seq::empty(),
                    follow_up: None,
                },
            ),
            _ => (s, nothing()),
        },
        EnvelopeView::StreamEnd(op) => match slot_at(s, op) {
            SlotView::Streaming(l) => (
                free_at(s, op),
                DispatchView {
                    invocations: call_each(listeners_of(l, end_event()), Seq::empty()),
                    release: flat_listeners(l),
                    follow_up: None,
                },
            ),
            SlotView::Waiting(OpKind::Fetch) => failed_before_head(s, op, None),
            _ => (s, nothing()),
        },
        EnvelopeView::StreamError(op, err) => match slot_at(s, op) {
            SlotView::Streaming(l) => (
                free_at(s, op),
                DispatchView {
                    invocations: call_each(listeners_of(l, error_event()), seq![ArgView::Text(err)]),
                    release: flat_listeners(l),
                    follow_up: None,
                },
            ),
            SlotView::Waiting(OpKind::Fetch) => failed_before_head(s, op, Some(err)),
            _ => (s, nothing()),
        },
    }
}

pub open spec fn text_args(t: Option<Seq<char>>) -> Seq<ArgView> {
    match t {
        Some(x) => seq![ArgView::Text(x)],
        None => Seq::empty(),
    }
}

pub open spec fn invocations_view(v: Seq<Invocation>) -> Seq<InvocationView> {
    v.map_values(|i: Invocation| i@)
}

pub open spec fn args_view(v: Seq<ScriptArg>) -> Seq<ArgView> {
    v.map_values(|a: ScriptArg| a@)
}

/// One call per listener, each with the text (if any) as its one argument.
fn call_listeners(ids: &Vec<CallbackId>, text: &Option<String>) -> (r: Vec<Invocation>)
    ensures
        invocations_view(r@) == call_each(ids@, text_args(opt_text(*text))),
{
    let ghost args = text_args(opt_text(*text));
    let mut out: Vec<Invocation> = Vec::new();
    let mut i: usize = 0;
    while i < ids.len()
        invariant
            i <= ids@.len(),
            args == text_args(opt_text(*text)),
            invocations_view(out@) == call_each(ids@.subrange(0, i as int), args),
        decreases ids@.len() - i,
    {
        let mut a: Vec<ScriptArg> = Vec::new();
        match text {
            Some(t) => {
                a.push(ScriptArg::Text(t.clone()));
            },
            None => {},
        }
        proof {
            assert(args_view(a@) =~= args);
        }
        let ghost before = out@;
        out.push(Invocation { callback: ids[i], args: a });
        proof {
            assert(out@ == before.push(Invocation { callback: ids@[i as int], args: a }));
            assert(invocations_view(out@) =~= invocations_view(before).push((ids@[i as int], args)));
            assert(ids@.subrange(0, i as int + 1).drop_last() =~= ids@.subrange(0, i as int));
            assert(call_each(ids@.subrange(0, i as int + 1), args) =~= call_each(ids@.subrange(0, i as int), args).push(
                (ids@[i as int], args),
            ));
        }
        i = i + 1;
    }
    proof {
        assert(ids@.subrange(0, ids@.len() as int) =~= ids@);
    }
    out
}

fn event_text(which: u8) -> (r: String)
    ensures
        which == 0 ==> r@ == data_event(),
        which == 1 ==> r@ == end_event(),
        which > 1 ==> r@ == error_event(),
{
    proof {
        reveal_strlit("data");
        reveal_strlit("end");
        reveal_strlit("error");
        assert("data"@ =~= data_event());
        assert("end"@ =~= end_event());
        assert("error"@ =~= error_event());
    }
    if which == 0 {
        String::from_str("data")
    } else if which == 1 {
        String::from_str("end")
    } else {
        String::from_str("error")
    }
}

pub open spec fn end_envelope(op: CallbackId, error: Option<Seq<char>>) -> EnvelopeView {
    match error {
        Some(t) => EnvelopeView::StreamError(op, t),
        None => EnvelopeView::StreamEnd(op),
    }
}

/// Work for the host to start; `op` names the slot its completion goes to.
pub enum Task {
    /// Sleep, then fire; with `repeat`, again after each interval.
    Sleep { op: CallbackId, delay_ms: u64, repeat: bool },
    ReadFile { op: CallbackId, path: String },
    WriteFile { op: CallbackId, path: String, bytes: Vec<u8> },
    /// Connect, write `bytes`, then read the response as a stream.
    Fetch { op: CallbackId, target: Target, bytes: Vec<u8> },
}

pub enum TaskView {
    Sleep(CallbackId, u64, bool),
    ReadFile(CallbackId, Seq<char>),
    WriteFile(CallbackId, Seq<char>, Seq<u8>),
    Fetch(CallbackId, TargetView, Seq<u8>),
}

impl View for Task {
    type V = TaskView;

    open spec fn view(&self) -> TaskView {
        match self {
            Task::Sleep { op, delay_ms, repeat } => TaskView::Sleep(*op, *delay_ms, *repeat),
            Task::ReadFile { op, path } => TaskView::ReadFile(*op, path@),
            Task::WriteFile { op, path, bytes } => TaskView::WriteFile(*op, path@, bytes@),
            Task::Fetch { op, target, bytes } => TaskView::Fetch(*op, (target.host@, target.port, target.path@), bytes@),
        }
    }
}

/// A request made by `http.request`: its slot, where it goes, and the
/// request the script fills in and ends.
pub struct ClientRequest {
    pub op: CallbackId,
    pub target: Target,
    pub request: Request,
}

#[derive(PartialEq, Eq, Structural, Clone, Copy, Debug)]
pub enum GetError {
    Url(UrlError),
    /// Every callback number is in use.
    NoRoom,
}

/// The bytes `http.get` writes for a target.
pub open spec fn get_bytes(t: TargetView) -> Seq<u8> {
    request_bytes(get_method(), t.2, base_headers(t.0), Seq::empty())
}

pub struct Runtime {
    slots: Vec<Slot>,
}

impl View for Runtime {
    type V = SlotsView;

    closed spec fn view(&self) -> SlotsView {
        self.slots@.map_values(|s: Slot| s@)
    }
}

impl Runtime {
    pub open spec fn wf(&self) -> bool {
        slots_wf(self@)
    }

    pub fn new() -> (r: Runtime)
        ensures
            r.wf(),
            r@ == Seq::<SlotView>::empty(),
    {
        Runtime { slots: Vec::new() }
    }

    pub fn slot_count(&self) -> (r: usize)
        ensures
            r == self@.len(),
    {
        self.slots.len()
    }

    /// Takes a fresh slot.
    fn mint(&mut self, slot: Slot) -> (id: CallbackId)
        requires
            old(self).wf(),
            old(self)@.len() < usize::MAX,
            slot is Waiting || slot is Handler || slot is Listener,
        ensures
            final(self).wf(),
            id == old(self)@.len(),
            final(self)@ == old(self)@.push(slot@),
    {
        let id = self.slots.len();
        self.slots.push(slot);
        proof {
            assert(self@ =~= old(self)@.push(slot@));
            let s = old(self)@;
            let t = self@;
            assert forall|i: int| 0 <= i < t.len() && #[trigger] t[i] is Streaming implies {
                let l = t[i]->Streaming_0;
                &&& events_unique(l)
                &&& forall|c: CallbackId| #[trigger]
                    all_listeners(l).contains(c) ==> c < t.len() && t[c as int] is Listener
            } by {
                assert(s[i] is Streaming);
                let l = t[i]->Streaming_0;
                assert forall|c: CallbackId| #[trigger] all_listeners(l).contains(c) implies c < t.len()
                    && t[c as int] is Listener by {
                    assert(s[c as int] is Listener);
                }
            }
        }
        id
    }

    fn waiting_task(&mut self, kind: OpKind) -> (op: Option<CallbackId>)
        requires
            old(self).wf(),
        ensures
            final(self).wf(),
            op is None <==> old(self)@.len() == usize::MAX,
            op is None ==> final(self)@ == old(self)@,
            op is Some ==> op->0 == old(self)@.len() && final(self)@ == old(self)@.push(SlotView::Waiting(kind)),
    {
        if self.slots.len() == usize::MAX {
            None
        } else {
            Some(self.mint(Slot::Waiting(kind)))
        }
    }

    /// `setTimeout`: a slot waiting for one timer firing, and the sleep to start.
    /// Nothing is called now: the callback runs only when the firing is dispatched.
    pub fn set_timeout(&mut self, delay_ms: u64) -> (r: Option<Task>)
        requires
            old(self).wf(),
        ensures
            final(self).wf(),
            r is None <==> old(self)@.len() == usize::MAX,
            r is None ==> final(self)@ == old(self)@,
            r is Some ==> final(self)@ == old(self)@.push(SlotView::Waiting(OpKind::Timeout)) && r->0@
                == TaskView::Sleep(old(self)@.len() as CallbackId, delay_ms, false),
    {
        match self.waiting_task(OpKind::Timeout) {
            Some(op) => Some(Task::Sleep { op, delay_ms, repeat: false }),
            None => None,
        }
    }

    /// `setInterval`: a slot fired after every interval, and the timer to start.
    pub fn set_interval(&mut self, delay_ms: u64) -> (r: Option<Task>)
        requires
            old(self).wf(),
        ensures
            final(self).wf(),
            r is None <==> old(self)@.len() == usize::MAX,
            r is None ==> final(self)@ == old(self)@,
            r is Some ==> final(self)@ == old(self)@.push(SlotView::Waiting(OpKind::Interval)) && r->0@
                == TaskView::Sleep(old(self)@.len() as CallbackId, delay_ms, true),
    {
        match self.waiting_task(OpKind::Interval) {
            Some(op) => Some(Task::Sleep { op, delay_ms, repeat: true }),
            None => None,
        }
    }

    /// `fs.readFile`: a slot waiting for the read, and the read to start.
    pub fn read_file(&mut self, path: String) -> (r: Option<Task>)
        requires
            old(self).wf(),
        ensures
            final(self).wf(),
            r is None <==> old(self)@.len() == usize::MAX,
            r is None ==> final(self)@ == old(self)@,
            r is Some ==> final(self)@ == old(self)@.push(SlotView::Waiting(OpKind::ReadFile)) && r->0@
                == TaskView::ReadFile(old(self)@.len() as CallbackId, path@),
    {
        match self.waiting_task(OpKind::ReadFile) {
            Some(op) => Some(Task::ReadFile { op, path }),
            None => None,
        }
    }

    /// `fs.writeFile`: a slot waiting for the write, and the write of the
    /// UTF-8 bytes of `data` to start.
    pub fn write_file(&mut self, path: String, data: &str) -> (r: Option<Task>)
        requires
            old(self).wf(),
        ensures
            final(self).wf(),
            r is None <==> old(self)@.len() == usize::MAX,
            r is None ==> final(self)@ == old(self)@,
            r is Some ==> final(self)@ == old(self)@.push(SlotView::Waiting(OpKind::WriteFile)) && r->0@
                == TaskView::WriteFile(old(self)@.len() as CallbackId, path@, encode_utf8(data@)),
    {
        match self.waiting_task(OpKind::WriteFile) {
            Some(op) => Some(Task::WriteFile { op, path, bytes: utf8_bytes(data) }),
            None => None,
        }
    }

    /// `http.get`: resolves the URL and, if it names a host, takes a slot
    /// waiting for the response and returns the fetch to start.
    pub fn http_get(&mut self, url: &str) -> (r: Result<Task, GetError>)
        requires
            old(self).wf(),
        ensures
            final(self).wf(),
            target_spec(url_parts_of(url@)) is Err ==> r == Err::<Task, GetError>(
                GetError::Url(target_spec(url_parts_of(url@))->Err_0),
            ) && final(self)@ == old(self)@,
            target_spec(url_parts_of(url@)) is Ok && old(self)@.len() == usize::MAX ==> r == Err::<
                Task,
                GetError,
            >(GetError::NoRoom) && final(self)@ == old(self)@,
            target_spec(url_parts_of(url@)) is Ok && old(self)@.len() < usize::MAX ==> r is Ok
                && final(self)@ == old(self)@.push(SlotView::Waiting(OpKind::Fetch)) && r->Ok_0@ == TaskView::Fetch(
                old(self)@.len() as CallbackId,
                target_spec(url_parts_of(url@))->Ok_0,
                get_bytes(target_spec(url_parts_of(url@))->Ok_0),
            ),
    {
        let target = match resolve_target(url) {
            Ok(t) => t,
            Err(e) => {
                return Err(GetError::Url(e));
            },
        };
        let mut req = get_request(&target);
        let bytes = match req.end(None) {
            Some(b) => b,
            None => Vec::new(),
        };
        match self.waiting_task(OpKind::Fetch) {
            Some(op) => Ok(Task::Fetch { op, target, bytes }),
            None => Err(GetError::NoRoom),
        }
    }

    /// `http.request`: a slot waiting for the response, the target, and the
    /// request the script fills in and ends.
    pub fn http_request(&mut self, options: RequestOptions) -> (r: Option<ClientRequest>)
        requires
            old(self).wf(),
            options.headers.wf(),
        ensures
            final(self).wf(),
            r is None <==> old(self)@.len() == usize::MAX,
            r is None ==> final(self)@ == old(self)@,
            r matches Some(c) ==> final(self)@ == old(self)@.push(SlotView::Waiting(OpKind::Fetch)) && c.op
                == old(self)@.len() && c.request.wf() && c.request@ == planned_request(options) && (
                c.target.host@,
                c.target.port,
                c.target.path@,
            ) == planned_target(options),
    {
        if self.slots.len() == usize::MAX {
            return None;
        }
        let (target, request) = plan_request(options);
        let op = self.mint(Slot::Waiting(OpKind::Fetch));
        Some(ClientRequest { op, target, request })
    }

    /// `http.createServer`: a slot for the request handler.
    pub fn create_server(&mut self) -> (r: Option<CallbackId>)
        requires
            old(self).wf(),
        ensures
            final(self).wf(),
            r is None <==> old(self)@.len() == usize::MAX,
            r is None ==> final(self)@ == old(self)@,
            r is Some ==> r->0 == old(self)@.len() && final(self)@ == old(self)@.push(SlotView::Handler),
    {
        if self.slots.len() == usize::MAX {
            None
        } else {
            Some(self.mint(Slot::Handler))
        }
    }

    /// `message.on(event, callback)`: while the message streams, a fresh
    /// listener slot registered for `event` after the ones already there.
    pub fn on(&mut self, message: CallbackId, event: String) -> (r: Option<CallbackId>)
        requires
            old(self).wf(),
        ensures
            final(self).wf(),
            r is None <==> !(slot_at(old(self)@, message) is Streaming) || old(self)@.len() == usize::MAX,
            r is None ==> final(self)@ == old(self)@,
            r is Some ==> r->0 == old(self)@.len() && final(self)@ == old(self)@.push(SlotView::Listener).update(
                message as int,
                SlotView::Streaming(
                    with_listener(slot_at(old(self)@, message)->Streaming_0, event@, r->0),
                ),
            ),
    {
        if self.slots.len() == usize::MAX || message >= self.slots.len() {
            return None;
        }
        proof {
            assert(self@[message as int] == self.slots@[message as int]@);
        }
        let streaming = match &self.slots[message] {
            Slot::Streaming(_) => true,
            _ => false,
        };
        if !streaming {
            return None;
        }
        let id = self.mint(Slot::Listener);
        let ghost mid = self@;
        let taken = self.take(message);
        match taken {
            Slot::Streaming(mut em) => {
                proof {
                    assert(mid[message as int] is Streaming);
                    assert(em.wf());
                    crate::emitter::lemma_with_listener(em@, event@, id, event@);
                }
                let ghost l0 = em@;
                em.on(event, id);
                proof {
                    let v = SlotView::Streaming(em@);
                    assert forall|c: CallbackId| #[trigger] all_listeners(em@).contains(c) implies c < mid.len()
                        && mid[c as int] is Listener by {
                        if c != id {
                            assert(all_listeners(l0).contains(c));
                        }
                    }
                    assert(stream_ok(mid, v));
                    lemma_set_keeps_wf(mid, message, v);
                    assert(self@ == free_at(mid, message));
                    assert(self.slots@.len() == self@.len());
                    assert(message < self.slots@.len());
                }
                let ghost l1 = em@;
                let ghost before = self.slots@;
                self.slots[message] = Slot::Streaming(em);
                proof {
                    assert(self.slots@ == before.update(message as int, Slot::Streaming(em)));
                    let want = mid.update(message as int, SlotView::Streaming(l1));
                    assert(self@.len() == want.len());
                    assert forall|i: int| 0 <= i < want.len() implies self@[i] == want[i] by {
                        if i != message as int {
                            assert(self.slots@[i] == before[i]);
                            assert(before.map_values(|s: Slot| s@)[i] == free_at(mid, message)[i]);
                        } else {
                            assert(self.slots@[i]@ == SlotView::Streaming(l1));
                        }
                    }
                    assert(self@ =~= want);
                }
                Some(id)
            },
            _ => {
                proof {
                    assert(false);
                }
                None
            },
        }
    }

    /// No work is outstanding: nothing waits, streams or serves. The event
    /// loop may stop.
    pub fn is_idle(&self) -> (r: bool)
        ensures
            r == forall|i: int| 0 <= i < self@.len() ==> !(#[trigger] self@[i] is Waiting || self@[i] is Streaming || self@[i] is Handler),
    {
        let mut i: usize = 0;
        while i < self.slots.len()
            invariant
                i <= self@.len(),
                forall|j: int| 0 <= j < i ==> !(#[trigger] self@[j] is Waiting || self@[j] is Streaming || self@[j] is Handler),
            decreases self@.len() - i,
        {
            proof {
                assert(self@[i as int] == self.slots@[i as int]@);
            }
            match &self.slots[i] {
                Slot::Waiting(_) | Slot::Streaming(_) | Slot::Handler => {
                    return false;
                },
                _ => {},
            }
            i = i + 1;
        }
        true
    }

    fn is_waiting(&self, op: CallbackId, k: OpKind) -> (r: bool)
        ensures
            r == (slot_at(self@, op) == SlotView::Waiting(k)),
    {
        if op < self.slots.len() {
            match &self.slots[op] {
                Slot::Waiting(k2) => *k2 == k,
                _ => false,
            }
        } else {
            false
        }
    }

    /// Empties slot `op` and hands back what it held.
    fn take(&mut self, op: CallbackId) -> (r: Slot)
        requires
            op < old(self)@.len(),
        ensures
            r@ == old(self)@[op as int],
            final(self)@ == free_at(old(self)@, op),
    {
        let mut taken = Slot::Free;
        std::mem::swap(&mut self.slots[op], &mut taken);
        proof {
            assert(self@ =~= free_at(old(self)@, op));
        }
        taken
    }

    /// Makes the calls one envelope asks for.
    pub fn dispatch(&mut self, e: Envelope) -> (d: Dispatch)
        requires
            old(self).wf(),
            e.wf(),
        ensures
            final(self).wf(),
            (final(self)@, d@) == dispatch_spec(old(self)@, e@),
    {
        match e {
            Envelope::TimerFire { op } => {
                if self.is_waiting(op, OpKind::Interval) {
                    let mut invocations: Vec<Invocation> = Vec::new();
                    invocations.push(Invocation { callback: op, args: Vec::new() });
                    let d = Dispatch { invocations, release: Vec::new(), follow_up: None };
                    proof {
                        assert(args_view(Seq::<ScriptArg>::empty()) =~= Seq::<ArgView>::empty());
                        assert(d@.invocations =~= seq![(op, Seq::<ArgView>::empty())]);
                    }
                    d
                } else {
                    let d = self.complete(op, OpKind::Timeout, Vec::new());
                    proof {
                        assert(args_view(Seq::<ScriptArg>::empty()) =~= Seq::<ArgView>::empty());
                    }
                    d
                }
            },
            Envelope::ReadOk { op, contents } => {
                let text = decode_lossy(contents.as_slice());
                let mut a: Vec<ScriptArg> = Vec::new();
                a.push(ScriptArg::Null);
                a.push(ScriptArg::Text(text));
                proof {
                    assert(args_view(a@) =~= seq![ArgView::Null, ArgView::Text(lossy_text(contents@))]);
                }
                self.complete(op, OpKind::ReadFile, a)
            },
            Envelope::ReadErr { op, message } => {
                let mut a: Vec<ScriptArg> = Vec::new();
                a.push(ScriptArg::Text(message));
                a.push(ScriptArg::Undefined);
                proof {
                    assert(args_view(a@) =~= seq![ArgView::Text(message@), ArgView::Undefined]);
                }
                self.complete(op, OpKind::ReadFile, a)
            },
            Envelope::WriteOk { op } => {
                let mut a: Vec<ScriptArg> = Vec::new();
                a.push(ScriptArg::Null);
                proof {
                    assert(args_view(a@) =~= seq![ArgView::Null]);
                }
                self.complete(op, OpKind::WriteFile, a)
            },
            Envelope::WriteErr { op, message } => {
                let mut a: Vec<ScriptArg> = Vec::new();
                a.push(ScriptArg::Text(message));
                proof {
                    assert(args_view(a@) =~= seq![ArgView::Text(message@)]);
                }
                self.complete(op, OpKind::WriteFile, a)
            },
            Envelope::Accept { request, connection, handler } => {
                proof {
                    if handler < self@.len() {
                        assert(self@[handler as int] == self.slots@[handler as int]@);
                    }
                }
                let is_handler = handler < self.slots.len() && match &self.slots[handler] {
                    Slot::Handler => true,
                    _ => false,
                };
                let mut invocations: Vec<Invocation> = Vec::new();
                if is_handler {
                    let response = Response::new(200, HeaderList::new(), String::new());
                    let mut a: Vec<ScriptArg> = Vec::new();
                    a.push(ScriptArg::Request(request));
                    a.push(ScriptArg::Response { response, connection });
                    proof {
                        assert(args_view(a@) =~= seq![
                            ArgView::Request(request@),
                            ArgView::Response(
                                ResponseView {
                                    status_code: 200,
                                    headers: Seq::empty(),
                                    body: Seq::empty(),
                                    finished: false,
                                },
                                connection,
                            ),
                        ]);
                    }
                    invocations.push(Invocation { callback: handler, args: a });
                }
                let d = Dispatch { invocations, release: Vec::new(), follow_up: None };
                proof {
                    assert(d@.invocations =~= (dispatch_spec(old(self)@, e@).1).invocations);
                    assert(d@.release =~= (dispatch_spec(old(self)@, e@).1).release);
                    assert(d@ == dispatch_spec(old(self)@, e@).1);
                }
                d
            },
            Envelope::ClientResponseReady { op, status, headers } => {
                if self.is_waiting(op, OpKind::Fetch) {
                    proof {
                        lemma_set_keeps_wf(self@, op, SlotView::Streaming(Seq::empty()));
                    }
                    self.slots[op] = Slot::Streaming(EventEmitter::new());
                    proof {
                        assert(self@ =~= old(self)@.update(op as int, SlotView::Streaming(Seq::empty())));
                    }
                    let mut a: Vec<ScriptArg> = Vec::new();
                    a.push(ScriptArg::Message { id: op, status, headers });
                    proof {
                        assert(args_view(a@) =~= seq![ArgView::Message(op, status, headers@)]);
                    }
                    let mut invocations: Vec<Invocation> = Vec::new();
                    invocations.push(Invocation { callback: op, args: a });
                    let mut release: Vec<CallbackId> = Vec::new();
                    release.push(op);
                    let d = Dispatch { invocations, release, follow_up: None };
                    proof {
                        assert(d@.invocations =~= (dispatch_spec(old(self)@, e@).1).invocations);
                    assert(d@.release =~= (dispatch_spec(old(self)@, e@).1).release);
                    assert(d@ == dispatch_spec(old(self)@, e@).1);
                    }
                    d
                } else {
                    let d = Dispatch { invocations: Vec::new(), release: Vec::new(), follow_up: None };
                    proof {
                        assert(d@.invocations =~= nothing().invocations);
                assert(d@.release =~= nothing().release);
                    }
                    d
                }
            },
            Envelope::StreamData { op, chunk } => {
                let mut invocations: Vec<Invocation> = Vec::new();
                if op < self.slots.len() {
                    proof {
                        assert(self@[op as int] == self.slots@[op as int]@);
                    }
                    match &self.slots[op] {
                        Slot::Streaming(em) => {
                            proof {
                                assert(self@[op as int] is Streaming);
                            }
                            let ids = em.emit(&event_text(0));
                            let text = Some(decode_lossy(chunk.as_slice()));
                            invocations = call_listeners(&ids, &text);
                        },
                        _ => {},
                    }
                }
                let d = Dispatch { invocations, release: Vec::new(), follow_up: None };
                proof {
                    assert(d@.invocations =~= (dispatch_spec(old(self)@, e@).1).invocations);
                    assert(d@.release =~= (dispatch_spec(old(self)@, e@).1).release);
                    assert(d@ == dispatch_spec(old(self)@, e@).1);
                }
                d
            },
            Envelope::StreamEnd { op } => self.finish_stream(op, None),
            Envelope::StreamError { op, error } => self.finish_stream(op, Some(error)),
        }
    }

    /// Ends the stream of slot `op`: cleanly, or with `error`.
    fn finish_stream(&mut self, op: CallbackId, error: Option<String>) -> (d: Dispatch)
        requires
            old(self).wf(),
        ensures
            final(self).wf(),
            (final(self)@, d@) == dispatch_spec(old(self)@, end_envelope(op, opt_text(error))),
    {
        let ghost ev = end_envelope(op, opt_text(error));
        proof {
            if op < self@.len() {
                assert(self@[op as int] == self.slots@[op as int]@);
            }
        }
        let ends = op < self.slots.len() && match &self.slots[op] {
            Slot::Streaming(_) => true,
            Slot::Waiting(k) => *k == OpKind::Fetch,
            _ => false,
        };
        if !ends {
            let d = Dispatch { invocations: Vec::new(), release: Vec::new(), follow_up: None };
            proof {
                assert(d@.invocations =~= nothing().invocations);
                assert(d@.release =~= nothing().release);
            }
            return d;
        }
        let waiting = self.is_waiting(op, OpKind::Fetch);
        if waiting {
            proof {
                lemma_set_keeps_wf(self@, op, SlotView::Streaming(Seq::empty()));
            }
            self.slots[op] = Slot::Streaming(EventEmitter::new());
            proof {
                assert(self@ =~= old(self)@.update(op as int, SlotView::Streaming(Seq::empty())));
            }
            let mut a: Vec<ScriptArg> = Vec::new();
            a.push(ScriptArg::Message { id: op, status: 0, headers: HeaderList::new() });
            proof {
                assert(args_view(a@) =~= seq![ArgView::Message(op, 0, Seq::empty())]);
            }
            let mut invocations: Vec<Invocation> = Vec::new();
            invocations.push(Invocation { callback: op, args: a });
            let mut release: Vec<CallbackId> = Vec::new();
            release.push(op);
            let follow_up = match error {
                Some(e) => Envelope::StreamError { op, error: e },
                None => Envelope::StreamEnd { op },
            };
            let d = Dispatch { invocations, release, follow_up: Some(follow_up) };
            proof {
                assert(d@.invocations =~= (dispatch_spec(old(self)@, ev).1).invocations);
                assert(d@.release =~= (dispatch_spec(old(self)@, ev).1).release);
                assert(d@ == dispatch_spec(old(self)@, ev).1);
            }
            return d;
        }
        let taken = self.take(op);
        proof {
            lemma_free_keeps_wf(old(self)@, op);
        }
        match taken {
            Slot::Streaming(em) => {
                proof {
                    assert(old(self)@[op as int] is Streaming);
                    assert(em.wf());
                }
                let which: u8 = if error.is_some() {
                    2
                } else {
                    1
                };
                let ids = em.emit(&event_text(which));
                let invocations = call_listeners(&ids, &error);
                let release = em.all();
                let d = Dispatch { invocations, release, follow_up: None };
                proof {
                    assert(d@.invocations =~= (dispatch_spec(old(self)@, ev).1).invocations);
                    assert(d@.release =~= (dispatch_spec(old(self)@, ev).1).release);
                    assert(d@ == dispatch_spec(old(self)@, ev).1);
                }
                d
            },
            _ => {
                proof {
                    assert(false);
                }
                Dispatch { invocations: Vec::new(), release: Vec::new(), follow_up: None }
            },
        }
    }

    fn complete(&mut self, op: CallbackId, k: OpKind, args: Vec<ScriptArg>) -> (d: Dispatch)
        requires
            old(self).wf(),
            k != OpKind::Interval,
        ensures
            final(self).wf(),
            (final(self)@, d@) == complete_spec(old(self)@, op, k, args_view(args@)),
    {
        if self.is_waiting(op, k) {
            let _ = self.take(op);
            proof {
                lemma_free_keeps_wf(old(self)@, op);
            }
            let mut release: Vec<CallbackId> = Vec::new();
            release.push(op);
            let mut invocations: Vec<Invocation> = Vec::new();
            invocations.push(Invocation { callback: op, args });
            let d = Dispatch { invocations, release, follow_up: None };
            proof {
                assert(d@.invocations =~= seq![(op, args_view(args@))]);
                assert(d@.release =~= seq![op]);
            }
            d
        } else {
            let d = Dispatch { invocations: Vec::new(), release: Vec::new(), follow_up: None };
            proof {
                assert(d@.invocations =~= Seq::<InvocationView>::empty());
            }
            d
        }
    }
}

/// A stream slot whose listeners are listener slots of `s`.
pub open spec fn stream_ok(s: SlotsView, v: SlotView) -> bool {
    v is Streaming ==> {
        let l = v->Streaming_0;
        &&& events_unique(l)
        &&& forall|c: CallbackId| #[trigger]
            all_listeners(l).contains(c) ==> c < s.len() && s[c as int] is Listener
    }
}

/// Emptying a slot that is not a listener keeps the runtime well formed.
proof fn lemma_free_keeps_wf(s: SlotsView, op: CallbackId)
    requires
        slots_wf(s),
        op < s.len(),
        !(s[op as int] is Listener),
    ensures
        slots_wf(free_at(s, op)),
{
    lemma_set_keeps_wf(s, op, SlotView::Free);
}

/// Putting a slot that is neither a listener nor a stream with listeners
/// elsewhere in place of a slot that is not a listener keeps the runtime well formed.
proof fn lemma_set_keeps_wf(s: SlotsView, op: CallbackId, v: SlotView)
    requires
        slots_wf(s),
        op < s.len(),
        !(s[op as int] is Listener),
        !(v is Listener),
        stream_ok(s, v),
    ensures
        slots_wf(s.update(op as int, v)),
{
    let t = s.update(op as int, v);
    assert forall|i: int| 0 <= i < t.len() && #[trigger] t[i] is Streaming implies {
        let l = t[i]->Streaming_0;
        &&& events_unique(l)
        &&& forall|c: CallbackId| #[trigger] all_listeners(l).contains(c) ==> c < t.len() && t[c as int] is Listener
    } by {
        let l = t[i]->Streaming_0;
        if i != op {
            assert(s[i] is Streaming);
        }
        assert forall|c: CallbackId| #[trigger] all_listeners(l).contains(c) implies c < t.len()
            && t[c as int] is Listener by {
            assert(s[c as int] is Listener);
        }
    }
}

/// The host's address for `server.listen(port, host)`: port 8000 and host
/// 127.0.0.1 where not given.
pub fn listen_address(port: Option<u16>, host: Option<String>) -> (r: (String, u16))
    ensures
        r.1 == match port {
            Some(p) => p,
            None => 8000,
        },
        r.0@ == match host {
            Some(h) => h@,
            None => seq!['1', '2', '7', '.', '0', '.', '0', '.', '1'],
        },
{
    proof {
        reveal_strlit("127.0.0.1");
        assert("127.0.0.1"@ =~= seq!['1', '2', '7', '.', '0', '.', '0', '.', '1']);
    }
    let p: u16 = match port {
        Some(p) => p,
        None => 8000,
    };
    let h = match host {
        Some(h) => h,
        None => String::from_str("127.0.0.1"),
    };
    (h, p)
}

/// The envelope a timer sends each time it fires.
pub fn timer_fired(op: CallbackId) -> (r: Envelope)
    ensures
        r@ == EnvelopeView::TimerFire(op),
{
    Envelope::TimerFire { op }
}

/// The one envelope a file read sends: its contents, or its error.
pub fn read_finished(op: CallbackId, result: Result<Vec<u8>, String>) -> (r: Envelope)
    ensures
        r.wf(),
        result is Ok ==> r@ == EnvelopeView::ReadOk(op, result->Ok_0@),
        result is Err ==> r@ == EnvelopeView::ReadErr(op, result->Err_0@),
{
    match result {
        Ok(contents) => Envelope::ReadOk { op, contents },
        Err(message) => Envelope::ReadErr { op, message },
    }
}

/// The one envelope a file write sends: done, or its error.
pub fn write_finished(op: CallbackId, result: Result<(), String>) -> (r: Envelope)
    ensures
        r.wf(),
        result is Ok ==> r@ == EnvelopeView::WriteOk(op),
        result is Err ==> r@ == EnvelopeView::WriteErr(op, result->Err_0@),
{
    match result {
        Ok(()) => Envelope::WriteOk { op },
        Err(message) => Envelope::WriteErr { op, message },
    }
}

/// The text of a stream failure, as the script's "error" listeners get it.
pub open spec fn failure_message(f: StreamFailure) -> Seq<char> {
    match f {
        StreamFailure::Io(e) => e@,
        StreamFailure::BadHead => "invalid HTTP response head"@,
        StreamFailure::ClosedEarly => "connection closed before the response head"@,
    }
}

/// The text of a stream failure.
pub fn failure_text(f: StreamFailure) -> (r: String)
    ensures
        r@ == failure_message(f),
{
    match f {
        StreamFailure::Io(e) => e,
        StreamFailure::BadHead => String::from_str("invalid HTTP response head"),
        StreamFailure::ClosedEarly => String::from_str("connection closed before the response head"),
    }
}

/// The envelope that carries a step of the response stream of slot `op`.
pub fn stream_envelope(op: CallbackId, step: StreamStep) -> (r: Envelope)
    requires
        step matches StreamStep::Ready { headers, .. } ==> headers.wf(),
    ensures
        r.wf(),
        step matches StreamStep::Ready { status, headers } ==> r@ == EnvelopeView::ClientResponseReady(
            op,
            status,
            headers@,
        ),
        step matches StreamStep::Data(b) ==> r@ == EnvelopeView::StreamData(op, b@),
        step is End ==> r@ == EnvelopeView::StreamEnd(op),
        step matches StreamStep::Error(f) ==> r@ == EnvelopeView::StreamError(op, failure_message(f)),
{
    match step {
        StreamStep::Ready { status, headers } => Envelope::ClientResponseReady { op, status, headers },
        StreamStep::Data(chunk) => Envelope::StreamData { op, chunk },
        StreamStep::End => Envelope::StreamEnd { op },
        StreamStep::Error(f) => Envelope::StreamError { op, error: failure_text(f) },
    }
}

/// How many of the calls go to `cb`.
pub open spec fn count_calls(invs: Seq<InvocationView>, cb: CallbackId) -> nat
    decreases invs.len(),
{
    if invs.len() == 0 {
        0
    } else {
        count_calls(invs.drop_last(), cb) + if invs.last().0 == cb {
            1nat
        } else {
            0nat
        }
    }
}

/// The event loop run over a sequence of envelopes: the slots after, and every call made.
pub open spec fn run_envelopes(s: SlotsView, es: Seq<EnvelopeView>) -> (SlotsView, Seq<InvocationView>)
    decreases es.len(),
{
    if es.len() == 0 {
        (s, Seq::empty())
    } else {
        let (s1, d) = dispatch_spec(s, es[0]);
        let (s2, rest) = run_envelopes(s1, es.drop_first());
        (s2, d.invocations + rest)
    }
}

/// A callback number that nothing can call any more.
pub open spec fn dead(s: SlotsView, cb: CallbackId) -> bool {
    !(slot_at(s, cb) is Waiting || slot_at(s, cb) is Handler || slot_at(s, cb) is Listener)
}

proof fn lemma_count_concat(a: Seq<InvocationView>, b: Seq<InvocationView>, cb: CallbackId)
    ensures
        count_calls(a + b, cb) == count_calls(a, cb) + count_calls(b, cb),
    decreases b.len(),
{
    if b.len() == 0 {
        assert(a + b =~= a);
    } else {
        lemma_count_concat(a, b.drop_last(), cb);
        assert((a + b).drop_last() =~= a + b.drop_last());
    }
}

proof fn lemma_count_each(ids: Seq<CallbackId>, args: Seq<ArgView>, cb: CallbackId)
    ensures
        !ids.contains(cb) ==> count_calls(call_each(ids, args), cb) == 0,
        ids.contains(cb) ==> count_calls(call_each(ids, args), cb) >= 1,
    decreases ids.len(),
{
    if ids.len() > 0 {
        lemma_count_each(ids.drop_last(), args, cb);
        assert(call_each(ids, args).drop_last() =~= call_each(ids.drop_last(), args));
        if ids.contains(cb) && ids.last() != cb {
            let j = choose|j: int| 0 <= j < ids.len() && ids[j] == cb;
            assert(ids.drop_last()[j] == cb);
        }
        if !ids.contains(cb) {
            assert forall|j: int| 0 <= j < ids.drop_last().len() implies ids.drop_last()[j] != cb by {
                assert(ids[j] != cb);
            }
        }
        if ids.last() == cb {
            assert(ids[ids.len() - 1] == cb);
        }
    }
}

proof fn lemma_listeners_registered(l: ListenersView, e: Seq<char>, cb: CallbackId)
    requires
        listeners_of(l, e).contains(cb),
    ensures
        all_listeners(l).contains(cb),
{
    let p = crate::emitter::event_pos(l, e);
    let j = choose|j: int| 0 <= j < listeners_of(l, e).len() && listeners_of(l, e)[j] == cb;
    assert(l[p].1[j] == cb);
}

proof fn lemma_stream_end_wf(s: SlotsView, op: CallbackId)
    requires
        slots_wf(s),
    ensures
        slot_at(s, op) is Streaming ==> slots_wf(free_at(s, op)),
        slot_at(s, op) == SlotView::Waiting(OpKind::Fetch) ==> slots_wf(
            s.update(op as int, SlotView::Streaming(Seq::empty())),
        ),
{
    if slot_at(s, op) is Streaming {
        lemma_free_keeps_wf(s, op);
    }
    if slot_at(s, op) == SlotView::Waiting(OpKind::Fetch) {
        assert forall|c: CallbackId| #[trigger] all_listeners(Seq::empty()).contains(c) implies false by {}
        lemma_set_keeps_wf(s, op, SlotView::Streaming(Seq::empty()));
    }
}

/// Every envelope keeps the runtime well formed.
pub proof fn lemma_dispatch_wf(s: SlotsView, e: EnvelopeView)
    requires
        slots_wf(s),
    ensures
        slots_wf(dispatch_spec(s, e).0),
{
    match e {
        EnvelopeView::ClientResponseReady(op, _, _) => {
            if slot_at(s, op) == SlotView::Waiting(OpKind::Fetch) {
                let v = SlotView::Streaming(Seq::empty());
                assert forall|c: CallbackId| #[trigger] all_listeners(Seq::empty()).contains(c) implies false by {}
                lemma_set_keeps_wf(s, op, v);
            }
        },
        EnvelopeView::StreamEnd(op) => {
            lemma_stream_end_wf(s, op);
        },
        EnvelopeView::StreamError(op, _) => {
            lemma_stream_end_wf(s, op);
        },
        EnvelopeView::TimerFire(op) => {
            if slot_at(s, op) == SlotView::Waiting(OpKind::Timeout) {
                lemma_free_keeps_wf(s, op);
            }
        },
        EnvelopeView::ReadOk(op, _) => {
            if slot_at(s, op) == SlotView::Waiting(OpKind::ReadFile) {
                lemma_free_keeps_wf(s, op);
            }
        },
        EnvelopeView::ReadErr(op, _) => {
            if slot_at(s, op) == SlotView::Waiting(OpKind::ReadFile) {
                lemma_free_keeps_wf(s, op);
            }
        },
        EnvelopeView::WriteOk(op) => {
            if slot_at(s, op) == SlotView::Waiting(OpKind::WriteFile) {
                lemma_free_keeps_wf(s, op);
            }
        },
        EnvelopeView::WriteErr(op, _) => {
            if slot_at(s, op) == SlotView::Waiting(OpKind::WriteFile) {
                lemma_free_keeps_wf(s, op);
            }
        },
        _ => {},
    }
}

/// One envelope: the callbacks it calls are waiting slots, handlers or the
/// listeners of a stream; and it turns no slot into one of those.
proof fn lemma_dispatch_calls(s: SlotsView, e: EnvelopeView, cb: CallbackId)
    requires
        slots_wf(s),
    ensures
        ({
            let (s1, d) = dispatch_spec(s, e);
            &&& dead(s, cb) ==> count_calls(d.invocations, cb) == 0 && dead(s1, cb)
            &&& (slot_at(s, cb) matches SlotView::Waiting(k) && one_shot(k)) ==> count_calls(d.invocations, cb)
                <= 1 && (count_calls(d.invocations, cb) == 1 ==> dead(s1, cb)) && (slot_at(s1, cb) == slot_at(
                s,
                cb,
            ) || dead(s1, cb))
        }),
{
    let (s1, d) = dispatch_spec(s, e);
    reveal_with_fuel(count_calls, 2);
    match e {
        EnvelopeView::StreamData(op, chunk) => {
            if let SlotView::Streaming(l) = slot_at(s, op) {
                let ids = listeners_of(l, data_event());
                lemma_count_each(ids, seq![ArgView::Text(lossy_text(chunk))], cb);
                if ids.contains(cb) {
                    lemma_listeners_registered(l, data_event(), cb);
                    assert(s[op as int] is Streaming);
                }
            }
        },
        EnvelopeView::StreamEnd(op) => {
            if let SlotView::Streaming(l) = slot_at(s, op) {
                let ids = listeners_of(l, end_event());
                lemma_count_each(ids, Seq::empty(), cb);
                if ids.contains(cb) {
                    lemma_listeners_registered(l, end_event(), cb);
                    assert(s[op as int] is Streaming);
                }
            }
        },
        EnvelopeView::StreamError(op, err) => {
            if let SlotView::Streaming(l) = slot_at(s, op) {
                let ids = listeners_of(l, error_event());
                lemma_count_each(ids, seq![ArgView::Text(err)], cb);
                if ids.contains(cb) {
                    lemma_listeners_registered(l, error_event(), cb);
                    assert(s[op as int] is Streaming);
                }
            }
        },
        _ => {},
    }
}

proof fn lemma_dead_never_called(s: SlotsView, es: Seq<EnvelopeView>, cb: CallbackId)
    requires
        slots_wf(s),
        dead(s, cb),
    ensures
        count_calls(run_envelopes(s, es).1, cb) == 0,
    decreases es.len(),
{
    if es.len() > 0 {
        let (s1, d) = dispatch_spec(s, es[0]);
        lemma_dispatch_wf(s, es[0]);
        lemma_dispatch_calls(s, es[0], cb);
        lemma_dead_never_called(s1, es.drop_first(), cb);
        lemma_count_concat(d.invocations, run_envelopes(s1, es.drop_first()).1, cb);
    }
}

/// A callback handed to a one-shot binding (a timeout, a file read or write,
/// a single HTTP response) is called at most once, whatever envelopes come back.
pub proof fn lemma_one_shot_called_at_most_once(s: SlotsView, es: Seq<EnvelopeView>, cb: CallbackId)
    requires
        slots_wf(s),
        slot_at(s, cb) matches SlotView::Waiting(k) && one_shot(k),
    ensures
        count_calls(run_envelopes(s, es).1, cb) <= 1,
    decreases es.len(),
{
    if es.len() > 0 {
        let (s1, d) = dispatch_spec(s, es[0]);
        let rest = run_envelopes(s1, es.drop_first()).1;
        lemma_dispatch_wf(s, es[0]);
        lemma_dispatch_calls(s, es[0], cb);
        lemma_count_concat(d.invocations, rest, cb);
        if dead(s1, cb) {
            lemma_dead_never_called(s1, es.drop_first(), cb);
        } else {
            lemma_one_shot_called_at_most_once(s1, es.drop_first(), cb);
        }
    }
}

/// Every listener registered for "data" is called for each chunk of its stream.
pub proof fn lemma_listener_called_per_chunk(s: SlotsView, op: CallbackId, chunk: Seq<u8>, cb: CallbackId)
    requires
        slot_at(s, op) is Streaming,
        listeners_of(slot_at(s, op)->Streaming_0, data_event()).contains(cb),
    ensures
        count_calls(dispatch_spec(s, EnvelopeView::StreamData(op, chunk)).1.invocations, cb) >= 1,
{
    lemma_count_each(
        listeners_of(slot_at(s, op)->Streaming_0, data_event()),
        seq![ArgView::Text(lossy_text(chunk))],
        cb,
    );
}

/// Once a stream has ended or failed, its slot is empty: no later chunk,
/// end or error of that stream calls anything.
pub proof fn lemma_nothing_after_stream_end(
    s: SlotsView,
    op: CallbackId,
    error: Option<Seq<char>>,
    later: EnvelopeView,
)
    requires
        slot_at(s, op) is Streaming,
        later is StreamData || later is StreamEnd || later is StreamError,
        later matches EnvelopeView::StreamData(o, _) ==> o == op,
        later matches EnvelopeView::StreamEnd(o) ==> o == op,
        later matches EnvelopeView::StreamError(o, _) ==> o == op,
    ensures
        slot_at(dispatch_spec(s, end_envelope(op, error)).0, op) == SlotView::Free,
        dispatch_spec(dispatch_spec(s, end_envelope(op, error)).0, later).1.invocations.len() == 0,
{
}

/// Adding a slot that is not a stream keeps the runtime well formed.
pub proof fn lemma_push_keeps_wf(s: SlotsView, v: SlotView)
    requires
        slots_wf(s),
        !(v is Streaming),
    ensures
        slots_wf(s.push(v)),
{
    let t = s.push(v);
    assert forall|i: int| 0 <= i < t.len() && #[trigger] t[i] is Streaming implies {
        let l = t[i]->Streaming_0;
        &&& events_unique(l)
        &&& forall|c: CallbackId| #[trigger] all_listeners(l).contains(c) ==> c < t.len() && t[c as int] is Listener
    } by {
        assert(s[i] is Streaming);
        let l = t[i]->Streaming_0;
        assert forall|c: CallbackId| #[trigger] all_listeners(l).contains(c) implies c < t.len()
            && t[c as int] is Listener by {
            assert(s[c as int] is Listener);
        }
    }
}

/// The response callback of `http.get` (the slot `http_get` adds) is called
/// at most once, whatever envelopes come back.
pub proof fn lemma_get_callback_at_most_once(s: SlotsView, es: Seq<EnvelopeView>)
    requires
        slots_wf(s),
        s.len() < usize::MAX,
    ensures
        count_calls(run_envelopes(s.push(SlotView::Waiting(OpKind::Fetch)), es).1, s.len() as CallbackId) <= 1,
{
    lemma_push_keeps_wf(s, SlotView::Waiting(OpKind::Fetch));
    assert(slot_at(s.push(SlotView::Waiting(OpKind::Fetch)), s.len() as CallbackId) == SlotView::Waiting(
        OpKind::Fetch,
    ));
    lemma_one_shot_called_at_most_once(s.push(SlotView::Waiting(OpKind::Fetch)), es, s.len() as CallbackId);
}

/// A fetch that fails before its response head (no connection, a failed
/// write, a bad head, a close) still reaches the script: its callback gets an
/// incoming message, and the error, dispatched again after the callback, goes
/// to the "error" listener the callback registered.
pub proof fn lemma_fetch_failure_reaches_script(s: SlotsView, op: CallbackId, err: Seq<char>)
    requires
        slots_wf(s),
        s.len() < usize::MAX,
        slot_at(s, op) == SlotView::Waiting(OpKind::Fetch),
    ensures
        ({
            let (s1, d1) = dispatch_spec(s, EnvelopeView::StreamError(op, err));
            let listener = s1.len() as CallbackId;
            let s2 = s1.push(SlotView::Listener).update(
                op as int,
                SlotView::Streaming(with_listener(Seq::empty(), error_event(), listener)),
            );
            &&& d1.invocations == seq![(op, seq![ArgView::Message(op, 0, Seq::empty())])]
            &&& d1.follow_up == Some(EnvelopeView::StreamError(op, err))
            &&& s1.len() == s.len()
            &&& slot_at(s1, op) == SlotView::Streaming(Seq::empty())
            &&& dispatch_spec(s2, EnvelopeView::StreamError(op, err)).1.invocations == seq![
                (listener, seq![ArgView::Text(err)]),
            ]
        }),
{
    let (s1, d1) = dispatch_spec(s, EnvelopeView::StreamError(op, err));
    let listener = s1.len() as CallbackId;
    let l = with_listener(Seq::empty(), error_event(), listener);
    crate::emitter::lemma_with_listener(Seq::empty(), error_event(), listener, error_event());
    assert(listeners_of(Seq::empty(), error_event()) =~= Seq::<CallbackId>::empty());
    assert(listeners_of(l, error_event()) =~= seq![listener]);
    assert(call_each(seq![listener], seq![ArgView::Text(err)]) =~= seq![(listener, seq![ArgView::Text(err)])]);
}

/// A file read, written back and read again gives the same text; and a file
/// that holds UTF-8 is written back byte for byte.
pub proof fn lemma_read_write_read(contents: Seq<u8>)
    ensures
        lossy_text(encode_utf8(lossy_text(contents))) == lossy_text(contents),
        valid_utf8(contents) ==> encode_utf8(lossy_text(contents)) == contents,
{
    let t = lossy_text(contents);
    vstd::utf8::encode_utf8_valid_utf8(t);
    vstd::utf8::encode_utf8_decode_utf8(t);
    if valid_utf8(contents) {
        vstd::utf8::decode_utf8_encode_utf8(contents);
    }
}

} // verus!
