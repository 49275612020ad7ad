//! The listener table of an incoming message: event names mapped to the
//! callbacks registered for them, in registration order.

use vstd::prelude::*;

verus! {

/// A script callback, named by the number the runtime gave it.
pub type CallbackId = usize;

pub type ListenersView = Seq<(Seq<char>, Seq<CallbackId>)>;

pub open spec fn events_unique(l: ListenersView) -> bool {
    forall|i: int, j: int| 0 <= i < l.len() && 0 <= j < l.len() && i != j ==> #[trigger] l[i].0 != #[trigger] l[j].0
}

pub open spec fn has_event(l: ListenersView, e: Seq<char>) -> bool {
    exists|i: int| 0 <= i < l.len() && #[trigger] l[i].0 == e
}

pub open spec fn event_pos(l: ListenersView, e: Seq<char>) -> int {
    choose|i: int| 0 <= i < l.len() && #[trigger] l[i].0 == e
}

/// The callbacks registered for `e`, in registration order.
pub open spec fn listeners_of(l: ListenersView, e: Seq<char>) -> Seq<CallbackId> {
    if has_event(l, e) {
        l[event_pos(l, e)].1
    } else {
        Seq::empty()
    }
}

/// The table after registering `cb` for `e`: it goes after the ones already there.
pub open spec fn with_listener(l: ListenersView, e: Seq<char>, cb: CallbackId) -> ListenersView {
    if has_event(l, e) {
        l.update(event_pos(l, e), (e, l[event_pos(l, e)].1.push(cb)))
    } else {
        l.push((e, seq![cb]))
    }
}

/// Every callback in the table.
pub open spec fn all_listeners(l: ListenersView) -> Set<CallbackId> {
    Set::new(|c: CallbackId| exists|i: int, j: int| 0 <= i < l.len() && 0 <= j < l[i].1.len() && #[trigger] l[i].1[j] == c)
}

proof fn lemma_event_pos(l: ListenersView, e: Seq<char>, i: int)
    requires
        events_unique(l),
        0 <= i < l.len(),
        l[i].0 == e,
    ensures
        has_event(l, e),
        event_pos(l, e) == i,
{
    assert(has_event(l, e));
}

/// Registering for one event leaves the others' lists as they were and
/// appends to that event's list.
pub proof fn lemma_with_listener(l: ListenersView, e: Seq<char>, cb: CallbackId, other: Seq<char>)
    requires
        events_unique(l),
    ensures
        events_unique(with_listener(l, e, cb)),
        listeners_of(with_listener(l, e, cb), e) == listeners_of(l, e).push(cb),
        other != e ==> listeners_of(with_listener(l, e, cb), other) == listeners_of(l, other),
        all_listeners(with_listener(l, e, cb)) == all_listeners(l).insert(cb),
{
    let r = with_listener(l, e, cb);
    if has_event(l, e) {
        let p = event_pos(l, e);
        lemma_event_pos(r, e, p);
        if has_event(l, other) && other != e {
            let q = event_pos(l, other);
            lemma_event_pos(r, other, q);
        }
        if has_event(r, other) && other != e {
            let q = event_pos(r, other);
            assert(l[q].0 == other);
        }
        assert forall|c: CallbackId| all_listeners(r).contains(c) <==> all_listeners(l).insert(cb).contains(c) by {
            if all_listeners(r).contains(c) {
                let (i, j) = choose|i: int, j: int| 0 <= i < r.len() && 0 <= j < r[i].1.len() && #[trigger] r[i].1[j] == c;
                if i == p && j == l[p].1.len() {
                } else {
                    assert(l[i].1[j] == c);
                }
            }
            if all_listeners(l).contains(c) {
                let (i, j) = choose|i: int, j: int| 0 <= i < l.len() && 0 <= j < l[i].1.len() && #[trigger] l[i].1[j] == c;
                assert(r[i].1[j] == c);
            }
            if c == cb {
                assert(r[p].1[l[p].1.len() as int] == c);
            }
        }
        assert(all_listeners(r) =~= all_listeners(l).insert(cb));
    } else {
        let p = l.len() as int;
        lemma_event_pos(r, e, p);
        if has_event(l, other) && other != e {
            let q = event_pos(l, other);
            lemma_event_pos(r, other, q);
        }
        if has_event(r, other) && other != e {
            let q = event_pos(r, other);
            assert(q != p);
            assert(l[q].0 == other);
        }
        assert forall|c: CallbackId| all_listeners(r).contains(c) <==> all_listeners(l).insert(cb).contains(c) by {
            if all_listeners(r).contains(c) {
                let (i, j) = choose|i: int, j: int| 0 <= i < r.len() && 0 <= j < r[i].1.len() && #[trigger] r[i].1[j] == c;
                if i != p {
                    assert(l[i].1[j] == c);
                }
            }
            if all_listeners(l).contains(c) {
                let (i, j) = choose|i: int, j: int| 0 <= i < l.len() && 0 <= j < l[i].1.len() && #[trigger] l[i].1[j] == c;
                assert(r[i].1[j] == c);
            }
            if c == cb {
                assert(r[p].1[0] == c);
            }
        }
        assert(all_listeners(r) =~= all_listeners(l).insert(cb));
    }
}

/// Every callback of the table, event after event.
pub open spec fn flat_listeners(l: ListenersView) -> Seq<CallbackId>
    decreases l.len(),
{
    if l.len() == 0 {
        Seq::empty()
    } else {
        flat_listeners(l.drop_last()) + l.last().1
    }
}

pub struct EventEmitter {
    listeners: Vec<(String, Vec<CallbackId>)>,
}

impl View for EventEmitter {
    type V = ListenersView;

    closed spec fn view(&self) -> ListenersView {
        self.listeners@.map_values(|e: (String, Vec<CallbackId>)| (e.0@, e.1@))
    }
}

impl EventEmitter {
    pub open spec fn wf(&self) -> bool {
        events_unique(self@)
    }

    pub fn new() -> (r: EventEmitter)
        ensures
            r.wf(),
            r@ == Seq::<(Seq<char>, Seq<CallbackId>)>::empty(),
    {
        EventEmitter { listeners: Vec::new() }
    }

    fn position(&self, event: &String) -> (r: Option<usize>)
        requires
            self.wf(),
        ensures
            r is Some <==> has_event(self@, event@),
            r is Some ==> r->0 == event_pos(self@, event@),
    {
        let mut i: usize = 0;
        while i < self.listeners.len()
            invariant
                i <= self@.len(),
                self.wf(),
                forall|j: int| 0 <= j < i ==> #[trigger] self@[j].0 != event@,
            decreases self@.len() - i,
        {
            if self.listeners[i].0 == *event {
                proof {
                    lemma_event_pos(self@, event@, i as int);
                }
                return Some(i);
            }
            i = i + 1;
        }
        None
    }

    /// Registers `callback` for `event`, after those already registered for it.
    pub fn on(&mut self, event: String, callback: CallbackId)
        requires
            old(self).wf(),
        ensures
            final(self).wf(),
            final(self)@ == with_listener(old(self)@, event@, callback),
    {
        proof {
            lemma_with_listener(self@, event@, callback, event@);
        }
        match self.position(&event) {
            Some(i) => {
                let mut list = self.listeners[i].1.clone();
                list.push(callback);
                proof {
                    assert(list@ =~= self@[i as int].1.push(callback));
                }
                self.listeners[i] = (event, list);
                proof {
                    assert(self@ =~= with_listener(old(self)@, event@, callback));
                }
            },
            None => {
                let mut list: Vec<CallbackId> = Vec::new();
                list.push(callback);
                proof {
                    assert(list@ =~= seq![callback]);
                }
                self.listeners.push((event, list));
            },
        }
        proof {
            assert(self@ =~= with_listener(old(self)@, event@, callback));
        }
    }

    /// Every registered callback, event after event.
    pub fn all(&self) -> (r: Vec<CallbackId>)
        ensures
            r@ == flat_listeners(self@),
    {
        let mut out: Vec<CallbackId> = Vec::new();
        let mut i: usize = 0;
        while i < self.listeners.len()
            invariant
                i <= self@.len(),
                out@ == flat_listeners(self@.subrange(0, i as int)),
            decreases self@.len() - i,
        {
            let list = &self.listeners[i].1;
            let ghost before = out@;
            let mut j: usize = 0;
            while j < list.len()
                invariant
                    j <= list@.len(),
                    list@ == self@[i as int].1,
                    out@ == before + list@.subrange(0, j as int),
                decreases list@.len() - j,
            {
                out.push(list[j]);
                j = j + 1;
                proof {
                    assert(out@ =~= before + list@.subrange(0, j as int));
                }
            }
            proof {
                let s = self@.subrange(0, i as int + 1);
                assert(s.drop_last() =~= self@.subrange(0, i as int));
                assert(list@.subrange(0, j as int) =~= list@);
            }
            i = i + 1;
        }
        proof {
            assert(self@.subrange(0, self@.len() as int) =~= self@);
        }
        out
    }

    /// The callbacks to call for `event`, in registration order. They stay
    /// registered: a later emission calls them again.
    pub fn emit(&self, event: &String) -> (r: Vec<CallbackId>)
        requires
            self.wf(),
        ensures
            r@ == listeners_of(self@, event@),
    {
        match self.position(event) {
            Some(i) => {
                let l = self.listeners[i].1.clone();
                proof {
                    assert(l@ =~= self@[i as int].1);
                }
                l
            },
            None => Vec::new(),
        }
    }
}

} // verus!
