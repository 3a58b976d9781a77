//! The decisions of the session master: its table of connected clients, what
//! each client message asks of it, how the screen is redrawn, how the master
//! reports that it is ready, and the command line it is started with.

use vstd::prelude::*;

use crate::args::{RedrawMethod, redraw_defaulted};
use crate::protocol::{Message, MessageView, TerminalSize};

verus! {

/// A connected client: its id, whether it receives output, and its
/// connection.
pub struct ClientEntry<S> {
    pub id: u64,
    pub attached: bool,
    pub stream: S,
}

/// The clients that passed the hello check, in the order they connected.
pub struct ClientTable<S> {
    entries: Vec<ClientEntry<S>>,
}

/// The index of the first client with the given id.
pub open spec fn first_with_id<S>(v: Seq<ClientEntry<S>>, id: u64, from: int) -> Option<int>
    decreases v.len() - from,
{
    if from < 0 || from >= v.len() {
        None
    } else if v[from].id == id {
        Some(from)
    } else {
        first_with_id(v, id, from + 1)
    }
}

/// The clients whose id differs from `id`, in order.
pub open spec fn without_id<S>(v: Seq<ClientEntry<S>>, id: u64) -> Seq<ClientEntry<S>>
    decreases v.len(),
{
    if v.len() == 0 {
        Seq::empty()
    } else {
        let rest = without_id(v.drop_last(), id);
        if v.last().id == id {
            rest
        } else {
            rest.push(v.last())
        }
    }
}

/// The clients kept after a broadcast: the detached ones and the attached
/// ones that the output reached.
pub open spec fn kept_after_broadcast<S>(v: Seq<ClientEntry<S>>, delivered: Seq<bool>) -> Seq<
    ClientEntry<S>,
>
    decreases v.len(),
{
    if v.len() == 0 {
        Seq::empty()
    } else {
        let rest = kept_after_broadcast(v.drop_last(), delivered.take(v.len() - 1));
        if !v.last().attached || delivered[v.len() - 1] {
            rest.push(v.last())
        } else {
            rest
        }
    }
}

impl<S> ClientTable<S> {
    /// The clients, in order.
    pub closed spec fn view(&self) -> Seq<ClientEntry<S>> {
        self.entries@
    }

    /// An empty table.
    pub fn new() -> (t: Self)
        ensures
            t.view() == Seq::<ClientEntry<S>>::empty(),
    {
        ClientTable { entries: Vec::new() }
    }

    /// The number of clients.
    pub fn len(&self) -> (n: usize)
        ensures
            n == self.view().len(),
    {
        self.entries.len()
    }

    /// Whether the client at `index` is attached.
    pub fn is_attached(&self, index: usize) -> (r: bool)
        requires
            index < self.view().len(),
        ensures
            r == self.view()[index as int].attached,
    {
        self.entries[index].attached
    }

    /// The id of the client at `index`.
    pub fn id_at(&self, index: usize) -> (r: u64)
        requires
            index < self.view().len(),
        ensures
            r == self.view()[index as int].id,
    {
        self.entries[index].id
    }

    /// The connection of the client at `index`, to write to or shut down.
    pub fn stream_mut(&mut self, index: usize) -> (s: &mut S)
        requires
            index < old(self).view().len(),
        ensures
            *s == old(self).view()[index as int].stream,
            final(self).view() == old(self).view().update(
                index as int,
                ClientEntry { stream: *final(s), ..old(self).view()[index as int] },
            ),
    {
        let e = &mut self.entries[index];
        &mut e.stream
    }

    /// Adds a client that has not attached yet.
    pub fn add(&mut self, id: u64, stream: S)
        ensures
            final(self).view() == old(self).view().push(ClientEntry { id, attached: false, stream }),
    {
        self.entries.push(ClientEntry { id, attached: false, stream });
    }

    /// Marks the first client with `id` as attached or detached; nothing
    /// changes when no client has that id.
    pub fn set_attached(&mut self, id: u64, attached: bool)
        ensures
            final(self).view() == (match first_with_id(old(self).view(), id, 0) {
                Some(i) => old(self).view().update(
                    i,
                    ClientEntry { attached, ..old(self).view()[i] },
                ),
                None => old(self).view(),
            }),
    {
        let mut i: usize = 0;
        while i < self.entries.len()
            invariant
                i <= self.entries.len(),
                self.view() == old(self).view(),
                first_with_id(self.view(), id, 0) == first_with_id(self.view(), id, i as int),
            decreases self.entries.len() - i,
        {
            if self.entries[i].id == id {
                let ghost before = self.entries@;
                let e = &mut self.entries[i];
                e.attached = attached;
                assert(self.entries@ =~= before.update(
                    i as int,
                    ClientEntry { attached, ..before[i as int] },
                ));
                return;
            }
            i += 1;
        }
    }

    /// Removes every client with `id`.
    pub fn remove(&mut self, id: u64)
        ensures
            final(self).view() == without_id(old(self).view(), id),
    {
        let mut rest: Vec<ClientEntry<S>> = Vec::new();
        std::mem::swap(&mut rest, &mut self.entries);
        let ghost all = rest@;
        assert(all.len() == rest.len());
        let mut kept: Vec<ClientEntry<S>> = Vec::new();
        let mut taken: usize = 0;
        assert(all.skip(0) =~= all);
        assert(all.take(0) =~= Seq::<ClientEntry<S>>::empty());
        while rest.len() > 0
            invariant
                taken + rest.len() == all.len(),
                all.len() <= usize::MAX,
                all == old(self).view(),
                rest@ == all.skip(taken as int),
                kept@ == without_id(all.take(taken as int), id),
            decreases rest.len(),
        {
            let e = rest.remove(0);
            assert(e == all[taken as int]);
            assert(all.take(taken + 1).drop_last() =~= all.take(taken as int));
            assert(rest@ =~= all.skip(taken + 1));
            if e.id != id {
                kept.push(e);
            }
            taken += 1;
        }
        assert(all.take(taken as int) =~= all);
        self.entries = kept;
    }

    /// After output was written to the attached clients, keeps the detached
    /// clients and the attached ones that `delivered` marks as reached.
    pub fn retain_delivered(&mut self, delivered: &[bool])
        requires
            delivered@.len() == old(self).view().len(),
        ensures
            final(self).view() == kept_after_broadcast(old(self).view(), delivered@),
    {
        let mut rest: Vec<ClientEntry<S>> = Vec::new();
        std::mem::swap(&mut rest, &mut self.entries);
        let ghost all = rest@;
        assert(all.len() == rest.len());
        let mut kept: Vec<ClientEntry<S>> = Vec::new();
        let mut taken: usize = 0;
        assert(all.skip(0) =~= all);
        assert(all.take(0) =~= Seq::<ClientEntry<S>>::empty());
        while rest.len() > 0
            invariant
                taken + rest.len() == all.len(),
                all.len() <= usize::MAX,
                all == old(self).view(),
                delivered@.len() == all.len(),
                rest@ == all.skip(taken as int),
                kept@ == kept_after_broadcast(all.take(taken as int), delivered@.take(taken as int)),
            decreases rest.len(),
        {
            let e = rest.remove(0);
            assert(e == all[taken as int]);
            assert(all.take(taken + 1).drop_last() =~= all.take(taken as int));
            assert(delivered@.take(taken + 1).take(taken as int) =~= delivered@.take(taken as int));
            assert(rest@ =~= all.skip(taken + 1));
            if !e.attached || delivered[taken] {
                kept.push(e);
            }
            taken += 1;
        }
        assert(all.take(taken as int) =~= all);
        assert(delivered@.take(taken as int) =~= delivered@);
        self.entries = kept;
    }

    /// Removes every client.
    pub fn clear(&mut self)
        ensures
            final(self).view() == Seq::<ClientEntry<S>>::empty(),
    {
        self.entries.clear();
    }
}

/// After removing `id`, no client has that id, and every other client stays.
pub proof fn lemma_remove_drops_only_id<S>(v: Seq<ClientEntry<S>>, id: u64)
    ensures
        forall|e: ClientEntry<S>| #[trigger] without_id(v, id).contains(e) <==> v.contains(e) && e.id
            != id,
    decreases v.len(),
{
    if v.len() > 0 {
        lemma_remove_drops_only_id(v.drop_last(), id);
        let rest = without_id(v.drop_last(), id);
        assert forall|e: ClientEntry<S>| #[trigger] without_id(v, id).contains(e) <==> v.contains(e)
            && e.id != id by {
            if v.contains(e) {
                let j = choose|j: int| 0 <= j < v.len() && v[j] == e;
                if j < v.len() - 1 {
                    assert(v.drop_last()[j] == e);
                }
            }
            if v.drop_last().contains(e) {
                let j = choose|j: int| 0 <= j < v.drop_last().len() && v.drop_last()[j] == e;
                assert(v[j] == e);
            }
            if v.last().id != id {
                if rest.push(v.last()).contains(e) {
                    let j = choose|j: int|
                        0 <= j < rest.push(v.last()).len() && rest.push(v.last())[j] == e;
                    if j < rest.len() {
                        assert(rest[j] == e);
                    }
                }
                if rest.contains(e) {
                    let j = choose|j: int| 0 <= j < rest.len() && rest[j] == e;
                    assert(rest.push(v.last())[j] == e);
                }
                assert(rest.push(v.last())[rest.len() as int] == v.last());
            }
        }
    }
}

/// A broadcast that reached every attached client keeps every client.
pub proof fn lemma_broadcast_all_delivered<S>(v: Seq<ClientEntry<S>>, delivered: Seq<bool>)
    requires
        delivered.len() == v.len(),
        forall|i: int| 0 <= i < delivered.len() ==> #[trigger] delivered[i],
    ensures
        kept_after_broadcast(v, delivered) == v,
    decreases v.len(),
{
    if v.len() > 0 {
        lemma_broadcast_all_delivered(v.drop_last(), delivered.take(v.len() - 1));
        assert(v.drop_last().push(v.last()) =~= v);
    }
}

/// A broadcast keeps every detached client, whatever it reached.
pub proof fn lemma_broadcast_keeps_detached<S>(v: Seq<ClientEntry<S>>, delivered: Seq<bool>, i: int)
    requires
        delivered.len() == v.len(),
        0 <= i < v.len(),
        !v[i].attached,
    ensures
        kept_after_broadcast(v, delivered).contains(v[i]),
    decreases v.len(),
{
    let rest = kept_after_broadcast(v.drop_last(), delivered.take(v.len() - 1));
    if i == v.len() - 1 {
        assert(rest.push(v.last())[rest.len() as int] == v[i]);
    } else {
        lemma_broadcast_keeps_detached(v.drop_last(), delivered.take(v.len() - 1), i);
        assert(v.drop_last()[i] == v[i]);
        if !v.last().attached || delivered[v.len() - 1] {
            let j = choose|j: int| 0 <= j < rest.len() && rest[j] == v[i];
            assert(rest.push(v.last())[j] == v[i]);
        }
    }
}

/// Attaching then detaching a client leaves it as it was before, when it was
/// detached.
pub proof fn lemma_attach_detach<S>(v: Seq<ClientEntry<S>>, id: u64)
    requires
        first_with_id(v, id, 0) matches Some(i) && 0 <= i < v.len() && !v[i].attached,
    ensures
        ({
            let i = first_with_id(v, id, 0).unwrap();
            let attached = v.update(i, ClientEntry { attached: true, ..v[i] });
            first_with_id(attached, id, 0) == Some(i) && attached.update(
                i,
                ClientEntry { attached: false, ..attached[i] },
            ) == v
        }),
{
    let i = first_with_id(v, id, 0).unwrap();
    let attached = v.update(i, ClientEntry { attached: true, ..v[i] });
    assert forall|j: int| 0 <= j < v.len() implies (#[trigger] v[j]).id == attached[j].id by {
        if j == i {
            assert(attached[j].id == v[i].id);
        }
    }
    lemma_first_with_id_ids(v, attached, id, 0);
    assert(attached.update(i, ClientEntry { attached: false, ..attached[i] }) =~= v);
}

/// Changing anything but the ids leaves the first client with an id where it
/// was.
proof fn lemma_first_with_id_ids<S>(v: Seq<ClientEntry<S>>, w: Seq<ClientEntry<S>>, id: u64, from: int)
    requires
        v.len() == w.len(),
        forall|j: int| 0 <= j < v.len() ==> (#[trigger] v[j]).id == w[j].id,
    ensures
        first_with_id(v, id, from) == first_with_id(w, id, from),
    decreases v.len() - from,
{
    if 0 <= from < v.len() {
        assert(v[from].id == w[from].id);
        lemma_first_with_id_ids(v, w, id, from + 1);
    }
}

/// What the master does for one message of a client that passed the hello
/// check.
pub enum ClientAction {
    /// Start sending the program's output to the client, and release a
    /// master that waits for its first client.
    Attach,
    /// Stop sending the program's output to the client.
    Detach,
    /// Write the bytes to the program's input; a failed write ends the
    /// client's session.
    Write(Vec<u8>),
    /// Resize the program's terminal.
    Resize(TerminalSize),
    /// Redraw the screen with this method (never unspecified) at this size.
    Redraw(RedrawMethod, TerminalSize),
    /// Nothing to do.
    Ignore,
    /// The connection failed or sent a bad frame: forget the client.
    Disconnect,
}

/// What the master does for the outcome of reading one message from a
/// client; `None` stands for a failed read.
pub open spec fn client_action_spec(message: Option<MessageView>, default_redraw: RedrawMethod) -> ActionView {
    match message {
        None => ActionView::Disconnect,
        Some(MessageView::Attach) => ActionView::Attach,
        Some(MessageView::Detach) => ActionView::Detach,
        Some(MessageView::Push(bytes)) => ActionView::Write(bytes),
        Some(MessageView::Resize(size)) => ActionView::Resize(size),
        Some(MessageView::Redraw { method, size }) => ActionView::Redraw(
            match method {
                RedrawMethod::Unspecified => redraw_defaulted(default_redraw),
                other => other,
            },
            size,
        ),
        Some(MessageView::Hello(_)) => ActionView::Ignore,
    }
}

/// A client action as plain values.
pub enum ActionView {
    Attach,
    Detach,
    Write(Seq<u8>),
    Resize(TerminalSize),
    Redraw(RedrawMethod, TerminalSize),
    Ignore,
    Disconnect,
}

impl View for ClientAction {
    type V = ActionView;

    open spec fn view(&self) -> ActionView {
        match self {
            ClientAction::Attach => ActionView::Attach,
            ClientAction::Detach => ActionView::Detach,
            ClientAction::Write(bytes) => ActionView::Write(bytes@),
            ClientAction::Resize(size) => ActionView::Resize(*size),
            ClientAction::Redraw(method, size) => ActionView::Redraw(*method, *size),
            ClientAction::Ignore => ActionView::Ignore,
            ClientAction::Disconnect => ActionView::Disconnect,
        }
    }
}

/// A read message as plain values.
pub open spec fn read_view(message: Option<Message>) -> Option<MessageView> {
    match message {
        Some(m) => Some(m@),
        None => None,
    }
}

/// Decides what the master does for one read from a client.
pub fn client_action(message: Option<Message>, default_redraw: RedrawMethod) -> (r: ClientAction)
    ensures
        r@ == client_action_spec(read_view(message), default_redraw),
{
    match message {
        None => ClientAction::Disconnect,
        Some(Message::Attach) => ClientAction::Attach,
        Some(Message::Detach) => ClientAction::Detach,
        Some(Message::Push(bytes)) => ClientAction::Write(bytes),
        Some(Message::Resize(size)) => ClientAction::Resize(size),
        Some(Message::Redraw { method, size }) => ClientAction::Redraw(
            method.defaulted_to(default_redraw),
            size,
        ),
        Some(Message::Hello(_)) => ClientAction::Ignore,
    }
}

/// A redraw never goes out with an unspecified method.
pub proof fn lemma_redraw_action_specified(message: Option<MessageView>, default_redraw: RedrawMethod)
    ensures
        client_action_spec(message, default_redraw) matches ActionView::Redraw(method, _)
            ==> method != RedrawMethod::Unspecified,
{
}

/// A redraw request that names a method is acted on with exactly that
/// method, at the size it gives, whatever the master's default.
pub proof fn lemma_redraw_keeps_named_method(
    method: RedrawMethod,
    size: TerminalSize,
    default_redraw: RedrawMethod,
)
    requires
        method != RedrawMethod::Unspecified,
    ensures
        client_action_spec(Some(MessageView::Redraw { method, size }), default_redraw)
            == ActionView::Redraw(method, size),
{
}

/// A redraw request that names no method takes the master's default, and
/// `CtrlL` when the master has none either.
pub proof fn lemma_redraw_unnamed_takes_default(size: TerminalSize, default_redraw: RedrawMethod)
    ensures
        client_action_spec(
            Some(MessageView::Redraw { method: RedrawMethod::Unspecified, size }),
            default_redraw,
        ) == ActionView::Redraw(
            if default_redraw == RedrawMethod::Unspecified {
                RedrawMethod::CtrlL
            } else {
                default_redraw
            },
            size,
        ),
{
}

/// The master's default matters only to requests that name no method: two
/// masters with different defaults act alike on a request that names one.
pub proof fn lemma_redraw_default_only_fills_in(
    method: RedrawMethod,
    size: TerminalSize,
    d1: RedrawMethod,
    d2: RedrawMethod,
)
    requires
        method != RedrawMethod::Unspecified,
    ensures
        client_action_spec(Some(MessageView::Redraw { method, size }), d1) == client_action_spec(
            Some(MessageView::Redraw { method, size }),
            d2,
        ),
{
}

/// How a new connection's first message is answered.
#[derive(Clone, Copy, Debug, PartialEq, Eq, Structural)]
pub enum HelloCheck {
    /// The token matches: register the client.
    Accepted,
    /// A hello with another token: shut the connection down.
    WrongToken,
    /// No hello could be read: drop the connection.
    NoHello,
}

/// The answer to a new connection's first read: a hello with the session's
/// token admits the client.
pub open spec fn hello_check_spec(first: Option<MessageView>, token: Seq<char>) -> HelloCheck {
    match first {
        Some(MessageView::Hello(t)) => if t == token {
            HelloCheck::Accepted
        } else {
            HelloCheck::WrongToken
        },
        _ => HelloCheck::NoHello,
    }
}

/// Checks a new connection's first read against the session's token.
pub fn check_hello(first: &Option<Message>, token: &String) -> (r: HelloCheck)
    ensures
        r == hello_check_spec(read_view(*first), token@),
{
    match first {
        Some(Message::Hello(t)) => {
            if *t == *token {
                HelloCheck::Accepted
            } else {
                HelloCheck::WrongToken
            }
        },
        _ => HelloCheck::NoHello,
    }
}

/// What a redraw does to the program.
pub struct RedrawSteps {
    /// Resize the program's terminal to the client's size.
    pub resize: bool,
    /// Write a form feed (`^L`) to the program.
    pub form_feed: bool,
}

/// The steps of a redraw. `form_feed_redraws` tells whether the platform's
/// terminal redraws on `^L` (it does not on Windows consoles).
pub fn redraw_steps(method: RedrawMethod, form_feed_redraws: bool) -> (r: RedrawSteps)
    requires
        method != RedrawMethod::Unspecified,
    ensures
        r.resize == (method == RedrawMethod::CtrlL || method == RedrawMethod::Winch),
        r.form_feed == (method == RedrawMethod::CtrlL && form_feed_redraws),
{
    match method {
        RedrawMethod::CtrlL => RedrawSteps { resize: true, form_feed: form_feed_redraws },
        RedrawMethod::Winch => RedrawSteps { resize: true, form_feed: false },
        _ => RedrawSteps { resize: false, form_feed: false },
    }
}

/// The size given to the program's terminal: at least one row and one
/// column.
pub fn pty_size(size: TerminalSize) -> (r: TerminalSize)
    ensures
        r.rows == (if size.rows == 0 {
            1
        } else {
            size.rows
        }),
        r.cols == (if size.cols == 0 {
            1
        } else {
            size.cols
        }),
{
    TerminalSize {
        rows: if size.rows == 0 {
            1
        } else {
            size.rows
        },
        cols: if size.cols == 0 {
            1
        } else {
            size.cols
        },
    }
}

/// The exit code of the master: 0 when the program succeeded, else the
/// program's exit code, read as a signed 32-bit number.
pub fn exit_code(success: bool, code: u32) -> (r: i32)
    ensures
        r == (if success {
            0
        } else if code <= 0x7fff_ffff {
            code as int
        } else {
            code - 0x1_0000_0000
        }),
{
    if success {
        0
    } else if code <= 0x7fff_ffff {
        code as i32
    } else {
        (code - 0x8000_0000) as i32 - 0x4000_0000 - 0x4000_0000
    }
}

} // verus!
