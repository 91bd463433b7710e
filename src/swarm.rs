//! The swarm engine: which listener, upgrade, dial and handler task is polled
//! when, and where each one goes after its poll.
//!
//! The engine tracks every work item by an id; the futures and streams behind
//! the ids belong to whoever drives the engine. One engine pass runs these
//! stages in order, and within a stage polls the items from the last index to
//! the first:
//!
//! 1. the host-wide incoming connection ([`SwarmFuture::poll_next_incoming`]);
//! 2. the new-listeners channel ([`SwarmFuture::intake_listener`]);
//! 3. the new-dialers channel ([`SwarmFuture::intake_dialer`]);
//! 4. the accept streams ([`SwarmFuture::advance_listeners`]);
//! 5. the upgrades of accepted connections ([`SwarmFuture::advance_listener_upgrades`]);
//! 6. the dials ([`SwarmFuture::advance_dialers`]);
//! 7. the handler tasks ([`SwarmFuture::advance_tasks`]).
//!
//! A stage is handed the outcomes of its polls in poll order: the first outcome
//! is that of the item with the highest index. The driver stops polling a stage
//! at its first failure, so there may be fewer outcomes than items; the items
//! that were not polled stay where they are. Any failure fails the engine, and
//! a pass never ends the engine on its own.
use vstd::prelude::*;

verus! {

/// The engine has failed: a poll of one of its items reported an error.
#[derive(Clone, Copy, Debug, PartialEq, Eq)]
pub struct SwarmError;

/// What a poll of a submission channel gave.
#[derive(Clone, Copy, Debug, PartialEq, Eq)]
pub enum IntakePoll {
    /// A new item, now known under `id`.
    Item { id: u64 },
    NotReady,
    /// Every sender is gone: no more items will come from this channel.
    Closed,
}

/// What a poll of a listener's accept stream gave.
#[derive(Clone, Copy, Debug, PartialEq, Eq)]
pub enum StreamPoll {
    /// An accepted connection whose upgrade is now known under `upgrade`.
    Item { upgrade: u64 },
    NotReady,
    /// The stream has ended.
    Exhausted,
    Failed,
}

/// What a poll of a pending upgrade or dial (or of the host-wide incoming
/// connection) gave.
#[derive(Clone, Copy, Debug, PartialEq, Eq)]
pub enum FuturePoll {
    /// The connection is upgraded, and the handler task made from it is known
    /// under `task`.
    Ready { task: u64 },
    NotReady,
    Failed,
}

/// What a poll of a handler task gave.
#[derive(Clone, Copy, Debug, PartialEq, Eq)]
pub enum TaskPoll {
    Done,
    NotReady,
    Failed,
}

/// The engine's collections, by stage.
pub struct SwarmState {
    pub listeners: Seq<u64>,
    pub listeners_upgrade: Seq<u64>,
    pub dialers: Seq<u64>,
    pub to_process: Seq<u64>,
}

/// The items of `items` that stay after a stage. `gone[j]` tells whether the
/// item polled `j`-th leaves; the item polled first is the last one, and the
/// items beyond the length of `gone` were not polled and stay.
pub open spec fn survivors(items: Seq<u64>, gone: Seq<bool>) -> Seq<u64>
    decreases items.len(),
{
    if items.len() == 0 || gone.len() == 0 {
        items
    } else {
        let rest = survivors(items.drop_last(), gone.drop_first());
        if gone[0] {
            rest
        } else {
            rest.push(items.last())
        }
    }
}

/// How many items leave.
pub open spec fn count_gone(gone: Seq<bool>) -> nat
    decreases gone.len(),
{
    if gone.len() == 0 {
        0
    } else {
        count_gone(gone.drop_first()) + if gone[0] {
            1nat
        } else {
            0nat
        }
    }
}

/// The upgrade that one accept-stream poll yielded, if any.
pub open spec fn upgrade_of(p: StreamPoll) -> Seq<u64> {
    match p {
        StreamPoll::Item { upgrade } => seq![upgrade],
        _ => Seq::empty(),
    }
}

/// The handler task that one upgrade or dial poll started, if any.
pub open spec fn task_of(p: FuturePoll) -> Seq<u64> {
    match p {
        FuturePoll::Ready { task } => seq![task],
        _ => Seq::empty(),
    }
}

/// The upgrades that the accept streams yielded, in poll order.
pub open spec fn yielded_upgrades(outs: Seq<StreamPoll>) -> Seq<u64>
    decreases outs.len(),
{
    if outs.len() == 0 {
        Seq::empty()
    } else {
        upgrade_of(outs[0]) + yielded_upgrades(outs.drop_first())
    }
}

/// The handler tasks started from finished upgrades or dials, in poll order.
pub open spec fn started_tasks(outs: Seq<FuturePoll>) -> Seq<u64>
    decreases outs.len(),
{
    if outs.len() == 0 {
        Seq::empty()
    } else {
        task_of(outs[0]) + started_tasks(outs.drop_first())
    }
}

pub open spec fn exhausted_flags(outs: Seq<StreamPoll>) -> Seq<bool> {
    Seq::new(outs.len(), |j: int| outs[j] is Exhausted)
}

pub open spec fn ready_flags(outs: Seq<FuturePoll>) -> Seq<bool> {
    Seq::new(outs.len(), |j: int| outs[j] is Ready)
}

pub open spec fn done_flags(outs: Seq<TaskPoll>) -> Seq<bool> {
    Seq::new(outs.len(), |j: int| outs[j] is Done)
}

pub open spec fn stream_failed(outs: Seq<StreamPoll>) -> bool {
    exists|j: int| 0 <= j < outs.len() && #[trigger] outs[j] is Failed
}

pub open spec fn future_failed(outs: Seq<FuturePoll>) -> bool {
    exists|j: int| 0 <= j < outs.len() && #[trigger] outs[j] is Failed
}

pub open spec fn task_failed(outs: Seq<TaskPoll>) -> bool {
    exists|j: int| 0 <= j < outs.len() && #[trigger] outs[j] is Failed
}

/// Stage 1: a ready incoming connection starts a handler task.
pub open spec fn after_next_incoming(s: SwarmState, p: FuturePoll) -> SwarmState {
    match p {
        FuturePoll::Ready { task } => SwarmState { to_process: s.to_process.push(task), ..s },
        _ => s,
    }
}

/// Stage 2: a submitted accept stream joins the listeners.
pub open spec fn after_listener_intake(s: SwarmState, p: IntakePoll) -> SwarmState {
    match p {
        IntakePoll::Item { id } => SwarmState { listeners: s.listeners.push(id), ..s },
        _ => s,
    }
}

/// Stage 3: a submitted dial joins the dialers.
pub open spec fn after_dialer_intake(s: SwarmState, p: IntakePoll) -> SwarmState {
    match p {
        IntakePoll::Item { id } => SwarmState { dialers: s.dialers.push(id), ..s },
        _ => s,
    }
}

/// Stage 4: exhausted streams leave; what the streams yielded starts upgrading.
pub open spec fn after_listeners(s: SwarmState, outs: Seq<StreamPoll>) -> SwarmState {
    SwarmState {
        listeners: survivors(s.listeners, exhausted_flags(outs)),
        listeners_upgrade: s.listeners_upgrade + yielded_upgrades(outs),
        ..s
    }
}

/// Stage 5: finished upgrades leave and start handler tasks.
pub open spec fn after_listener_upgrades(s: SwarmState, outs: Seq<FuturePoll>) -> SwarmState {
    SwarmState {
        listeners_upgrade: survivors(s.listeners_upgrade, ready_flags(outs)),
        to_process: s.to_process + started_tasks(outs),
        ..s
    }
}

/// Stage 6: finished dials leave and start handler tasks.
pub open spec fn after_dialers(s: SwarmState, outs: Seq<FuturePoll>) -> SwarmState {
    SwarmState {
        dialers: survivors(s.dialers, ready_flags(outs)),
        to_process: s.to_process + started_tasks(outs),
        ..s
    }
}

/// Stage 7: finished handler tasks leave.
pub open spec fn after_tasks(s: SwarmState, outs: Seq<TaskPoll>) -> SwarmState {
    SwarmState { to_process: survivors(s.to_process, done_flags(outs)), ..s }
}

proof fn lemma_yielded_take_succ(outs: Seq<StreamPoll>, j: int)
    requires
        0 <= j < outs.len(),
    ensures
        yielded_upgrades(outs.take(j + 1)) == yielded_upgrades(outs.take(j)) + upgrade_of(outs[j]),
    decreases j,
{
    if j == 0 {
        assert(outs.take(1).drop_first() =~= Seq::<StreamPoll>::empty());
        assert(outs.take(0) =~= Seq::<StreamPoll>::empty());
        assert(yielded_upgrades(outs.take(1).drop_first()) =~= Seq::<u64>::empty());
        assert(outs.take(1)[0] == outs[0]);
        assert(yielded_upgrades(outs.take(1)) =~= upgrade_of(outs[0]));
    } else {
        let t = outs.drop_first();
        lemma_yielded_take_succ(t, j - 1);
        assert(outs.take(j + 1).drop_first() =~= t.take(j));
        assert(outs.take(j).drop_first() =~= t.take(j - 1));
        assert(yielded_upgrades(outs.take(j + 1)) =~= yielded_upgrades(outs.take(j)) + upgrade_of(
            outs[j],
        ));
    }
}

proof fn lemma_started_take_succ(outs: Seq<FuturePoll>, j: int)
    requires
        0 <= j < outs.len(),
    ensures
        started_tasks(outs.take(j + 1)) == started_tasks(outs.take(j)) + task_of(outs[j]),
    decreases j,
{
    if j == 0 {
        assert(outs.take(1).drop_first() =~= Seq::<FuturePoll>::empty());
        assert(outs.take(0) =~= Seq::<FuturePoll>::empty());
        assert(started_tasks(outs.take(1).drop_first()) =~= Seq::<u64>::empty());
        assert(outs.take(1)[0] == outs[0]);
        assert(started_tasks(outs.take(1)) =~= task_of(outs[0]));
    } else {
        let t = outs.drop_first();
        lemma_started_take_succ(t, j - 1);
        assert(outs.take(j + 1).drop_first() =~= t.take(j));
        assert(outs.take(j).drop_first() =~= t.take(j - 1));
        assert(started_tasks(outs.take(j + 1)) =~= started_tasks(outs.take(j)) + task_of(outs[j]));
    }
}

/// The items of `items` that stay after a stage, as [`survivors`] says.
fn retain_survivors(items: &Vec<u64>, gone: &Vec<bool>) -> (r: Vec<u64>)
    requires
        gone@.len() <= items@.len(),
    ensures
        r@ == survivors(items@, gone@),
{
    let n = items.len();
    let m = gone.len();
    let mut r: Vec<u64> = Vec::new();
    let mut i: usize = 0;
    while i < n - m
        invariant
            m <= n,
            n == items@.len(),
            m == gone@.len(),
            i <= n - m,
            r@ == items@.take(i as int),
        decreases n - m - i,
    {
        r.push(items[i]);
        i = i + 1;
        assert(r@ =~= items@.take(i as int));
    }
    assert(survivors(items@.take(i as int), gone@.subrange(m as int, m as int)) == items@.take(i as int));
    while i < n
        invariant
            m <= n,
            n == items@.len(),
            m == gone@.len(),
            n - m <= i <= n,
            r@ == survivors(items@.take(i as int), gone@.subrange(n - i, m as int)),
        decreases n - i,
    {
        let ghost prev = r@;
        let ghost it = items@.take(i as int + 1);
        let ghost gs = gone@.subrange(n - i - 1, m as int);
        assert(it.drop_last() =~= items@.take(i as int));
        assert(gs.drop_first() =~= gone@.subrange(n - i, m as int));
        assert(gs[0] == gone@[n - i - 1]);
        assert(it.last() == items@[i as int]);
        if !gone[n - i - 1] {
            r.push(items[i]);
        }
        i = i + 1;
    }
    assert(items@.take(n as int) =~= items@);
    assert(gone@.subrange(0, m as int) =~= gone@);
    r
}

/// The engine's state: the ids of the items at each stage.
pub struct SwarmFuture {
    listeners: Vec<u64>,
    listeners_upgrade: Vec<u64>,
    dialers: Vec<u64>,
    to_process: Vec<u64>,
}

impl View for SwarmFuture {
    type V = SwarmState;

    closed spec fn view(&self) -> SwarmState {
        SwarmState {
            listeners: self.listeners@,
            listeners_upgrade: self.listeners_upgrade@,
            dialers: self.dialers@,
            to_process: self.to_process@,
        }
    }
}

impl SwarmFuture {
    /// An engine with nothing to do yet.
    pub fn new() -> (r: SwarmFuture)
        ensures
            r@.listeners.len() == 0,
            r@.listeners_upgrade.len() == 0,
            r@.dialers.len() == 0,
            r@.to_process.len() == 0,
    {
        SwarmFuture {
            listeners: Vec::new(),
            listeners_upgrade: Vec::new(),
            dialers: Vec::new(),
            to_process: Vec::new(),
        }
    }

    /// The accept streams, in index order.
    pub fn listeners(&self) -> (r: &Vec<u64>)
        ensures
            r@ == self@.listeners,
    {
        &self.listeners
    }

    /// The upgrades of accepted connections, in index order.
    pub fn listeners_upgrade(&self) -> (r: &Vec<u64>)
        ensures
            r@ == self@.listeners_upgrade,
    {
        &self.listeners_upgrade
    }

    /// The pending dials, in index order.
    pub fn dialers(&self) -> (r: &Vec<u64>)
        ensures
            r@ == self@.dialers,
    {
        &self.dialers
    }

    /// The running handler tasks, in index order.
    pub fn to_process(&self) -> (r: &Vec<u64>)
        ensures
            r@ == self@.to_process,
    {
        &self.to_process
    }
}

fn push_all(dst: &mut Vec<u64>, src: &Vec<u64>)
    ensures
        final(dst)@ == old(dst)@ + src@,
{
    let mut i: usize = 0;
    while i < src.len()
        invariant
            i <= src@.len(),
            dst@ == old(dst)@ + src@.take(i as int),
        decreases src@.len() - i,
    {
        dst.push(src[i]);
        i = i + 1;
        assert(dst@ =~= old(dst)@ + src@.take(i as int));
    }
    assert(src@.take(i as int) =~= src@);
}

/// Sorts the polled upgrades or dials into those that stay and the handler
/// tasks started from those that finished.
fn settle_futures(items: &Vec<u64>, outs: &Vec<FuturePoll>) -> (r: Result<
    (Vec<u64>, Vec<u64>),
    SwarmError,
>)
    requires
        outs@.len() <= items@.len(),
    ensures
        r is Err <==> future_failed(outs@),
        r is Ok ==> r->Ok_0.0@ == survivors(items@, ready_flags(outs@)),
        r is Ok ==> r->Ok_0.1@ == started_tasks(outs@),
{
    let mut gone: Vec<bool> = Vec::new();
    let mut started: Vec<u64> = Vec::new();
    let mut j: usize = 0;
    while j < outs.len()
        invariant
            j <= outs@.len(),
            outs@.len() <= items@.len(),
            gone@ == ready_flags(outs@.take(j as int)),
            started@ == started_tasks(outs@.take(j as int)),
            forall|k: int| 0 <= k < j ==> !(#[trigger] outs@[k] is Failed),
        decreases outs@.len() - j,
    {
        proof {
            lemma_started_take_succ(outs@, j as int);
        }
        match outs[j] {
            FuturePoll::Ready { task } => {
                started.push(task);
                gone.push(true);
            },
            FuturePoll::NotReady => {
                gone.push(false);
            },
            FuturePoll::Failed => {
                return Err(SwarmError);
            },
        }
        j = j + 1;
        assert(gone@ =~= ready_flags(outs@.take(j as int)));
        assert(started@ =~= started_tasks(outs@.take(j as int)));
    }
    assert(outs@.take(j as int) =~= outs@);
    let kept = retain_survivors(items, &gone);
    Ok((kept, started))
}

impl SwarmFuture {
    /// Stage 1. A ready host-wide incoming connection has become the handler
    /// task `task`: it joins the running tasks, and the result is `Ok(true)`,
    /// which asks the driver to arm a fresh incoming future. A failure fails the
    /// engine.
    pub fn poll_next_incoming(&mut self, p: FuturePoll) -> (r: Result<bool, SwarmError>)
        ensures
            r is Err <==> p is Failed,
            r is Err ==> final(self)@ == old(self)@,
            r is Ok ==> r->Ok_0 == p is Ready,
            r is Ok ==> final(self)@ == after_next_incoming(old(self)@, p),
    {
        match p {
            FuturePoll::Ready { task } => {
                self.to_process.push(task);
                Ok(true)
            },
            FuturePoll::NotReady => Ok(false),
            FuturePoll::Failed => Err(SwarmError),
        }
    }

    /// Stage 2. A submitted accept stream joins the listeners; a closed channel
    /// only means that no more will come.
    pub fn intake_listener(&mut self, p: IntakePoll)
        ensures
            final(self)@ == after_listener_intake(old(self)@, p),
    {
        if let IntakePoll::Item { id } = p {
            self.listeners.push(id);
        }
    }

    /// Stage 3. A submitted dial joins the dialers; a closed channel only means
    /// that no more will come.
    pub fn intake_dialer(&mut self, p: IntakePoll)
        ensures
            final(self)@ == after_dialer_intake(old(self)@, p),
    {
        if let IntakePoll::Item { id } = p {
            self.dialers.push(id);
        }
    }

    /// Stage 4. Each accept stream was polled once, from the last to the first.
    /// A stream that yielded a connection stays, and the connection's upgrade
    /// joins the pending upgrades; an exhausted stream leaves; a failure fails
    /// the engine and changes nothing.
    pub fn advance_listeners(&mut self, outs: Vec<StreamPoll>) -> (r: Result<(), SwarmError>)
        requires
            outs@.len() <= old(self)@.listeners.len(),
        ensures
            r is Err <==> stream_failed(outs@),
            r is Err ==> final(self)@ == old(self)@,
            r is Ok ==> final(self)@ == after_listeners(old(self)@, outs@),
    {
        let mut gone: Vec<bool> = Vec::new();
        let mut yielded: Vec<u64> = Vec::new();
        let mut j: usize = 0;
        while j < outs.len()
            invariant
                j <= outs@.len(),
                gone@ == exhausted_flags(outs@.take(j as int)),
                yielded@ == yielded_upgrades(outs@.take(j as int)),
                forall|k: int| 0 <= k < j ==> !(#[trigger] outs@[k] is Failed),
            decreases outs@.len() - j,
        {
            proof {
                lemma_yielded_take_succ(outs@, j as int);
            }
            match outs[j] {
                StreamPoll::Item { upgrade } => {
                    yielded.push(upgrade);
                    gone.push(false);
                },
                StreamPoll::NotReady => {
                    gone.push(false);
                },
                StreamPoll::Exhausted => {
                    gone.push(true);
                },
                StreamPoll::Failed => {
                    return Err(SwarmError);
                },
            }
            j = j + 1;
            assert(gone@ =~= exhausted_flags(outs@.take(j as int)));
            assert(yielded@ =~= yielded_upgrades(outs@.take(j as int)));
        }
        assert(outs@.take(j as int) =~= outs@);
        self.listeners = retain_survivors(&self.listeners, &gone);
        push_all(&mut self.listeners_upgrade, &yielded);
        Ok(())
    }

    /// Stage 5. Each pending upgrade of an accepted connection was polled once,
    /// from the last to the first. A finished one leaves, and the handler task
    /// made from it joins the running tasks; a failure fails the engine and
    /// changes nothing.
    pub fn advance_listener_upgrades(&mut self, outs: Vec<FuturePoll>) -> (r: Result<
        (),
        SwarmError,
    >)
        requires
            outs@.len() <= old(self)@.listeners_upgrade.len(),
        ensures
            r is Err <==> future_failed(outs@),
            r is Err ==> final(self)@ == old(self)@,
            r is Ok ==> final(self)@ == after_listener_upgrades(old(self)@, outs@),
    {
        match settle_futures(&self.listeners_upgrade, &outs) {
            Ok((kept, started)) => {
                self.listeners_upgrade = kept;
                push_all(&mut self.to_process, &started);
                Ok(())
            },
            Err(e) => Err(e),
        }
    }

    /// Stage 6. Each pending dial was polled once, from the last to the first.
    /// A finished one leaves, and the handler task made from it joins the
    /// running tasks; a failure fails the engine and changes nothing.
    pub fn advance_dialers(&mut self, outs: Vec<FuturePoll>) -> (r: Result<(), SwarmError>)
        requires
            outs@.len() <= old(self)@.dialers.len(),
        ensures
            r is Err <==> future_failed(outs@),
            r is Err ==> final(self)@ == old(self)@,
            r is Ok ==> final(self)@ == after_dialers(old(self)@, outs@),
    {
        match settle_futures(&self.dialers, &outs) {
            Ok((kept, started)) => {
                self.dialers = kept;
                push_all(&mut self.to_process, &started);
                Ok(())
            },
            Err(e) => Err(e),
        }
    }

    /// Stage 7. Each handler task was polled once, from the last to the first.
    /// A finished one leaves; a failure fails the engine and changes nothing.
    pub fn advance_tasks(&mut self, outs: Vec<TaskPoll>) -> (r: Result<(), SwarmError>)
        requires
            outs@.len() <= old(self)@.to_process.len(),
        ensures
            r is Err <==> task_failed(outs@),
            r is Err ==> final(self)@ == old(self)@,
            r is Ok ==> final(self)@ == after_tasks(old(self)@, outs@),
    {
        let mut gone: Vec<bool> = Vec::new();
        let mut j: usize = 0;
        while j < outs.len()
            invariant
                j <= outs@.len(),
                gone@ == done_flags(outs@.take(j as int)),
                forall|k: int| 0 <= k < j ==> !(#[trigger] outs@[k] is Failed),
            decreases outs@.len() - j,
        {
            match outs[j] {
                TaskPoll::Done => {
                    gone.push(true);
                },
                TaskPoll::NotReady => {
                    gone.push(false);
                },
                TaskPoll::Failed => {
                    return Err(SwarmError);
                },
            }
            j = j + 1;
            assert(gone@ =~= done_flags(outs@.take(j as int)));
        }
        assert(outs@.take(j as int) =~= outs@);
        self.to_process = retain_survivors(&self.to_process, &gone);
        Ok(())
    }
}

proof fn lemma_survivors_len(items: Seq<u64>, gone: Seq<bool>)
    requires
        gone.len() <= items.len(),
    ensures
        survivors(items, gone).len() + count_gone(gone) == items.len(),
    decreases items.len(),
{
    if items.len() != 0 && gone.len() != 0 {
        lemma_survivors_len(items.drop_last(), gone.drop_first());
    }
}

proof fn lemma_started_count(outs: Seq<FuturePoll>)
    ensures
        started_tasks(outs).len() == count_gone(ready_flags(outs)),
    decreases outs.len(),
{
    if outs.len() != 0 {
        lemma_started_count(outs.drop_first());
        assert(ready_flags(outs).drop_first() =~= ready_flags(outs.drop_first()));
    }
}

/// Each upgrade or dial that finishes starts exactly one handler task, and
/// nothing pending is lost: across stages 5 and 6 of a pass without failure,
/// the running tasks grow by the tasks started from the finished upgrades and
/// dials, in poll order, and the pending upgrades and dials shrink by as many.
pub proof fn lemma_each_finished_connection_starts_one_handler(
    s: SwarmState,
    upgrade_outs: Seq<FuturePoll>,
    dial_outs: Seq<FuturePoll>,
)
    requires
        upgrade_outs.len() <= s.listeners_upgrade.len(),
        dial_outs.len() <= s.dialers.len(),
        !future_failed(upgrade_outs),
        !future_failed(dial_outs),
    ensures
        ({
            let t = after_dialers(after_listener_upgrades(s, upgrade_outs), dial_outs);
            &&& t.to_process == s.to_process + started_tasks(upgrade_outs) + started_tasks(
                dial_outs,
            )
            &&& started_tasks(upgrade_outs).len() == count_gone(ready_flags(upgrade_outs))
            &&& started_tasks(dial_outs).len() == count_gone(ready_flags(dial_outs))
            &&& t.listeners_upgrade.len() + t.dialers.len() + t.to_process.len()
                == s.listeners_upgrade.len() + s.dialers.len() + s.to_process.len()
        }),
{
    lemma_started_count(upgrade_outs);
    lemma_started_count(dial_outs);
    lemma_survivors_len(s.listeners_upgrade, ready_flags(upgrade_outs));
    lemma_survivors_len(s.dialers, ready_flags(dial_outs));
}

/// Each connection that an accept stream yields joins the pending upgrades,
/// once; a stream leaves only when it is exhausted.
pub proof fn lemma_each_accepted_connection_is_upgraded(s: SwarmState, outs: Seq<StreamPoll>)
    requires
        outs.len() <= s.listeners.len(),
        !stream_failed(outs),
    ensures
        ({
            let t = after_listeners(s, outs);
            &&& t.listeners_upgrade == s.listeners_upgrade + yielded_upgrades(outs)
            &&& t.listeners.len() + count_gone(exhausted_flags(outs)) == s.listeners.len()
        }),
{
    lemma_survivors_len(s.listeners, exhausted_flags(outs));
}

/// A dial taken in from the channel is polled in the same pass, before any
/// older dial; if it is ready at once, it leaves the dialers and its handler
/// task is the first one that the pass starts from a dial.
pub proof fn lemma_submitted_dial_starts_in_same_pass(
    s: SwarmState,
    id: u64,
    dial_outs: Seq<FuturePoll>,
    task: u64,
)
    requires
        1 <= dial_outs.len() <= s.dialers.len() + 1,
        dial_outs[0] == (FuturePoll::Ready { task }),
    ensures
        after_dialer_intake(s, IntakePoll::Item { id }).dialers.last() == id,
        ({
            let s1 = after_dialer_intake(s, IntakePoll::Item { id });
            let t = after_dialers(s1, dial_outs);
            &&& t.dialers == survivors(s.dialers, ready_flags(dial_outs.drop_first()))
            &&& t.to_process == s1.to_process + seq![task] + started_tasks(dial_outs.drop_first())
        }),
{
    let s1 = after_dialer_intake(s, IntakePoll::Item { id });
    assert(s1.dialers.drop_last() =~= s.dialers);
    assert(ready_flags(dial_outs).drop_first() =~= ready_flags(dial_outs.drop_first()));
    assert(started_tasks(dial_outs) =~= seq![task] + started_tasks(dial_outs.drop_first()));
    assert(s1.to_process + started_tasks(dial_outs) =~= s1.to_process + seq![task]
        + started_tasks(dial_outs.drop_first()));
}

} // verus!
