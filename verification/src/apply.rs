//! Applying a transaction's items to the blocks and inodes they describe.
//!
//! A journalled operation writes a log record and changes nothing else, so
//! a second operation on the same mount reads the state that the first one
//! started from. Applying the record the way a replayer would is what lets
//! the second see the first.
//!
//! [`Replay`] decides, item by item, what to read and what to write; whoever
//! has the device does it. [`apply_transaction`] is the replay of a
//! transaction into an image held in memory.
//!
//! The frame around the items, START, the transaction header and COMMIT, is
//! passed over. So is a cancel item, together with every item before it that
//! is about the block it names.

use vstd::prelude::*;
use crate::bytes::{patched, put};
use crate::error::Error;
use crate::log::ByteOrder;
use crate::log_write::Op;
use crate::superblock::Superblock;
use crate::task::{
    is_ready, law_outcome_keeps_the_length, lemma_task_from, next_task, task_from, Task, TaskView,
};

verus! {

/// What a replay asks of whoever has the device.
pub enum Action {
    /// Read `len` bytes at `offset`, and hand them to [`Replay::read`].
    Read { offset: u64, len: usize },
    /// Write `bytes` at `offset`, and report it with [`Replay::wrote`].
    Write { offset: u64, bytes: Vec<u8> },
    /// Nothing more: the transaction is applied, in this many byte runs.
    Finish { written: usize },
}

/// What a replay asks for, as values.
pub enum ActionView {
    Read { offset: u64, len: usize },
    Write { offset: u64, bytes: Seq<u8> },
    Finish { written: usize },
}

impl View for Action {
    type V = ActionView;

    open spec fn view(&self) -> ActionView {
        match self {
            Action::Read { offset, len } => ActionView::Read { offset: *offset, len: *len },
            Action::Write { offset, bytes } => ActionView::Write {
                offset: *offset,
                bytes: bytes@,
            },
            Action::Finish { written } => ActionView::Finish { written: *written },
        }
    }
}

/// What a replay is waiting for.
pub enum Stage {
    /// To be begun.
    Start,
    /// The bytes that a task needs.
    Reading(Task),
    /// Word that a task's outcome was written: so many runs, and the next
    /// item starts there.
    Writing { runs: usize, next: usize },
    /// Nothing: the transaction is applied, or was refused.
    Over,
}

/// What a replay is waiting for, as values.
pub enum StageView {
    Start,
    Reading(TaskView),
    Writing { runs: usize, next: usize },
    Over,
}

impl View for Stage {
    type V = StageView;

    open spec fn view(&self) -> StageView {
        match self {
            Stage::Start => StageView::Start,
            Stage::Reading(task) => StageView::Reading(task@),
            Stage::Writing { runs, next } => StageView::Writing { runs: *runs, next: *next },
            Stage::Over => StageView::Over,
        }
    }
}

/// A transaction on its way to the device.
///
/// The replay decides and someone else does the I/O: [`Replay::begin`]
/// asks for the first action, [`Replay::read`] and [`Replay::wrote`] report
/// one done and ask for the next. A refusal, or a device that fails, ends
/// the replay.
pub struct Replay<'a> {
    pub sb: Superblock,
    pub ops: &'a [Op],
    pub lsn: u64,
    pub order: ByteOrder,
    /// The operation from which to look for the next item.
    pub at: usize,
    /// Byte runs written so far.
    pub written: usize,
    pub stage: Stage,
}

/// What a replay does next once everything before operation `at` is
/// applied: read for the next item, finish, or refuse.
pub open spec fn next_action(
    sb: Superblock,
    ops: Seq<Op>,
    order: ByteOrder,
    at: int,
    written: usize,
) -> (Result<ActionView, Error>, StageView) {
    match task_from(sb, ops, at, order) {
        Err(e) => (Err(e), StageView::Over),
        Ok(None) => (Ok(ActionView::Finish { written }), StageView::Over),
        Ok(Some(task)) => (
            Ok(ActionView::Read { offset: task.offset, len: task.len }),
            StageView::Reading(task),
        ),
    }
}

/// What a replay asks for or refuses, as values.
pub open spec fn asked(r: Result<Action, Error>) -> Result<ActionView, Error> {
    match r {
        Ok(action) => Ok(action@),
        Err(e) => Err(e),
    }
}

impl<'a> Replay<'a> {
    /// A replay has written no more runs than it has passed operations, and
    /// the task it is on is one of the transaction's.
    pub open spec fn valid(self) -> bool {
        &&& self.sb.valid()
        &&& self.written <= self.at <= self.ops.len()
        &&& match self.stage@ {
            StageView::Reading(task) => {
                &&& is_ready(self.sb, self.ops@, task)
                &&& self.at <= task.from
                &&& task_from(self.sb, self.ops@, self.at as int, self.order) == Ok::<
                    Option<TaskView>,
                    Error,
                >(Some(task))
            },
            StageView::Writing { runs, next } => {
                &&& self.at < next <= self.ops.len()
                &&& runs < next - self.at
            },
            _ => true,
        }
    }

    /// Whether this is a replay of the same transaction.
    pub open spec fn same_transaction(self, other: Self) -> bool {
        &&& self.sb == other.sb
        &&& self.ops == other.ops
        &&& self.lsn == other.lsn
        &&& self.order == other.order
    }

    /// A replay that has not begun, of a transaction logged by a machine of
    /// this byte order.
    pub fn new(sb: &Superblock, ops: &'a [Op], lsn: u64, order: ByteOrder) -> (r: Self)
        requires
            sb.valid(),
        ensures
            r.valid(),
            r.sb == *sb,
            r.ops == ops,
            r.lsn == lsn,
            r.order == order,
            r.at == 0,
            r.written == 0,
            r.stage@ == StageView::Start,
    {
        Replay { sb: *sb, ops, lsn, order, at: 0, written: 0, stage: Stage::Start }
    }

    /// Look for the next item.
    fn advance(&mut self) -> (r: Result<Action, Error>)
        requires
            old(self).sb.valid(),
            old(self).written <= old(self).at <= old(self).ops.len(),
        ensures
            final(self).valid(),
            final(self).same_transaction(*old(self)),
            final(self).at == old(self).at,
            final(self).written == old(self).written,
            ({
                let (want, stage) = next_action(
                    old(self).sb,
                    old(self).ops@,
                    old(self).order,
                    old(self).at as int,
                    old(self).written,
                );
                asked(r) == want && final(self).stage@ == stage
            }),
    {
        match next_task(&self.sb, self.ops, self.at, self.order) {
            Ok(Some(task)) => {
                let action = Action::Read { offset: task.offset, len: task.len };
                self.stage = Stage::Reading(task);
                Ok(action)
            },
            Ok(None) => {
                self.stage = Stage::Over;
                Ok(Action::Finish { written: self.written })
            },
            Err(e) => {
                self.stage = Stage::Over;
                Err(e)
            },
        }
    }

    /// Ask for the first action.
    pub fn begin(&mut self) -> (r: Result<Action, Error>)
        requires
            old(self).valid(),
            old(self).stage@ == StageView::Start,
        ensures
            final(self).valid(),
            final(self).same_transaction(*old(self)),
            final(self).at == old(self).at,
            final(self).written == old(self).written,
            ({
                let (want, stage) = next_action(
                    old(self).sb,
                    old(self).ops@,
                    old(self).order,
                    old(self).at as int,
                    old(self).written,
                );
                asked(r) == want && final(self).stage@ == stage
            }),
    {
        self.advance()
    }

    /// Take the bytes that were asked for, and ask for the next action.
    ///
    /// An item that leaves its bytes alone is passed over, and the next one
    /// looked for.
    pub fn read(&mut self, buf: Vec<u8>) -> (r: Result<Action, Error>)
        requires
            old(self).valid(),
            old(self).stage@ matches StageView::Reading(task) && buf@.len() == task.len,
        ensures
            final(self).valid(),
            final(self).same_transaction(*old(self)),
            final(self).written == old(self).written,
            ({
                let task = old(self).stage@->Reading_0;
                match task.outcome(old(self).sb, old(self).ops@, buf@, old(self).lsn) {
                    Err(e) => {
                        &&& r == Err::<Action, Error>(e)
                        &&& final(self).at == old(self).at
                        &&& final(self).stage@ == StageView::Over
                    },
                    Ok(Some(bytes)) => {
                        &&& asked(r) == Ok::<ActionView, Error>(
                            (ActionView::Write { offset: task.offset, bytes }),
                        )
                        &&& final(self).at == old(self).at
                        &&& final(self).stage@ == (StageView::Writing {
                            runs: task.runs() as usize,
                            next: task.next,
                        })
                    },
                    Ok(None) => {
                        let (want, stage) = next_action(
                            old(self).sb,
                            old(self).ops@,
                            old(self).order,
                            task.next as int,
                            old(self).written,
                        );
                        &&& asked(r) == want
                        &&& final(self).at == task.next
                        &&& final(self).stage@ == stage
                    },
                }
            }),
    {
        let mut stage = Stage::Over;
        std::mem::swap(&mut stage, &mut self.stage);
        match stage {
            Stage::Reading(task) => match task.apply(&self.sb, self.ops, buf, self.lsn) {
                Err(e) => Err(e),
                Ok(Some(bytes)) => {
                    self.stage = Stage::Writing { runs: task.run_count(), next: task.next };
                    Ok(Action::Write { offset: task.offset, bytes })
                },
                Ok(None) => {
                    self.at = task.next;
                    self.advance()
                },
            },
            _ => {
                assert(false);
                Ok(Action::Finish { written: self.written })
            },
        }
    }

    /// Take word that what was asked for is written, and ask for the next
    /// action.
    pub fn wrote(&mut self) -> (r: Result<Action, Error>)
        requires
            old(self).valid(),
            old(self).stage@ is Writing,
        ensures
            final(self).valid(),
            final(self).same_transaction(*old(self)),
            ({
                let runs = old(self).stage@->runs;
                let next = old(self).stage@->next;
                let written = (old(self).written + runs) as usize;
                let (want, stage) = next_action(
                    old(self).sb,
                    old(self).ops@,
                    old(self).order,
                    next as int,
                    written,
                );
                &&& old(self).written + runs <= usize::MAX
                &&& asked(r) == want
                &&& final(self).at == next
                &&& final(self).written == written
                &&& final(self).stage@ == stage
            }),
    {
        if let Stage::Writing { runs, next } = &self.stage {
            let runs: usize = *runs;
            let next: usize = *next;
            self.written = self.written + runs;
            self.at = next;
        }
        self.advance()
    }
}

/// How many bytes of a request an image has.
pub open spec fn available(image: Seq<u8>, offset: u64) -> int {
    if offset < image.len() {
        image.len() - offset
    } else {
        0
    }
}

/// An image with the items from operation `at` on applied to it, and how
/// many byte runs that wrote on top of `written`, or why one of the items
/// was refused. The items before a refused one stay applied. Cancel items,
/// and the items they cancel, write nothing and count for nothing.
#[verifier::opaque]
pub open spec fn applied(
    image: Seq<u8>,
    sb: Superblock,
    ops: Seq<Op>,
    lsn: u64,
    order: ByteOrder,
    at: int,
    written: int,
) -> (Seq<u8>, Result<int, Error>)
    decreases ops.len() - at,
    when 0 <= at <= ops.len() <= usize::MAX
    via applied_advances
{
    match task_from(sb, ops, at, order) {
        Err(e) => (image, Err(e)),
        Ok(None) => (image, Ok(written)),
        Ok(Some(task)) => if task.len > available(image, task.offset) {
            (
                image,
                Err(
                    Error::ShortRead {
                        offset: task.offset,
                        want: task.len,
                        got: available(image, task.offset) as usize,
                    },
                ),
            )
        } else {
            let buf = image.subrange(task.offset as int, task.offset + task.len);
            match task.outcome(sb, ops, buf, lsn) {
                Err(e) => (image, Err(e)),
                Ok(None) => applied(image, sb, ops, lsn, order, task.next as int, written),
                Ok(Some(bytes)) => applied(
                    patched(image, task.offset as int, bytes),
                    sb,
                    ops,
                    lsn,
                    order,
                    task.next as int,
                    written + task.runs(),
                ),
            }
        },
    }
}

#[via_fn]
proof fn applied_advances(
    image: Seq<u8>,
    sb: Superblock,
    ops: Seq<Op>,
    lsn: u64,
    order: ByteOrder,
    at: int,
    written: int,
) {
    lemma_task_from(sb, ops, at, order);
}

/// A transaction is applied item by item, but for cancel items and the
/// items they cancel. An item that is refused changes nothing, and neither
/// does anything behind it; an item whose inode is newer already is passed
/// over; any other item's block or cluster is replaced whole, and its runs
/// are counted.
pub proof fn law_transaction_goes_item_by_item(
    image: Seq<u8>,
    sb: Superblock,
    ops: Seq<Op>,
    lsn: u64,
    order: ByteOrder,
    at: int,
    written: int,
)
    requires
        sb.valid(),
        0 <= at <= ops.len() <= usize::MAX,
    ensures
        ({
            let whole = applied(image, sb, ops, lsn, order, at, written);
            match task_from(sb, ops, at, order) {
                Err(e) => whole == (image, Err::<int, Error>(e)),
                Ok(None) => whole == (image, Ok::<int, Error>(written)),
                Ok(Some(task)) => if task.len > available(image, task.offset) {
                    whole == (
                        image,
                        Err::<int, Error>(
                            Error::ShortRead {
                                offset: task.offset,
                                want: task.len,
                                got: available(image, task.offset) as usize,
                            },
                        ),
                    )
                } else {
                    let buf = image.subrange(task.offset as int, task.offset + task.len);
                    match task.outcome(sb, ops, buf, lsn) {
                        Err(e) => whole == (image, Err::<int, Error>(e)),
                        Ok(None) => whole == applied(
                            image,
                            sb,
                            ops,
                            lsn,
                            order,
                            task.next as int,
                            written,
                        ),
                        Ok(Some(bytes)) => {
                            &&& bytes.len() == task.len
                            &&& whole == applied(
                                patched(image, task.offset as int, bytes),
                                sb,
                                ops,
                                lsn,
                                order,
                                task.next as int,
                                written + task.runs(),
                            )
                        },
                    }
                },
            }
        }),
{
    reveal_with_fuel(applied, 2);
    lemma_task_from(sb, ops, at, order);
    if let Ok(Some(task)) = task_from(sb, ops, at, order) {
        if task.len <= available(image, task.offset) {
            let buf = image.subrange(task.offset as int, task.offset + task.len);
            law_outcome_keeps_the_length(sb, ops, task, buf, lsn);
        }
    }
}

/// Whether a replay that asks for an action still comes to `whole` on an
/// image as it is.
spec fn on_course(
    replay: Replay,
    action: ActionView,
    image: Seq<u8>,
    whole: (Seq<u8>, Result<int, Error>),
) -> bool {
    &&& replay.valid()
    &&& match action {
        ActionView::Write { offset, bytes } => {
            &&& replay.stage@ is Writing
            &&& offset + bytes.len() <= image.len()
            &&& whole == applied(
                patched(image, offset as int, bytes),
                replay.sb,
                replay.ops@,
                replay.lsn,
                replay.order,
                replay.stage@->next as int,
                replay.written + replay.stage@->runs,
            )
        },
        ActionView::Read { offset, len } => {
            &&& replay.stage@ matches StageView::Reading(task)
            &&& task.offset == offset
            &&& task.len == len
            &&& whole == applied(
                image,
                replay.sb,
                replay.ops@,
                replay.lsn,
                replay.order,
                replay.at as int,
                replay.written as int,
            )
        },
        ActionView::Finish { written } => whole == (image, Ok::<int, Error>(written as int)),
    }
}

/// A replay that goes on to the next item is on course.
proof fn lemma_next_action(
    replay: Replay,
    image: Seq<u8>,
    r: Result<ActionView, Error>,
    whole: (Seq<u8>, Result<int, Error>),
)
    requires
        replay.valid(),
        (r, replay.stage@) == next_action(
            replay.sb,
            replay.ops@,
            replay.order,
            replay.at as int,
            replay.written,
        ),
        whole == applied(
            image,
            replay.sb,
            replay.ops@,
            replay.lsn,
            replay.order,
            replay.at as int,
            replay.written as int,
        ),
    ensures
        match r {
            Ok(action) => on_course(replay, action, image, whole),
            Err(e) => whole == (image, Err::<int, Error>(e)),
        },
{
    assert(replay.ops@.len() == replay.ops.len());
    law_transaction_goes_item_by_item(
        image,
        replay.sb,
        replay.ops@,
        replay.lsn,
        replay.order,
        replay.at as int,
        replay.written as int,
    );
}

/// The `len` bytes of `image` at `offset`.
fn read_image(image: &Vec<u8>, offset: u64, len: usize) -> (r: Result<Vec<u8>, Error>)
    requires
        0 < len,
    ensures
        match r {
            Ok(buf) => {
                &&& len <= available(image@, offset)
                &&& buf@ == image@.subrange(offset as int, offset + len)
            },
            Err(e) => {
                &&& len > available(image@, offset)
                &&& e == Error::ShortRead {
                    offset,
                    want: len,
                    got: available(image@, offset) as usize,
                }
            },
        },
{
    let got: usize = if offset < image.len() as u64 {
        image.len() - offset as usize
    } else {
        0
    };
    if len > got {
        return Err(Error::ShortRead { offset, want: len, got });
    }
    let start: usize = offset as usize;
    Ok(vstd::slice::slice_to_vec(vstd::slice::slice_subrange(image, start, start + len)))
}

/// Read what a replay asks for from an image, and hand it over.
fn read_for(
    replay: &mut Replay,
    image: &Vec<u8>,
    offset: u64,
    len: usize,
    whole: Ghost<(Seq<u8>, Result<int, Error>)>,
) -> (r: Result<Action, Error>)
    requires
        on_course(*old(replay), ActionView::Read { offset, len }, image@, whole@),
    ensures
        final(replay).same_transaction(*old(replay)),
        match r {
            Ok(action) => {
                &&& on_course(*final(replay), action@, image@, whole@)
                &&& final(replay).at >= old(replay).at
                &&& final(replay).at > old(replay).at || action@ !is Read
            },
            Err(e) => whole@ == (image@, Err::<int, Error>(e)),
        },
{
    let ghost task = replay.stage@->Reading_0;
    proof {
        assert(replay.ops@.len() == replay.ops.len());
        law_transaction_goes_item_by_item(
            image@,
            replay.sb,
            replay.ops@,
            replay.lsn,
            replay.order,
            replay.at as int,
            replay.written as int,
        );
    }
    let buf = match read_image(image, offset, len) {
        Ok(buf) => buf,
        Err(e) => {
            return Err(e);
        },
    };
    let ghost outcome = task.outcome(replay.sb, replay.ops@, buf@, replay.lsn);
    let r = replay.read(buf);
    proof {
        if outcome == Ok::<Option<Seq<u8>>, Error>(None) {
            lemma_next_action(*replay, image@, asked(r), whole@);
        }
    }
    r
}

/// Write what a replay asks for into an image, and report it.
fn write_for(
    replay: &mut Replay,
    image: &mut Vec<u8>,
    offset: u64,
    bytes: &Vec<u8>,
    whole: Ghost<(Seq<u8>, Result<int, Error>)>,
) -> (r: Result<Action, Error>)
    requires
        on_course(
            *old(replay),
            ActionView::Write { offset, bytes: bytes@ },
            old(image)@,
            whole@,
        ),
    ensures
        final(replay).same_transaction(*old(replay)),
        final(replay).at > old(replay).at,
        match r {
            Ok(action) => on_course(*final(replay), action@, final(image)@, whole@),
            Err(e) => whole@ == (final(image)@, Err::<int, Error>(e)),
        },
{
    assert(image@.len() == image.len());
    put(image, offset as usize, bytes);
    let r = replay.wrote();
    proof {
        lemma_next_action(*replay, image@, asked(r), whole@);
    }
    r
}

/// Apply one transaction's items, logged by a machine of this byte order,
/// to the blocks and inodes of an image held in memory.
pub fn apply_transaction_in(
    image: &mut Vec<u8>,
    sb: &Superblock,
    ops: &[Op],
    lsn: u64,
    order: ByteOrder,
) -> (r: Result<usize, Error>)
    requires
        sb.valid(),
    ensures
        ({
            let (after, count) = applied(old(image)@, *sb, ops@, lsn, order, 0, 0);
            &&& final(image)@ == after
            &&& match r {
                Ok(n) => count == Ok::<int, Error>(n as int),
                Err(e) => count == Err::<int, Error>(e),
            }
        }),
{
    let ghost whole = applied(image@, *sb, ops@, lsn, order, 0, 0);
    let mut replay = Replay::new(sb, ops, lsn, order);
    let first = replay.begin();
    proof {
        lemma_next_action(replay, image@, asked(first), whole);
    }
    let mut action = match first {
        Ok(action) => action,
        Err(e) => {
            return Err(e);
        },
    };
    loop
        invariant
            whole == applied(old(image)@, *sb, ops@, lsn, order, 0, 0),
            on_course(replay, action@, image@, whole),
        decreases
            replay.ops.len() - replay.at,
            match action@ {
                ActionView::Read { .. } => 1int,
                _ => 0int,
            },
    {
        match action {
            Action::Finish { written } => {
                return Ok(written);
            },
            Action::Read { offset, len } => {
                action = match read_for(&mut replay, image, offset, len, Ghost(whole)) {
                    Ok(action) => action,
                    Err(e) => {
                        return Err(e);
                    },
                };
            },
            Action::Write { offset, bytes } => {
                action = match write_for(&mut replay, image, offset, &bytes, Ghost(whole)) {
                    Ok(action) => action,
                    Err(e) => {
                        return Err(e);
                    },
                };
            },
        }
    }
}

/// Apply one transaction's items, logged by this machine, to the blocks and
/// inodes of an image held in memory.
///
/// Returns how many byte runs were written: one per run of a buffer item
/// and one per inode applied. An item of a kind that cannot be applied is
/// refused, so there is never half a transaction with a success to show for
/// it. `lsn` is written into every object touched.
pub fn apply_transaction(image: &mut Vec<u8>, sb: &Superblock, ops: &[Op], lsn: u64) -> (r: Result<
    usize,
    Error,
>)
    requires
        sb.valid(),
    ensures
        ({
            let (after, count) = applied(
                old(image)@,
                *sb,
                ops@,
                lsn,
                ByteOrder::of_machine(),
                0,
                0,
            );
            &&& final(image)@ == after
            &&& match r {
                Ok(n) => count == Ok::<int, Error>(n as int),
                Err(e) => count == Err::<int, Error>(e),
            }
        }),
{
    apply_transaction_in(image, sb, ops, lsn, ByteOrder::native())
}

} // verus!
