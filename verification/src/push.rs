//! Pushing to a local target: objects first, then the branch, then the working tree.
use crate::objects::same_bytes;
use crate::reconcile::commit_view;
use crate::remote::{local_path, local_remote_path};
use crate::text::{concat, opt_text};
use crate::trusted::opt_bytes;
use vstd::prelude::*;

verus! {

/// Why `url` cannot be pushed to.
pub open spec fn push_refusal(url: Seq<char>) -> Seq<char> {
    "push to non-local remote "@ + url + " not supported (gix 0.84 has no pack send)"@
}

/// The path of the repository to push to. Only a local remote can be pushed to; for any other
/// the reason comes back.
pub fn push_target(url: &str) -> (r: Result<String, String>)
    ensures
        match r {
            Ok(path) => local_path(url@) == Some(path@),
            Err(message) => local_path(url@) is None && message@ == push_refusal(url@),
        },
{
    match local_remote_path(url) {
        Some(path) => Ok(path),
        None => {
            let mut message: String = concat("push to non-local remote ", url);
            message.append(" not supported (gix 0.84 has no pack send)");
            Err(message)
        },
    }
}

/// Why a target whose `branch` is at a commit that `HEAD` does not descend from is left alone.
pub open spec fn diverged(branch: Seq<char>) -> Seq<char> {
    "target branch "@ + branch + " has commits that HEAD lacks; cannot fast-forward it"@
}

/// What a push meets.
pub struct PushWorld {
    /// The commit that `HEAD` is at, if there is one.
    pub head: Option<Seq<u8>>,
    /// The branch that `HEAD` is on, if it is on one.
    pub branch: Option<Seq<char>>,
    /// What comes of opening the repository at a path.
    pub open: spec_fn(Seq<char>) -> Result<(), Seq<char>>,
    /// Where a branch of the target is.
    pub tip: spec_fn(Seq<char>) -> Option<Seq<u8>>,
    /// Whether the first commit is in the history of the second, as the proxy holds it.
    pub ancestor: spec_fn(Seq<u8>, Seq<u8>) -> bool,
    /// What comes of copying what the target lacks of what is reachable from a commit.
    pub copy: spec_fn(Seq<u8>) -> Result<(), Seq<char>>,
    /// What comes of moving a branch of the target to a commit.
    pub move_to: spec_fn(Seq<char>, Seq<u8>) -> Result<(), Seq<char>>,
    /// Whether the target has a working tree.
    pub has_workdir: bool,
    /// What comes of making the working tree of the target, which shows the commit that its
    /// branch was at, show a commit.
    pub materialize: spec_fn(Option<Seq<u8>>, Seq<u8>) -> Result<(), Seq<char>>,
}

/// What a push comes to once the branch of the target has moved.
pub open spec fn moved_outcome(world: PushWorld, tip: Option<Seq<u8>>, head: Seq<u8>) -> Result<
    (),
    Seq<char>,
> {
    if world.has_workdir {
        (world.materialize)(tip, head)
    } else {
        Ok(())
    }
}

/// What a push comes to once the objects are copied.
pub open spec fn copied_outcome(
    world: PushWorld,
    branch: Seq<char>,
    tip: Option<Seq<u8>>,
    head: Seq<u8>,
) -> Result<(), Seq<char>> {
    match (world.move_to)(branch, head) {
        Ok(_) => moved_outcome(world, tip, head),
        Err(e) => Err(e),
    }
}

/// Whether moving a branch from `tip` to `head` takes no commit from it.
pub open spec fn fast_forwards(world: PushWorld, tip: Option<Seq<u8>>, head: Seq<u8>) -> bool {
    match tip {
        Some(id) => (world.ancestor)(id, head),
        None => true,
    }
}

/// What a push comes to from the copying on.
pub open spec fn copy_outcome(
    world: PushWorld,
    branch: Seq<char>,
    tip: Option<Seq<u8>>,
    head: Seq<u8>,
) -> Result<(), Seq<char>> {
    match (world.copy)(head) {
        Ok(_) => copied_outcome(world, branch, tip, head),
        Err(e) => Err(e),
    }
}

/// What a push of the commit `head` comes to where the branch of the target is at `tip`, which is
/// another commit or none.
pub open spec fn forward_outcome(
    world: PushWorld,
    branch: Seq<char>,
    tip: Option<Seq<u8>>,
    head: Seq<u8>,
) -> Result<(), Seq<char>> {
    if fast_forwards(world, tip, head) {
        copy_outcome(world, branch, tip, head)
    } else {
        Err(diverged(branch))
    }
}

/// What a push of the commit `head` comes to where the branch of the target is at `tip`.
pub open spec fn publish_outcome(
    world: PushWorld,
    branch: Seq<char>,
    tip: Option<Seq<u8>>,
    head: Seq<u8>,
) -> Result<(), Seq<char>> {
    if tip == Some(head) {
        Ok(())
    } else {
        forward_outcome(world, branch, tip, head)
    }
}

/// What a push comes to once the target is known: `path` is where it lies.
pub open spec fn branch_outcome(
    world: PushWorld,
    path: Seq<char>,
    branch: Option<Seq<char>>,
    head: Seq<u8>,
) -> Result<(), Seq<char>> {
    match branch {
        None => Err("proxy HEAD is detached; cannot push"@),
        Some(b) => match (world.open)(path) {
            Ok(_) => publish_outcome(world, b, (world.tip)(b), head),
            Err(e) => Err(e),
        },
    }
}

/// What a push to the target at `path` comes to.
pub open spec fn target_outcome(world: PushWorld, path: Seq<char>) -> Result<(), Seq<char>> {
    match world.head {
        None => Ok(()),
        Some(head) => branch_outcome(world, path, world.branch, head),
    }
}

/// What a push to `url` comes to.
pub open spec fn push_outcome(world: PushWorld, url: Seq<char>) -> Result<(), Seq<char>> {
    match local_path(url) {
        Some(path) => target_outcome(world, path),
        None => Err(push_refusal(url)),
    }
}

/// A push that waits for an answer.
#[derive(Debug)]
pub enum Push {
    /// Waits for the commit that `HEAD` is at.
    Head { path: String },
    /// Waits for the branch that `HEAD` is on.
    Branch { path: String, head: Vec<u8> },
    /// Waits for the target to be opened.
    Open { path: String, branch: String, head: Vec<u8> },
    /// Waits for where the branch of the target is.
    Tip { branch: String, head: Vec<u8> },
    /// Waits for whether the commit that the target is at is in the history of `HEAD`.
    Ancestor { branch: String, tip: Vec<u8>, head: Vec<u8> },
    /// Waits for the objects to be copied.
    Copy { branch: String, tip: Option<Vec<u8>>, head: Vec<u8> },
    /// Waits for the branch of the target to move.
    Move { branch: String, tip: Option<Vec<u8>>, head: Vec<u8> },
    /// Waits for whether the target has a working tree.
    Workdir { tip: Option<Vec<u8>>, head: Vec<u8> },
    /// Waits for the working tree of the target to show the commit.
    Materialize { tip: Option<Vec<u8>>, head: Vec<u8> },
}

/// What a push asks.
#[derive(Debug)]
pub enum PushAsk {
    /// Which commit is `HEAD` at?
    Head,
    /// Which branch is `HEAD` on?
    Branch,
    /// Open the target at this path.
    Open { path: String },
    /// Where is this branch of the target?
    Tip { branch: String },
    /// Is `tip` in the history of `head`?
    Ancestor { tip: Vec<u8>, head: Vec<u8> },
    /// Copy what the target lacks of what is reachable from this commit.
    Copy { start: Vec<u8> },
    /// Move this branch of the target.
    Move { branch: String, to: Vec<u8> },
    /// Has the target a working tree?
    Workdir,
    /// Make the working tree of the target, which shows `shown`, show `commit`.
    Materialize { shown: Option<Vec<u8>>, commit: Vec<u8> },
}

/// What a push asks.
pub enum PushAskView {
    Head,
    Branch,
    Open { path: Seq<char> },
    Tip { branch: Seq<char> },
    Ancestor { tip: Seq<u8>, head: Seq<u8> },
    Copy { start: Seq<u8> },
    Move { branch: Seq<char>, to: Seq<u8> },
    Workdir,
    Materialize { shown: Option<Seq<u8>>, commit: Seq<u8> },
}

impl View for PushAsk {
    type V = PushAskView;

    open spec fn view(&self) -> PushAskView {
        match *self {
            PushAsk::Head => PushAskView::Head,
            PushAsk::Branch => PushAskView::Branch,
            PushAsk::Open { path } => PushAskView::Open { path: path@ },
            PushAsk::Tip { branch } => PushAskView::Tip { branch: branch@ },
            PushAsk::Ancestor { tip, head } => PushAskView::Ancestor { tip: tip@, head: head@ },
            PushAsk::Copy { start } => PushAskView::Copy { start: start@ },
            PushAsk::Move { branch, to } => PushAskView::Move { branch: branch@, to: to@ },
            PushAsk::Workdir => PushAskView::Workdir,
            PushAsk::Materialize { shown, commit } => PushAskView::Materialize {
                shown: opt_bytes(shown),
                commit: commit@,
            },
        }
    }
}

/// The answer to what a push asks.
#[derive(Debug)]
pub enum PushAnswer {
    /// To `Head` and `Tip`.
    Id(Option<Vec<u8>>),
    /// To `Branch`.
    Branch(Option<String>),
    /// To `Ancestor`.
    Ancestor(bool),
    /// To `Open`, `Copy`, `Move` and `Materialize`; a failure comes with its message.
    Finished(Result<(), String>),
    /// To `Workdir`.
    Workdir(bool),
}

impl PushAskView {
    /// Whether `answer` is of the kind that is asked for.
    pub open spec fn fits(self, answer: PushAnswer) -> bool {
        match self {
            PushAskView::Head => answer is Id,
            PushAskView::Branch => answer is Branch,
            PushAskView::Open { .. } => answer is Finished,
            PushAskView::Tip { .. } => answer is Id,
            PushAskView::Ancestor { .. } => answer is Ancestor,
            PushAskView::Copy { .. } => answer is Finished,
            PushAskView::Move { .. } => answer is Finished,
            PushAskView::Workdir => answer is Workdir,
            PushAskView::Materialize { .. } => answer is Finished,
        }
    }

    /// Whether `answer` is what the push meets in `world`.
    pub open spec fn answered(self, world: PushWorld, answer: PushAnswer) -> bool {
        match (self, answer) {
            (PushAskView::Head, PushAnswer::Id(id)) => opt_bytes(id) == world.head,
            (PushAskView::Branch, PushAnswer::Branch(b)) => opt_text(b) == world.branch,
            (PushAskView::Open { path }, PushAnswer::Finished(r)) => commit_view(r) == (world.open)(
                path,
            ),
            (PushAskView::Tip { branch }, PushAnswer::Id(id)) => opt_bytes(id) == (world.tip)(
                branch,
            ),
            (PushAskView::Ancestor { tip, head }, PushAnswer::Ancestor(b)) => b == (
            world.ancestor)(tip, head),
            (PushAskView::Copy { start }, PushAnswer::Finished(r)) => commit_view(r) == (
            world.copy)(start),
            (PushAskView::Move { branch, to }, PushAnswer::Finished(r)) => commit_view(r) == (
            world.move_to)(branch, to),
            (PushAskView::Workdir, PushAnswer::Workdir(b)) => b == world.has_workdir,
            (
                PushAskView::Materialize { shown, commit },
                PushAnswer::Finished(r),
            ) => commit_view(r) == (world.materialize)(shown, commit),
            _ => false,
        }
    }
}

/// What a push comes to next.
#[derive(Debug)]
pub enum PushTurn {
    /// It waits.
    Ask(Push),
    /// It is over; a failure comes with its message.
    Done(Result<(), String>),
}

impl PushTurn {
    /// What the turn leads to in `world`.
    pub open spec fn outcome(self, world: PushWorld) -> Result<(), Seq<char>> {
        match self {
            PushTurn::Ask(push) => push.outcome(world),
            PushTurn::Done(r) => commit_view(r),
        }
    }
}

impl Push {
    /// What the push leads to in `world`.
    pub open spec fn outcome(self, world: PushWorld) -> Result<(), Seq<char>> {
        match self {
            Push::Head { path } => target_outcome(world, path@),
            Push::Branch { path, head } => branch_outcome(world, path@, world.branch, head@),
            Push::Open { path, branch, head } => branch_outcome(
                world,
                path@,
                Some(branch@),
                head@,
            ),
            Push::Tip { branch, head } => publish_outcome(
                world,
                branch@,
                (world.tip)(branch@),
                head@,
            ),
            Push::Ancestor { branch, tip, head } => forward_outcome(
                world,
                branch@,
                Some(tip@),
                head@,
            ),
            Push::Copy { branch, tip, head } => copy_outcome(
                world,
                branch@,
                opt_bytes(tip),
                head@,
            ),
            Push::Move { branch, tip, head } => copied_outcome(
                world,
                branch@,
                opt_bytes(tip),
                head@,
            ),
            Push::Workdir { tip, head } => moved_outcome(world, opt_bytes(tip), head@),
            Push::Materialize { tip, head } => (world.materialize)(opt_bytes(tip), head@),
        }
    }

    /// What the push asks.
    pub open spec fn asked(self) -> PushAskView {
        match self {
            Push::Head { .. } => PushAskView::Head,
            Push::Branch { .. } => PushAskView::Branch,
            Push::Open { path, .. } => PushAskView::Open { path: path@ },
            Push::Tip { branch, .. } => PushAskView::Tip { branch: branch@ },
            Push::Ancestor { tip, head, .. } => PushAskView::Ancestor { tip: tip@, head: head@ },
            Push::Copy { head, .. } => PushAskView::Copy { start: head@ },
            Push::Move { branch, head, .. } => PushAskView::Move { branch: branch@, to: head@ },
            Push::Workdir { .. } => PushAskView::Workdir,
            Push::Materialize { tip, head } => PushAskView::Materialize {
                shown: opt_bytes(tip),
                commit: head@,
            },
        }
    }

    /// How many answers it can still take.
    pub open spec fn remaining(self) -> nat {
        match self {
            Push::Head { .. } => 9,
            Push::Branch { .. } => 8,
            Push::Open { .. } => 7,
            Push::Tip { .. } => 6,
            Push::Ancestor { .. } => 5,
            Push::Copy { .. } => 4,
            Push::Move { .. } => 3,
            Push::Workdir { .. } => 2,
            Push::Materialize { .. } => 1,
        }
    }

    /// What to find out, or to do, next.
    pub fn ask(&self) -> (r: PushAsk)
        ensures
            r@ == self.asked(),
    {
        match self {
            Push::Head { .. } => PushAsk::Head,
            Push::Branch { .. } => PushAsk::Branch,
            Push::Open { path, .. } => PushAsk::Open { path: path.clone() },
            Push::Tip { branch, .. } => PushAsk::Tip { branch: branch.clone() },
            Push::Ancestor { tip, head, .. } => PushAsk::Ancestor {
                tip: tip.clone(),
                head: head.clone(),
            },
            Push::Copy { head, .. } => PushAsk::Copy { start: head.clone() },
            Push::Move { branch, head, .. } => PushAsk::Move {
                branch: branch.clone(),
                to: head.clone(),
            },
            Push::Workdir { .. } => PushAsk::Workdir,
            Push::Materialize { tip, head } => {
                let shown: Option<Vec<u8>> = match tip {
                    Some(id) => Some(id.clone()),
                    None => None,
                };
                PushAsk::Materialize { shown, commit: head.clone() }
            },
        }
    }

    /// Goes on with the answer. What the push really meets does not change what it comes to.
    /// Objects are copied only where the target has no such branch yet or `HEAD` descends from
    /// where it is; the branch moves only once they are copied, and the working tree of the target
    /// is touched only once the branch has moved.
    pub fn resume(self, answer: PushAnswer) -> (turn: PushTurn)
        requires
            self.asked().fits(answer),
        ensures
            forall|world: PushWorld|
                self.asked().answered(world, answer) ==> (#[trigger] turn.outcome(world))
                    == self.outcome(world),
            turn matches PushTurn::Ask(next) ==> next.remaining() < self.remaining(),
            turn matches PushTurn::Ask(next) && next is Ancestor ==> (self matches Push::Tip {
                head,
                ..
            } && (answer matches PushAnswer::Id(Some(tip)) && tip@ != head@)),
            turn matches PushTurn::Ask(next) && next is Copy ==> {
                ||| self is Tip && answer == PushAnswer::Id(None)
                ||| self is Ancestor && answer == PushAnswer::Ancestor(true)
            },
            turn matches PushTurn::Ask(next) && next is Move ==> self is Copy && (
            answer matches PushAnswer::Finished(Ok(_))),
            turn matches PushTurn::Ask(next) && next is Workdir ==> self is Move && (
            answer matches PushAnswer::Finished(Ok(_))),
            turn matches PushTurn::Ask(next) && next is Materialize ==> self is Workdir,
    {
        match (self, answer) {
            (Push::Head { path }, PushAnswer::Id(Some(head))) => PushTurn::Ask(
                Push::Branch { path, head },
            ),
            (Push::Head { .. }, PushAnswer::Id(None)) => PushTurn::Done(Ok(())),
            (Push::Branch { path, head }, PushAnswer::Branch(Some(branch))) => PushTurn::Ask(
                Push::Open { path, branch, head },
            ),
            (Push::Branch { .. }, PushAnswer::Branch(None)) => PushTurn::Done(
                Err("proxy HEAD is detached; cannot push".to_owned()),
            ),
            (Push::Open { branch, head, .. }, PushAnswer::Finished(Ok(_))) => PushTurn::Ask(
                Push::Tip { branch, head },
            ),
            (Push::Tip { branch, head }, PushAnswer::Id(None)) => PushTurn::Ask(
                Push::Copy { branch, tip: None, head },
            ),
            (Push::Tip { branch, head }, PushAnswer::Id(Some(tip))) => {
                if same_bytes(&tip, &head) {
                    PushTurn::Done(Ok(()))
                } else {
                    PushTurn::Ask(Push::Ancestor { branch, tip, head })
                }
            },
            (Push::Ancestor { branch, tip, head }, PushAnswer::Ancestor(descends)) => {
                if descends {
                    PushTurn::Ask(Push::Copy { branch, tip: Some(tip), head })
                } else {
                    let mut message: String = concat("target branch ", &branch);
                    message.append(" has commits that HEAD lacks; cannot fast-forward it");
                    PushTurn::Done(Err(message))
                }
            },
            (Push::Copy { branch, tip, head }, PushAnswer::Finished(Ok(_))) => PushTurn::Ask(
                Push::Move { branch, tip, head },
            ),
            (Push::Move { tip, head, .. }, PushAnswer::Finished(Ok(_))) => PushTurn::Ask(
                Push::Workdir { tip, head },
            ),
            (Push::Workdir { tip, head }, PushAnswer::Workdir(has_workdir)) => {
                if has_workdir {
                    PushTurn::Ask(Push::Materialize { tip, head })
                } else {
                    PushTurn::Done(Ok(()))
                }
            },
            (_, PushAnswer::Finished(r)) => PushTurn::Done(r),
            _ => PushTurn::Done(Ok(())),
        }
    }
}

/// Starts pushing the proxy's `HEAD` back to `url`. Only a local target can be pushed to. The
/// push does nothing where there is no commit yet or the target is already at it, and fails where
/// `HEAD` is on no branch or the target has commits that `HEAD` lacks: a branch of the target is
/// only ever fast-forwarded.
pub fn push(url: &str) -> (turn: PushTurn)
    ensures
        forall|world: PushWorld| #[trigger] turn.outcome(world) == push_outcome(world, url@),
        turn is Ask <==> local_path(url@) is Some,
{
    match push_target(url) {
        Ok(path) => PushTurn::Ask(Push::Head { path }),
        Err(message) => PushTurn::Done(Err(message)),
    }
}

/// Pushing a commit that the target is already at succeeds and does nothing: it does not matter
/// what copying, moving and materializing would come to.
pub proof fn law_pushing_again_does_nothing(world: PushWorld, url: Seq<char>)
    requires
        local_path(url) is Some,
        world.branch is Some,
        (world.open)(local_path(url)->0) is Ok,
        world.head is Some,
        (world.tip)(world.branch->0) == world.head,
    ensures
        push_outcome(world, url) == Ok::<(), Seq<char>>(()),
{
}

/// A push that succeeds has published the commit, where there is one: the target was at it
/// already, or what it lacked was copied, its branch was moved, from nothing or from a commit in
/// the history of `HEAD`, and its working tree, if it has one, was made to show the commit.
pub proof fn law_successful_push_publishes_head(world: PushWorld, url: Seq<char>)
    requires
        push_outcome(world, url) is Ok,
        world.head is Some,
    ensures
        local_path(url) is Some,
        world.branch is Some,
        ({
            let head = world.head->0;
            let branch = world.branch->0;
            ||| (world.tip)(branch) == Some(head)
            ||| {
                &&& fast_forwards(world, (world.tip)(branch), head)
                &&& (world.copy)(head) is Ok
                &&& (world.move_to)(branch, head) is Ok
                &&& world.has_workdir ==> (world.materialize)((world.tip)(branch), head) is Ok
            }
        }),
{
}

/// A push only fast-forwards: where the target is at a commit that is not in the history of
/// `HEAD`, the push fails, whatever copying, moving and materializing would come to.
pub proof fn law_push_only_fast_forwards(
    world: PushWorld,
    other: PushWorld,
    url: Seq<char>,
    head: Seq<u8>,
    branch: Seq<char>,
    tip: Seq<u8>,
)
    requires
        local_path(url) is Some,
        (world.open)(local_path(url)->0) is Ok,
        world.head == Some(head),
        world.branch == Some(branch),
        (world.tip)(branch) == Some(tip),
        tip != head,
        !(world.ancestor)(tip, head),
        other.head == world.head,
        other.branch == world.branch,
        other.open == world.open,
        other.tip == world.tip,
        other.ancestor == world.ancestor,
    ensures
        push_outcome(world, url) == Err::<(), Seq<char>>(diverged(branch)),
        push_outcome(other, url) == push_outcome(world, url),
{
}

/// A network remote is never pushed to: the push fails, whatever the proxy and the target are,
/// and the commits stay local.
pub proof fn law_network_push_is_refused(world: PushWorld, url: Seq<char>)
    requires
        local_path(url) is None,
    ensures
        push_outcome(world, url) == Err::<(), Seq<char>>(push_refusal(url)),
{
}

/// A push goes from one thing to the next, and the first that fails ends it with its own message:
/// without a commit there is nothing to do; off a branch it is refused; the target is opened where
/// the remote says; what is reachable from `HEAD` is copied; the branch that `HEAD` is on is moved
/// to the commit that `HEAD` is at; and the working tree is made to show that commit.
pub proof fn law_push_fails_at_the_first_failure(
    world: PushWorld,
    url: Seq<char>,
    path: Seq<char>,
    head: Seq<u8>,
    branch: Seq<char>,
    e: Seq<char>,
)
    requires
        local_path(url) == Some(path),
    ensures
        world.head is None ==> push_outcome(world, url) == Ok::<(), Seq<char>>(()),
        world.head is Some && world.branch is None ==> push_outcome(world, url) == Err::<
            (),
            Seq<char>,
        >("proxy HEAD is detached; cannot push"@),
        world.head == Some(head) && world.branch == Some(branch) ==> {
            let opened = (world.open)(path);
            let tip = (world.tip)(branch);
            let ahead = opened is Ok && tip != Some(head) && (tip is None || (world.ancestor)(
                tip->0,
                head,
            ));
            let copied = ahead && (world.copy)(head) is Ok;
            let moved = copied && (world.move_to)(branch, head) is Ok;
            &&& opened == Err::<(), Seq<char>>(e) ==> push_outcome(world, url) == Err::<
                (),
                Seq<char>,
            >(e)
            &&& opened is Ok && tip == Some(head) ==> push_outcome(world, url) is Ok
            &&& opened is Ok && tip is Some && tip != Some(head) && !(world.ancestor)(
                tip->0,
                head,
            ) ==> push_outcome(world, url) == Err::<(), Seq<char>>(
                "target branch "@ + branch
                    + " has commits that HEAD lacks; cannot fast-forward it"@,
            )
            &&& ahead && (world.copy)(head) == Err::<(), Seq<char>>(e) ==> push_outcome(world, url)
                == Err::<(), Seq<char>>(e)
            &&& copied && (world.move_to)(branch, head) == Err::<(), Seq<char>>(e)
                ==> push_outcome(world, url) == Err::<(), Seq<char>>(e)
            &&& moved && world.has_workdir ==> push_outcome(world, url) == (world.materialize)(
                tip,
                head,
            )
            &&& moved && !world.has_workdir ==> push_outcome(world, url) is Ok
        },
{
}

/// What cannot be pushed to is refused by name.
pub proof fn law_refusal_names_the_remote(world: PushWorld, url: Seq<char>)
    requires
        local_path(url) is None,
    ensures
        push_outcome(world, url) == Err::<(), Seq<char>>(
            "push to non-local remote "@ + url + " not supported (gix 0.84 has no pack send)"@,
        ),
{
}

/// An answer is taken for what it says: it is right exactly in the worlds that give it.
pub proof fn law_push_answers_are_taken_as_they_are(
    world: PushWorld,
    name: Seq<char>,
    id: Seq<u8>,
    other: Seq<u8>,
    shown: Option<Seq<u8>>,
    data: Vec<u8>,
    text: String,
    flag: bool,
)
    ensures
        PushAskView::Head.answered(world, PushAnswer::Id(Some(data))) <==> world.head == Some(
            data@,
        ),
        PushAskView::Head.answered(world, PushAnswer::Id(None)) <==> world.head is None,
        PushAskView::Branch.answered(world, PushAnswer::Branch(Some(text))) <==> world.branch
            == Some(text@),
        PushAskView::Branch.answered(world, PushAnswer::Branch(None)) <==> world.branch is None,
        (PushAskView::Open { path: name }).answered(world, PushAnswer::Finished(Ok(()))) <==> (
        world.open)(name) is Ok,
        (PushAskView::Open { path: name }).answered(world, PushAnswer::Finished(Err(text))) <==> (
        world.open)(name) == Err::<(), Seq<char>>(text@),
        (PushAskView::Tip { branch: name }).answered(world, PushAnswer::Id(Some(data))) <==> (
        world.tip)(name) == Some(data@),
        (PushAskView::Tip { branch: name }).answered(world, PushAnswer::Id(None)) <==> (world.tip)(
            name,
        ) is None,
        (PushAskView::Ancestor { tip: id, head: other }).answered(
            world,
            PushAnswer::Ancestor(flag),
        ) <==> (world.ancestor)(id, other) == flag,
        (PushAskView::Copy { start: id }).answered(world, PushAnswer::Finished(Ok(()))) <==> (
        world.copy)(id) is Ok,
        (PushAskView::Copy { start: id }).answered(world, PushAnswer::Finished(Err(text))) <==> (
        world.copy)(id) == Err::<(), Seq<char>>(text@),
        (PushAskView::Move { branch: name, to: id }).answered(
            world,
            PushAnswer::Finished(Ok(())),
        ) <==> (world.move_to)(name, id) is Ok,
        (PushAskView::Move { branch: name, to: id }).answered(
            world,
            PushAnswer::Finished(Err(text)),
        ) <==> (world.move_to)(name, id) == Err::<(), Seq<char>>(text@),
        PushAskView::Workdir.answered(world, PushAnswer::Workdir(flag)) <==> world.has_workdir
            == flag,
        (PushAskView::Materialize { shown, commit: id }).answered(
            world,
            PushAnswer::Finished(Ok(())),
        ) <==> (world.materialize)(shown, id) is Ok,
        (PushAskView::Materialize { shown, commit: id }).answered(
            world,
            PushAnswer::Finished(Err(text)),
        ) <==> (world.materialize)(shown, id) == Err::<(), Seq<char>>(text@),
{
    if let Ok(done) = (world.open)(name) {
        assert(done == ());
    }
    if let Ok(done) = (world.copy)(id) {
        assert(done == ());
    }
    if let Ok(done) = (world.move_to)(name, id) {
        assert(done == ());
    }
    if let Ok(done) = (world.materialize)(shown, id) {
        assert(done == ());
    }
}

/// What a push ends with is what it comes to.
pub proof fn law_push_ends_with_what_it_reports(world: PushWorld, message: String)
    ensures
        PushTurn::Done(Ok(())).outcome(world) == Ok::<(), Seq<char>>(()),
        PushTurn::Done(Err(message)).outcome(world) == Err::<(), Seq<char>>(message@),
{
}

} // verus!
