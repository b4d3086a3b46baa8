//! Shallow fetches: bringing the latest of one branch, and checking it out if the remote has
//! advanced.
use crate::objects::same_id;
use crate::reconcile::commit_view;
use crate::text::concat;
use crate::trusted::opt_bytes;
use vstd::prelude::*;

verus! {

/// Default shallow-clone depth. One commit is enough to project the current tree.
pub const DEFAULT_DEPTH: u32 = 1;

/// The depth to clone or fetch at: at least one commit.
pub fn shallow_depth(depth: u32) -> (r: u32)
    ensures
        r == if depth == 0 {
            1
        } else {
            depth
        },
        r >= 1,
        r == depth_of(depth),
{
    if depth == 0 {
        1
    } else {
        depth
    }
}

/// The reference that tracks `branch`.
pub open spec fn track_ref(branch: Seq<char>) -> Seq<char> {
    "refs/remotes/origin/"@ + branch
}

/// The forced update of the tracking reference of `branch`.
pub open spec fn fetch_refspec(branch: Seq<char>) -> Seq<char> {
    "+refs/heads/"@ + branch + ":"@ + track_ref(branch)
}

/// Where the checked-out branch goes after a fetch that found the tracking reference at `before`
/// and left it at `after`: to the fetched tip, but only if the remote has advanced and `HEAD` is
/// on a branch. The branch is re-pointed at the tip wherever it was: a shallow fetch brings the tip
/// without its history, so whether it descends from `HEAD` cannot be told. A remote that has not
/// advanced leaves local commits where they are, and the scheduler asks for no fetch while a push
/// is owed.
pub open spec fn advance_to(
    before: Option<Seq<u8>>,
    after: Option<Seq<u8>>,
    on_branch: bool,
) -> Option<Seq<u8>> {
    if before != after && on_branch {
        after
    } else {
        None
    }
}

/// Where to move the checked-out branch after a fetch, if it has to move at all.
pub fn fast_forward(
    before: &Option<Vec<u8>>,
    after: Option<Vec<u8>>,
    on_branch: bool,
) -> (r: Option<Vec<u8>>)
    ensures
        opt_bytes(r) == advance_to(opt_bytes(*before), opt_bytes(after), on_branch),
{
    if on_branch && !same_id(before, &after) {
        after
    } else {
        None
    }
}

/// Whether `HEAD`, which was at `head`, moved when its branch was moved to `to`.
pub open spec fn moved(head: Option<Seq<u8>>, to: Option<Seq<u8>>) -> bool {
    to is Some && to != head
}

/// Whether `HEAD`, which was at `head`, moved when its branch was moved to `to`.
pub fn head_moved(head: &Option<Vec<u8>>, to: &Option<Vec<u8>>) -> (r: bool)
    ensures
        r == moved(opt_bytes(*head), opt_bytes(*to)),
{
    match to {
        Some(_) => !same_id(head, to),
        None => false,
    }
}

/// Where a fetch brings objects from.
#[derive(Debug)]
pub enum FetchSource {
    /// The `origin` remote of the repository.
    Origin,
    /// The given URL.
    Url(String),
}

/// Where a fetch brings objects from.
pub enum FetchSourceView {
    Origin,
    Url(Seq<char>),
}

impl View for FetchSource {
    type V = FetchSourceView;

    open spec fn view(&self) -> FetchSourceView {
        match *self {
            FetchSource::Origin => FetchSourceView::Origin,
            FetchSource::Url(url) => FetchSourceView::Url(url@),
        }
    }
}

/// What a fetch meets.
pub struct FetchWorld {
    /// Where a reference is before objects are received.
    pub before: spec_fn(Seq<char>) -> Option<Seq<u8>>,
    /// Whether there is an `origin` remote.
    pub has_origin: bool,
    /// What comes of receiving a refspec at a depth.
    pub receive: spec_fn(FetchSourceView, Seq<char>, u32) -> Result<(), Seq<char>>,
    /// Where a reference is after objects were received.
    pub after: spec_fn(Seq<char>) -> Option<Seq<u8>>,
    /// Whether `HEAD` is on a branch.
    pub on_branch: bool,
    /// Where `HEAD` is.
    pub head: Option<Seq<u8>>,
    /// What comes of moving the branch that `HEAD` is on.
    pub move_to: spec_fn(Seq<u8>) -> Result<(), Seq<char>>,
}

/// Where a fetch of `url` brings objects from: from `origin` if there is one.
pub open spec fn source_of(has_origin: bool, url: Seq<char>) -> FetchSourceView {
    if has_origin {
        FetchSourceView::Origin
    } else {
        FetchSourceView::Url(url)
    }
}

/// The depth to bring: at least one commit.
pub open spec fn depth_of(depth: u32) -> u32 {
    if depth == 0 {
        1
    } else {
        depth
    }
}

/// What a fetch comes to once the tracking reference was at `before` and is at `after`: whether
/// `HEAD` moved.
pub open spec fn received_outcome(
    world: FetchWorld,
    before: Option<Seq<u8>>,
    after: Option<Seq<u8>>,
) -> Result<bool, Seq<char>> {
    match advance_to(before, after, world.on_branch) {
        Some(tip) => match (world.move_to)(tip) {
            Ok(_) => Ok(moved(world.head, Some(tip))),
            Err(e) => Err(e),
        },
        None => Ok(false),
    }
}

/// What a fetch comes to once the objects are to be received.
pub open spec fn receive_outcome(
    world: FetchWorld,
    source: FetchSourceView,
    branch: Seq<char>,
    depth: u32,
    before: Option<Seq<u8>>,
) -> Result<bool, Seq<char>> {
    match (world.receive)(source, fetch_refspec(branch), depth_of(depth)) {
        Ok(_) => received_outcome(world, before, (world.after)(track_ref(branch))),
        Err(e) => Err(e),
    }
}

/// What a fetch of `branch` from `url` at `depth` comes to: whether `HEAD` moved, or why it
/// failed.
pub open spec fn fetch_outcome(
    world: FetchWorld,
    url: Seq<char>,
    branch: Seq<char>,
    depth: u32,
) -> Result<bool, Seq<char>> {
    receive_outcome(
        world,
        source_of(world.has_origin, url),
        branch,
        depth,
        (world.before)(track_ref(branch)),
    )
}

/// A fetch that waits for an answer.
#[derive(Debug)]
pub enum Fetch {
    /// Waits for where the tracking reference is.
    Before { url: String, branch: String, depth: u32 },
    /// Waits for whether there is an `origin` remote.
    Origin { url: String, branch: String, depth: u32, before: Option<Vec<u8>> },
    /// Waits for the objects.
    Receive { source: FetchSource, branch: String, depth: u32, before: Option<Vec<u8>> },
    /// Waits for where the tracking reference is now.
    After { branch: String, before: Option<Vec<u8>> },
    /// Waits for where `HEAD` is.
    Head { before: Option<Vec<u8>>, after: Option<Vec<u8>> },
    /// Waits for the branch to move.
    Move { head: Option<Vec<u8>>, tip: Vec<u8> },
}

/// What a fetch asks.
#[derive(Debug)]
pub enum FetchAsk {
    /// Where is this reference?
    Reference { name: String },
    /// Is there an `origin` remote?
    HasOrigin,
    /// Receive the refspec at this depth, and nothing deeper.
    Receive { source: FetchSource, refspec: String, depth: u32 },
    /// Where is this reference, now that objects were received?
    ReferenceNow { name: String },
    /// Where is `HEAD`, and is it on a branch?
    Head,
    /// Move the branch that `HEAD` is on.
    MoveHead { to: Vec<u8> },
}

/// What a fetch asks.
pub enum FetchAskView {
    Reference { name: Seq<char> },
    HasOrigin,
    Receive { source: FetchSourceView, refspec: Seq<char>, depth: u32 },
    ReferenceNow { name: Seq<char> },
    Head,
    MoveHead { to: Seq<u8> },
}

impl View for FetchAsk {
    type V = FetchAskView;

    open spec fn view(&self) -> FetchAskView {
        match *self {
            FetchAsk::Reference { name } => FetchAskView::Reference { name: name@ },
            FetchAsk::HasOrigin => FetchAskView::HasOrigin,
            FetchAsk::Receive { source, refspec, depth } => FetchAskView::Receive {
                source: source@,
                refspec: refspec@,
                depth,
            },
            FetchAsk::ReferenceNow { name } => FetchAskView::ReferenceNow { name: name@ },
            FetchAsk::Head => FetchAskView::Head,
            FetchAsk::MoveHead { to } => FetchAskView::MoveHead { to: to@ },
        }
    }
}

/// The answer to what a fetch asks.
#[derive(Debug)]
pub enum FetchAnswer {
    /// To `Reference` and `ReferenceNow`.
    Reference(Option<Vec<u8>>),
    /// To `HasOrigin`.
    HasOrigin(bool),
    /// To `Receive` and `MoveHead`; a failure comes with its message.
    Finished(Result<(), String>),
    /// To `Head`.
    Head { on_branch: bool, id: Option<Vec<u8>> },
}

impl FetchAskView {
    /// Whether `answer` is of the kind that is asked for.
    pub open spec fn fits(self, answer: FetchAnswer) -> bool {
        match self {
            FetchAskView::Reference { .. } => answer is Reference,
            FetchAskView::HasOrigin => answer is HasOrigin,
            FetchAskView::Receive { .. } => answer is Finished,
            FetchAskView::ReferenceNow { .. } => answer is Reference,
            FetchAskView::Head => answer is Head,
            FetchAskView::MoveHead { .. } => answer is Finished,
        }
    }

    /// Whether `answer` is what the fetch meets in `world`.
    pub open spec fn answered(self, world: FetchWorld, answer: FetchAnswer) -> bool {
        match (self, answer) {
            (FetchAskView::Reference { name }, FetchAnswer::Reference(id)) => opt_bytes(id) == (
            world.before)(name),
            (FetchAskView::HasOrigin, FetchAnswer::HasOrigin(b)) => b == world.has_origin,
            (
                FetchAskView::Receive { source, refspec, depth },
                FetchAnswer::Finished(r),
            ) => commit_view(r) == (world.receive)(source, refspec, depth),
            (FetchAskView::ReferenceNow { name }, FetchAnswer::Reference(id)) => opt_bytes(id) == (
            world.after)(name),
            (FetchAskView::Head, FetchAnswer::Head { on_branch, id }) => on_branch
                == world.on_branch && opt_bytes(id) == world.head,
            (FetchAskView::MoveHead { to }, FetchAnswer::Finished(r)) => commit_view(r) == (
            world.move_to)(to),
            _ => false,
        }
    }
}

/// What a fetch comes to next.
#[derive(Debug)]
pub enum FetchTurn {
    /// It waits.
    Ask(Fetch),
    /// It is over: whether `HEAD` moved; a failure comes with its message.
    Done(Result<bool, String>),
}

impl FetchTurn {
    /// What the turn leads to in `world`.
    pub open spec fn outcome(self, world: FetchWorld) -> Result<bool, Seq<char>> {
        match self {
            FetchTurn::Ask(fetch) => fetch.outcome(world),
            FetchTurn::Done(Ok(b)) => Ok(b),
            FetchTurn::Done(Err(e)) => Err(e@),
        }
    }
}

impl Fetch {
    /// What the fetch leads to in `world`.
    pub open spec fn outcome(self, world: FetchWorld) -> Result<bool, Seq<char>> {
        match self {
            Fetch::Before { url, branch, depth } => fetch_outcome(world, url@, branch@, depth),
            Fetch::Origin { url, branch, depth, before } => receive_outcome(
                world,
                source_of(world.has_origin, url@),
                branch@,
                depth,
                opt_bytes(before),
            ),
            Fetch::Receive { source, branch, depth, before } => receive_outcome(
                world,
                source@,
                branch@,
                depth,
                opt_bytes(before),
            ),
            Fetch::After { branch, before } => received_outcome(
                world,
                opt_bytes(before),
                (world.after)(track_ref(branch@)),
            ),
            Fetch::Head { before, after } => received_outcome(
                world,
                opt_bytes(before),
                opt_bytes(after),
            ),
            Fetch::Move { head, tip } => match (world.move_to)(tip@) {
                Ok(_) => Ok(moved(opt_bytes(head), Some(tip@))),
                Err(e) => Err(e),
            },
        }
    }

    /// What the fetch asks.
    pub open spec fn asked(self) -> FetchAskView {
        match self {
            Fetch::Before { branch, .. } => FetchAskView::Reference { name: track_ref(branch@) },
            Fetch::Origin { .. } => FetchAskView::HasOrigin,
            Fetch::Receive { source, branch, depth, .. } => FetchAskView::Receive {
                source: source@,
                refspec: fetch_refspec(branch@),
                depth: depth_of(depth),
            },
            Fetch::After { branch, .. } => FetchAskView::ReferenceNow { name: track_ref(branch@) },
            Fetch::Head { .. } => FetchAskView::Head,
            Fetch::Move { tip, .. } => FetchAskView::MoveHead { to: tip@ },
        }
    }

    /// How many answers it can still take.
    pub open spec fn remaining(self) -> nat {
        match self {
            Fetch::Before { .. } => 6,
            Fetch::Origin { .. } => 5,
            Fetch::Receive { .. } => 4,
            Fetch::After { .. } => 3,
            Fetch::Head { .. } => 2,
            Fetch::Move { .. } => 1,
        }
    }

    /// What to find out, or to do, next.
    pub fn ask(&self) -> (r: FetchAsk)
        ensures
            r@ == self.asked(),
    {
        match self {
            Fetch::Before { branch, .. } => FetchAsk::Reference {
                name: concat("refs/remotes/origin/", branch.as_str()),
            },
            Fetch::Origin { .. } => FetchAsk::HasOrigin,
            Fetch::Receive { source, branch, depth, .. } => {
                let track: String = concat("refs/remotes/origin/", branch.as_str());
                let mut refspec: String = concat("+refs/heads/", branch.as_str());
                refspec.append(":");
                refspec.append(track.as_str());
                let source: FetchSource = match source {
                    FetchSource::Origin => FetchSource::Origin,
                    FetchSource::Url(url) => FetchSource::Url(url.clone()),
                };
                FetchAsk::Receive { source, refspec, depth: shallow_depth(*depth) }
            },
            Fetch::After { branch, .. } => FetchAsk::ReferenceNow {
                name: concat("refs/remotes/origin/", branch.as_str()),
            },
            Fetch::Head { .. } => FetchAsk::Head,
            Fetch::Move { tip, .. } => FetchAsk::MoveHead { to: tip.clone() },
        }
    }

    /// Goes on with the answer. What the fetch really meets does not change what it comes to. The
    /// branch is moved only to a tip that the remote has advanced to.
    pub fn resume(self, answer: FetchAnswer) -> (turn: FetchTurn)
        requires
            self.asked().fits(answer),
        ensures
            forall|world: FetchWorld|
                self.asked().answered(world, answer) ==> (#[trigger] turn.outcome(world))
                    == self.outcome(world),
            turn matches FetchTurn::Ask(next) ==> next.remaining() < self.remaining(),
            turn matches FetchTurn::Ask(next) ==> (next matches Fetch::Move { tip, .. } ==> (
            self matches Fetch::Head { before, after } && opt_bytes(before) != opt_bytes(after)
                && opt_bytes(after) == Some(tip@))),
    {
        match (self, answer) {
            (
                Fetch::Before { url, branch, depth },
                FetchAnswer::Reference(before),
            ) => FetchTurn::Ask(Fetch::Origin { url, branch, depth, before }),
            (
                Fetch::Origin { url, branch, depth, before },
                FetchAnswer::HasOrigin(has_origin),
            ) => {
                let source: FetchSource = if has_origin {
                    FetchSource::Origin
                } else {
                    FetchSource::Url(url)
                };
                FetchTurn::Ask(Fetch::Receive { source, branch, depth, before })
            },
            (Fetch::Receive { branch, before, .. }, FetchAnswer::Finished(Ok(_))) => FetchTurn::Ask(
                Fetch::After { branch, before },
            ),
            (Fetch::After { before, .. }, FetchAnswer::Reference(after)) => FetchTurn::Ask(
                Fetch::Head { before, after },
            ),
            (Fetch::Head { before, after }, FetchAnswer::Head { on_branch, id }) => {
                match fast_forward(&before, after, on_branch) {
                    Some(tip) => FetchTurn::Ask(Fetch::Move { head: id, tip }),
                    None => FetchTurn::Done(Ok(false)),
                }
            },
            (Fetch::Move { head, tip }, FetchAnswer::Finished(Ok(_))) => {
                let to: Option<Vec<u8>> = Some(tip);
                FetchTurn::Done(Ok(head_moved(&head, &to)))
            },
            (_, FetchAnswer::Finished(Err(message))) => FetchTurn::Done(Err(message)),
            _ => FetchTurn::Done(Ok(false)),
        }
    }
}

/// Starts fetching the latest of `branch` from `url` at `depth` (at least 1), staying shallow. If
/// the remote has advanced, the checked-out branch moves to the fetched tip. The fetch ends with
/// whether `HEAD` moved.
pub fn fetch_shallow(url: &str, branch: &str, depth: u32) -> (r: Fetch)
    ensures
        forall|world: FetchWorld| #[trigger]
            r.outcome(world) == fetch_outcome(world, url@, branch@, depth),
{
    Fetch::Before { url: url.to_owned(), branch: branch.to_owned(), depth }
}

/// A fetch that succeeds and finds the remote where it was leaves `HEAD` alone, whatever was
/// committed locally.
pub proof fn law_quiet_remote_keeps_head(
    world: FetchWorld,
    url: Seq<char>,
    branch: Seq<char>,
    depth: u32,
)
    requires
        (world.before)(track_ref(branch)) == (world.after)(track_ref(branch)),
        fetch_outcome(world, url, branch, depth) is Ok,
    ensures
        fetch_outcome(world, url, branch, depth) == Ok::<bool, Seq<char>>(false),
{
}

/// A fetch that succeeds and finds the remote advanced checks out the fetched tip: it reports
/// that `HEAD` moved exactly if `HEAD` was elsewhere.
pub proof fn law_advanced_remote_is_checked_out(
    world: FetchWorld,
    url: Seq<char>,
    branch: Seq<char>,
    depth: u32,
    tip: Seq<u8>,
)
    requires
        (world.before)(track_ref(branch)) != Some(tip),
        (world.after)(track_ref(branch)) == Some(tip),
        world.on_branch,
        fetch_outcome(world, url, branch, depth) is Ok,
    ensures
        (world.move_to)(tip) is Ok,
        fetch_outcome(world, url, branch, depth) == Ok::<bool, Seq<char>>(
            world.head != Some(tip),
        ),
{
}

/// A fetch receives the one branch into its tracking reference, no deeper than asked for and at
/// least one commit deep, from `origin` where there is one and from the URL where there is not; if
/// that fails, the fetch fails with the same message.
pub proof fn law_fetch_receives_the_branch(
    world: FetchWorld,
    url: Seq<char>,
    branch: Seq<char>,
    depth: u32,
    e: Seq<char>,
)
    ensures
        ({
            let source = if world.has_origin {
                FetchSourceView::Origin
            } else {
                FetchSourceView::Url(url)
            };
            let refspec = "+refs/heads/"@ + branch + ":"@ + ("refs/remotes/origin/"@ + branch);
            let at: u32 = if depth == 0 {
                1
            } else {
                depth
            };
            (world.receive)(source, refspec, at) == Err::<(), Seq<char>>(e) ==> fetch_outcome(
                world,
                url,
                branch,
                depth,
            ) == Err::<bool, Seq<char>>(e)
        }),
{
}

/// What becomes of a fetch that received its objects is told by where the tracking reference was
/// and is: where it did not move, is gone, or `HEAD` is on no branch, `HEAD` stays; otherwise the
/// branch is moved to where the reference is now, and whether `HEAD` was elsewhere is reported.
pub proof fn law_fetch_follows_the_tracking_reference(
    world: FetchWorld,
    url: Seq<char>,
    branch: Seq<char>,
    depth: u32,
    e: Seq<char>,
)
    requires
        (world.receive)(
            if world.has_origin {
                FetchSourceView::Origin
            } else {
                FetchSourceView::Url(url)
            },
            "+refs/heads/"@ + branch + ":"@ + ("refs/remotes/origin/"@ + branch),
            if depth == 0 {
                1
            } else {
                depth
            },
        ) is Ok,
    ensures
        ({
            let before = (world.before)("refs/remotes/origin/"@ + branch);
            let after = (world.after)("refs/remotes/origin/"@ + branch);
            let outcome = fetch_outcome(world, url, branch, depth);
            &&& before == after || after is None || !world.on_branch ==> outcome == Ok::<
                bool,
                Seq<char>,
            >(false)
            &&& before != after && after is Some && world.on_branch ==> {
                &&& (world.move_to)(after->0) is Ok ==> outcome == Ok::<bool, Seq<char>>(
                    world.head != after,
                )
                &&& (world.move_to)(after->0) == Err::<(), Seq<char>>(e) ==> outcome == Err::<
                    bool,
                    Seq<char>,
                >(e)
            }
        }),
{
}

/// An answer is taken for what it says: it is right exactly in the worlds that give it.
pub proof fn law_fetch_answers_are_taken_as_they_are(
    world: FetchWorld,
    name: Seq<char>,
    source: FetchSourceView,
    depth: u32,
    id: Seq<u8>,
    data: Vec<u8>,
    text: String,
    flag: bool,
)
    ensures
        (FetchAskView::Reference { name }).answered(world, FetchAnswer::Reference(Some(data)))
            <==> (world.before)(name) == Some(data@),
        (FetchAskView::Reference { name }).answered(world, FetchAnswer::Reference(None)) <==> (
        world.before)(name) is None,
        FetchAskView::HasOrigin.answered(world, FetchAnswer::HasOrigin(flag)) <==> world.has_origin
            == flag,
        (FetchAskView::Receive { source, refspec: name, depth }).answered(
            world,
            FetchAnswer::Finished(Ok(())),
        ) <==> (world.receive)(source, name, depth) is Ok,
        (FetchAskView::Receive { source, refspec: name, depth }).answered(
            world,
            FetchAnswer::Finished(Err(text)),
        ) <==> (world.receive)(source, name, depth) == Err::<(), Seq<char>>(text@),
        (FetchAskView::ReferenceNow { name }).answered(world, FetchAnswer::Reference(Some(data)))
            <==> (world.after)(name) == Some(data@),
        (FetchAskView::ReferenceNow { name }).answered(world, FetchAnswer::Reference(None))
            <==> (world.after)(name) is None,
        FetchAskView::Head.answered(world, FetchAnswer::Head { on_branch: flag, id: Some(data) })
            <==> world.on_branch == flag && world.head == Some(data@),
        FetchAskView::Head.answered(world, FetchAnswer::Head { on_branch: flag, id: None })
            <==> world.on_branch == flag && world.head is None,
        (FetchAskView::MoveHead { to: id }).answered(world, FetchAnswer::Finished(Ok(()))) <==> (
        world.move_to)(id) is Ok,
        (FetchAskView::MoveHead { to: id }).answered(world, FetchAnswer::Finished(Err(text)))
            <==> (world.move_to)(id) == Err::<(), Seq<char>>(text@),
{
    if let Ok(done) = (world.receive)(source, name, depth) {
        assert(done == ());
    }
    if let Ok(done) = (world.move_to)(id) {
        assert(done == ());
    }
}

/// What a fetch ends with is what it comes to.
pub proof fn law_fetch_ends_with_what_it_reports(world: FetchWorld, moved: bool, message: String)
    ensures
        FetchTurn::Done(Ok(moved)).outcome(world) == Ok::<bool, Seq<char>>(moved),
        FetchTurn::Done(Err(message)).outcome(world) == Err::<bool, Seq<char>>(message@),
{
}

/// A fetch is never deeper than asked for, and at least one commit deep, which is the default.
pub proof fn law_fetch_stays_shallow(depth: u32)
    ensures
        DEFAULT_DEPTH == 1,
        depth_of(depth) >= 1,
        depth >= 1 ==> depth_of(depth) == depth,
        depth == 0 ==> depth_of(depth) == 1,
{
}

} // verus!
