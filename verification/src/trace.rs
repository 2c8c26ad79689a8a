//! What was done between two worlds: which requests were made, in which order,
//! and how they were answered.

use vstd::prelude::*;

use crate::text::Text;
use crate::world::{Call, StoreCall, World};

verus! {

/// A request that was made, with what is known of its answer.
pub enum Step {
    /// The request, whatever its answer.
    Just(Call),
    /// The request, and it succeeded.
    Well(Call),
    /// The request, and it failed.
    Ill(Call),
    /// The request, answered by this text.
    Told(Call, Text),
    /// The question, answered yes.
    Yes(Call),
    /// The question, answered no.
    No(Call),
    /// The text was written to the file, and that succeeded.
    Wrote(Text, Text),
    /// A git command in an overlay work directory.
    Work(Seq<Text>, Text),
    /// The same, and it succeeded.
    WorkWell(Seq<Text>, Text),
    /// The same, answered by this text.
    WorkTold(Seq<Text>, Text, Text),
    /// A git command against a bare repo, run in a directory.
    Bare(Seq<Text>, Text, Text),
    /// The same, and it succeeded.
    BareWell(Seq<Text>, Text, Text),
    /// The same, answered by this text.
    BareTold(Seq<Text>, Text, Text, Text),
    /// A program was run, and it told of success.
    Ran(Call),
    /// A program was run, told of success and printed this.
    Printed(Call, Text),
    /// A directory was listed, or a column read: these are the items.
    Items(Call, Seq<Text>),
    /// A directory was listed as far as it can be read, and these are the paths.
    Paths(Call, Seq<Text>),
    /// The mode bits were read, and these are they.
    Bits(Call, u32),
    /// The task store added the task: these are its UUID and its commit.
    Added(Call, Text, Text),
    /// Some request that failed, or a program that told of failure.
    Refused,
}

/// Has the request, where it is the `n`-th, failed?
pub open spec fn refused(w: World, n: nat, call: Call) -> bool {
    match call {
        Call::Git { .. } => (w.text)(n) is Err,
        Call::Read(_) => (w.text)(n) is Err,
        Call::Write { .. } => (w.done)(n) is Err,
        Call::CreateDirAll(_) => (w.done)(n) is Err,
        Call::Copy { .. } => (w.size)(n) is Err,
        Call::RemoveFile(_) => (w.done)(n) is Err,
        Call::RemoveDir(_) => (w.done)(n) is Err,
        Call::RemoveDirAll(_) => (w.done)(n) is Err,
        Call::Exists(_) => false,
        Call::IsFile(_) => false,
        Call::IsDir(_) => false,
        Call::Canonicalize(_) => (w.text)(n) is Err,
        Call::ReadDir(_) => (w.names)(n) is Err,
        Call::ListDir(_) => (w.listing)(n) is Err,
        Call::Mode(_) => (w.mode)(n) is Err,
        Call::SetMode { .. } => (w.done)(n) is Err,
        Call::CurrentExe => (w.text)(n) is Err,
        Call::Run { .. } => (w.exit)(n) is Err,
        Call::Capture { .. } => (w.output)(n) is Err,
        Call::Store(StoreCall::AddTask { .. }) => (w.pair)(n) is Err,
        Call::Store(_) => (w.text)(n) is Err,
        Call::SqliteExecute { .. } => (w.done)(n) is Err,
        Call::SqliteTexts { .. } => (w.names)(n) is Err,
        Call::Note(_) => false,
    }
}

/// Has the program, where running it is the `n`-th request, told of success?
pub open spec fn succeeded(w: World, n: nat, call: Call) -> bool {
    match call {
        Call::Run { .. } => (w.exit)(n) is Ok && (w.exit)(n)->Ok_0.success,
        Call::Capture { .. } => (w.output)(n) is Ok && (w.output)(n)->Ok_0.success,
        _ => false,
    }
}

/// Is the call a git command in the overlay work directory `work`: does git take
/// that for its work tree, and a git directory of its own, whatever the
/// environment says?
pub open spec fn is_work_git(call: Call, args: Seq<Text>, work: Text) -> bool {
    match call {
        Call::Git { args: given, cwd, env_set, env_remove } => {
            &&& given == args
            &&& cwd == work
            &&& env_set.len() == 2
            &&& env_set[0].0 == "GIT_DIR"@
            &&& env_set[1] == ("GIT_WORK_TREE"@, work)
            &&& env_remove == seq![
                "GIT_INDEX_FILE"@,
                "GIT_OBJECT_DIRECTORY"@,
                "GIT_ALTERNATE_OBJECT_DIRECTORIES"@,
            ]
        },
        _ => false,
    }
}

/// A git command in a directory.
pub open spec fn git_call(args: Seq<Text>, cwd: Text) -> Call {
    Call::Git { args, cwd, env_set: Seq::empty(), env_remove: Seq::empty() }
}

/// A git command against a bare repo, in a directory.
pub open spec fn bare_call(args: Seq<Text>, repo: Text, cwd: Text) -> Call {
    git_call(seq!["--git-dir="@ + repo] + args, cwd)
}

/// Is the call, where it is the `n`-th of the world, this step?
pub open spec fn is_step(w: World, n: nat, call: Call, step: Step) -> bool {
    match step {
        Step::Just(c) => call == c,
        Step::Well(c) => call == c && !refused(w, n, call),
        Step::Ill(c) => call == c && refused(w, n, call),
        Step::Told(c, text) => call == c && (w.text)(n) == Ok::<Text, Seq<Text>>(text),
        Step::Yes(c) => call == c && (w.flag)(n),
        Step::No(c) => call == c && !(w.flag)(n),
        Step::Wrote(path, text) => {
            &&& call == (Call::Write { path, contents: vstd::utf8::encode_utf8(text) })
            &&& (w.done)(n) is Ok
        },
        Step::Work(args, work) => is_work_git(call, args, work),
        Step::WorkWell(args, work) => is_work_git(call, args, work) && (w.text)(n) is Ok,
        Step::WorkTold(args, work, text) => is_work_git(call, args, work) && (w.text)(n) == Ok::<
            Text,
            Seq<Text>,
        >(text),
        Step::Bare(args, repo, cwd) => call == bare_call(args, repo, cwd),
        Step::BareWell(args, repo, cwd) => call == bare_call(args, repo, cwd) && (w.text)(
            n,
        ) is Ok,
        Step::BareTold(args, repo, cwd, text) => call == bare_call(args, repo, cwd) && (w.text)(n)
            == Ok::<Text, Seq<Text>>(text),
        Step::Ran(c) => call == c && succeeded(w, n, call),
        Step::Printed(c, text) => call == c && succeeded(w, n, call) && (w.output)(
            n,
        )->Ok_0.stdout == text,
        Step::Items(c, items) => call == c && (w.names)(n) == Ok::<Seq<Text>, Seq<Text>>(items),
        Step::Paths(c, paths) => call == c && (w.listing)(n) is Ok && (w.listing)(n)->Ok_0.paths
            == paths,
        Step::Bits(c, bits) => call == c && (w.mode)(n) == Ok::<u32, Seq<Text>>(bits),
        Step::Added(c, uuid, commit) => call == c && (w.pair)(n) == Ok::<
            (Text, Text),
            Seq<Text>,
        >((uuid, commit)),
        Step::Refused => refused(w, n, call) || (call is Run && !succeeded(w, n, call)) || (
        call is Capture && !succeeded(w, n, call)),
    }
}

/// Do the steps come in this order among the calls from the `from`-th on and
/// before the `to`-th?
pub open spec fn in_turn_before(w: World, from: nat, to: nat, steps: Seq<Step>) -> bool
    decreases steps.len(),
{
    steps.len() == 0 || exists|n: nat|
        from <= n < to && #[trigger] is_step(w, n, w.calls[n as int], steps.last())
            && in_turn_before(w, from, n, steps.drop_last())
}

/// Has the second world come from the first by more requests?
pub open spec fn goes_on(before: World, after: World) -> bool {
    &&& before.calls.len() <= after.calls.len()
    &&& before.calls == after.calls.take(before.calls.len() as int)
    &&& after == World { calls: after.calls, ..before }
}

/// Were these steps, in this order, among what was done between the two worlds?
#[verifier::opaque]
pub open spec fn did(before: World, after: World, steps: Seq<Step>) -> bool {
    goes_on(before, after) && in_turn_before(after, before.calls.len(), after.calls.len(), steps)
}

proof fn lemma_longer(w: World, after: World, from: nat, to: nat, more: nat, steps: Seq<Step>)
    requires
        goes_on(w, after),
        to <= w.calls.len(),
        to <= more,
        in_turn_before(w, from, to, steps),
    ensures
        in_turn_before(after, from, more, steps),
    decreases steps.len(),
{
    if steps.len() > 0 {
        let n = choose|n: nat|
            from <= n < to && #[trigger] is_step(w, n, w.calls[n as int], steps.last())
                && in_turn_before(w, from, n, steps.drop_last());
        assert(after.calls.take(w.calls.len() as int)[n as int] == after.calls[n as int]);
        lemma_longer(w, after, from, n, n, steps.drop_last());
        assert(is_step(after, n, after.calls[n as int], steps.last()));
    }
}

/// Nothing was done where nothing was asked.
pub broadcast proof fn lemma_did_nothing(w: World)
    ensures
        #[trigger] did(w, w, Seq::empty()),
{
    reveal(did);
    assert(w.calls.take(w.calls.len() as int) =~= w.calls);
}

/// What was done stays done.
pub broadcast proof fn lemma_did_still(w0: World, w: World, call: Call, steps: Seq<Step>)
    requires
        did(w0, w, steps),
    ensures
        #[trigger] did(w0, w.asked(call), steps),
{
    reveal(did);
    let after = w.asked(call);
    assert(after.calls.take(w.calls.len() as int) =~= w.calls);
    assert(after.calls.take(w0.calls.len() as int) =~= w.calls.take(w0.calls.len() as int));
    lemma_longer(w, after, w0.calls.len(), w.calls.len(), after.calls.len(), steps);
}

/// A request is a step.
pub broadcast proof fn lemma_did_next(
    w0: World,
    w: World,
    call: Call,
    steps: Seq<Step>,
    step: Step,
)
    requires
        did(w0, w, steps),
        is_step(w, w.calls.len(), call, step),
    ensures
        #[trigger] did(w0, w.asked(call), steps.push(step)),
{
    lemma_did_still(w0, w, call, steps);
    reveal(did);
    let after = w.asked(call);
    let n = w.calls.len();
    let all = steps.push(step);
    assert(all.drop_last() =~= steps);
    assert(all.last() == step);
    assert(after.calls.take(n as int) =~= w.calls);
    lemma_longer(w, after, w0.calls.len(), n, n, steps);
    assert(is_step(after, n, after.calls[n as int], all.last()));
    assert(in_turn_before(after, w0.calls.len(), n, all.drop_last()));
}

pub broadcast group group_did {
    lemma_did_nothing,
    lemma_did_still,
    lemma_did_next,
}

proof fn lemma_joined(w0: World, w1: World, w2: World, a: Seq<Step>, b: Seq<Step>, to: nat)
    requires
        goes_on(w0, w1),
        goes_on(w1, w2),
        in_turn_before(w1, w0.calls.len(), w1.calls.len(), a),
        in_turn_before(w2, w1.calls.len(), to, b),
        w1.calls.len() <= to <= w2.calls.len(),
    ensures
        in_turn_before(w2, w0.calls.len(), to, a + b),
    decreases b.len(),
{
    if b.len() == 0 {
        assert(a + b =~= a);
        lemma_longer(w1, w2, w0.calls.len(), w1.calls.len(), to, a);
    } else {
        let n = choose|n: nat|
            w1.calls.len() <= n < to && #[trigger] is_step(
                w2,
                n,
                w2.calls[n as int],
                b.last(),
            ) && in_turn_before(w2, w1.calls.len(), n, b.drop_last());
        lemma_joined(w0, w1, w2, a, b.drop_last(), n);
        assert((a + b).drop_last() =~= a + b.drop_last());
        assert((a + b).last() == b.last());
    }
}

/// What was done first and what was done after it were done in turn.
pub proof fn lemma_did_both(w0: World, w1: World, w2: World, a: Seq<Step>, b: Seq<Step>)
    requires
        did(w0, w1, a),
        did(w1, w2, b),
    ensures
        did(w0, w2, a + b),
{
    reveal(did);
    assert(w2.calls.take(w0.calls.len() as int) =~= w2.calls.take(w1.calls.len() as int).take(
        w0.calls.len() as int,
    ));
    lemma_joined(w0, w1, w2, a, b, w2.calls.len());
}

/// What was done stays done, whatever is done next.
pub proof fn lemma_did_before(w0: World, w1: World, w2: World, steps: Seq<Step>)
    requires
        did(w0, w1, steps),
        did(w1, w2, Seq::empty()),
    ensures
        did(w0, w2, steps),
{
    lemma_did_both(w0, w1, w2, steps, Seq::empty());
    assert(steps + Seq::<Step>::empty() =~= steps);
}

} // verus!
