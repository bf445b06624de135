use vstd::prelude::*;
use crate::listing::{remote_target, target_of};
use crate::model::{CopyOptions, Job};
use crate::text::join2;

verus! {

/// The characters of each text of an argument list.
pub open spec fn argv_of(v: Seq<String>) -> Seq<Seq<char>> {
    v.map_values(|s: String| s@)
}

/// The arguments of one copy: `copy <src> <dst>`, then `--ignore-existing`
/// when existing files are skipped, then `--no-update-modtime` unless
/// overwriting is asked for.
pub open spec fn copy_argv(src: Seq<char>, dst: Seq<char>, options: CopyOptions) -> Seq<Seq<char>> {
    let base = seq!["copy"@, src, dst];
    let with_skip = if options.skip_existing { base.push("--ignore-existing"@) } else { base };
    if !options.overwrite { with_skip.push("--no-update-modtime"@) } else { with_skip }
}

/// The arguments of one move: `move <src> <dst>`.
pub open spec fn move_argv(src: Seq<char>, dst: Seq<char>) -> Seq<Seq<char>> {
    seq!["move"@, src, dst]
}

/// The arguments of one deletion: `deletefile <target>`.
pub open spec fn delete_argv(target: Seq<char>) -> Seq<Seq<char>> {
    seq!["deletefile"@, target]
}

/// The argument list of one copy from `src` to `dst`.
pub fn copy_args(src: String, dst: String, options: CopyOptions) -> (r: Vec<String>)
    ensures
        argv_of(r@) == copy_argv(src@, dst@, options),
{
    let mut args: Vec<String> = Vec::new();
    args.push("copy".to_string());
    args.push(src);
    args.push(dst);
    if options.skip_existing {
        args.push("--ignore-existing".to_string());
    }
    if !options.overwrite {
        args.push("--no-update-modtime".to_string());
    }
    assert(argv_of(args@) =~= copy_argv(src@, dst@, options));
    args
}

/// The tool invocations of a copy: one per source path, in the order given,
/// each from `from_remote:path` to `to_remote:to_path`.
pub fn copy_commands(
    from_remote: &str,
    from_paths: &Vec<String>,
    to_remote: &str,
    to_path: &str,
    options: CopyOptions,
) -> (r: Vec<Vec<String>>)
    ensures
        r@.len() == from_paths@.len(),
        forall|i: int|
            0 <= i < r@.len() ==> argv_of(#[trigger] r@[i]@) == copy_argv(
                target_of(from_remote@, from_paths@[i]@),
                target_of(to_remote@, to_path@),
                options,
            ),
{
    let mut cmds: Vec<Vec<String>> = Vec::new();
    let mut i: usize = 0;
    while i < from_paths.len()
        invariant
            i <= from_paths@.len(),
            cmds@.len() == i,
            forall|k: int|
                0 <= k < i ==> argv_of(#[trigger] cmds@[k]@) == copy_argv(
                    target_of(from_remote@, from_paths@[k]@),
                    target_of(to_remote@, to_path@),
                    options,
                ),
        decreases from_paths@.len() - i,
    {
        let src = remote_target(from_remote, from_paths[i].as_str());
        let dst = remote_target(to_remote, to_path);
        cmds.push(copy_args(src, dst, options));
        i = i + 1;
    }
    cmds
}

/// The tool invocations of a move: one per source path, in the order given.
pub fn move_commands(from_remote: &str, from_paths: &Vec<String>, to_remote: &str, to_path: &str) -> (r: Vec<
    Vec<String>,
>)
    ensures
        r@.len() == from_paths@.len(),
        forall|i: int|
            0 <= i < r@.len() ==> argv_of(#[trigger] r@[i]@) == move_argv(
                target_of(from_remote@, from_paths@[i]@),
                target_of(to_remote@, to_path@),
            ),
{
    let mut cmds: Vec<Vec<String>> = Vec::new();
    let mut i: usize = 0;
    while i < from_paths.len()
        invariant
            i <= from_paths@.len(),
            cmds@.len() == i,
            forall|k: int|
                0 <= k < i ==> argv_of(#[trigger] cmds@[k]@) == move_argv(
                    target_of(from_remote@, from_paths@[k]@),
                    target_of(to_remote@, to_path@),
                ),
        decreases from_paths@.len() - i,
    {
        let mut args: Vec<String> = Vec::new();
        args.push("move".to_string());
        args.push(remote_target(from_remote, from_paths[i].as_str()));
        args.push(remote_target(to_remote, to_path));
        assert(argv_of(args@) =~= move_argv(
            target_of(from_remote@, from_paths@[i as int]@),
            target_of(to_remote@, to_path@),
        ));
        cmds.push(args);
        i = i + 1;
    }
    cmds
}

/// The tool invocations of a deletion: one per path, in the order given.
pub fn delete_commands(remote: &str, paths: &Vec<String>) -> (r: Vec<Vec<String>>)
    ensures
        r@.len() == paths@.len(),
        forall|i: int|
            0 <= i < r@.len() ==> argv_of(#[trigger] r@[i]@) == delete_argv(
                target_of(remote@, paths@[i]@),
            ),
{
    let mut cmds: Vec<Vec<String>> = Vec::new();
    let mut i: usize = 0;
    while i < paths.len()
        invariant
            i <= paths@.len(),
            cmds@.len() == i,
            forall|k: int|
                0 <= k < i ==> argv_of(#[trigger] cmds@[k]@) == delete_argv(
                    target_of(remote@, paths@[k]@),
                ),
        decreases paths@.len() - i,
    {
        let mut args: Vec<String> = Vec::new();
        args.push("deletefile".to_string());
        args.push(remote_target(remote, paths[i].as_str()));
        assert(argv_of(args@) =~= delete_argv(target_of(remote@, paths@[i as int]@)));
        cmds.push(args);
        i = i + 1;
    }
    cmds
}

/// What a batch of tool invocations does next.
#[derive(Debug, Clone, PartialEq, Eq)]
pub enum BatchStep {
    /// Run the invocation at this index.
    Run(usize),
    /// Every invocation succeeded.
    Finished,
    /// An invocation failed with this error; nothing more is run.
    Failed(String),
}

/// The first step of a batch of `total` invocations.
pub open spec fn first_step(total: nat) -> BatchStep {
    if total == 0 {
        BatchStep::Finished
    } else {
        BatchStep::Run(0)
    }
}

/// The step after invocation `ran` of `total` came back with `outcome`: a
/// failure ends the batch at once.
pub open spec fn next_step(total: nat, ran: nat, outcome: Result<String, String>) -> BatchStep {
    match outcome {
        Err(e) => BatchStep::Failed(e),
        Ok(_) => if ran + 1 < total {
            BatchStep::Run((ran + 1) as usize)
        } else {
            BatchStep::Finished
        },
    }
}

/// A batch driven from invocation `i` on, where invocation `k` comes back
/// with `outcomes[k]`: how it ends, and how many invocations ran in all.
pub open spec fn run_from(total: nat, outcomes: Seq<Result<String, String>>, i: nat) -> (BatchStep, nat)
    decreases total - i,
{
    if i >= total || i >= outcomes.len() {
        (BatchStep::Finished, i)
    } else {
        let s = next_step(total, i, outcomes[i as int]);
        if s is Run {
            run_from(total, outcomes, i + 1)
        } else {
            (s, i + 1)
        }
    }
}

/// The first step of a batch of `total` invocations.
pub fn batch_start(total: usize) -> (r: BatchStep)
    ensures
        r == first_step(total as nat),
{
    if total == 0 {
        BatchStep::Finished
    } else {
        BatchStep::Run(0)
    }
}

/// The step after invocation `ran` of a batch of `total` came back.
pub fn batch_step(total: usize, ran: usize, outcome: Result<String, String>) -> (r: BatchStep)
    requires
        ran < total,
    ensures
        r == next_step(total as nat, ran as nat, outcome),
{
    match outcome {
        Err(e) => BatchStep::Failed(e),
        Ok(_) => if ran + 1 < total {
            BatchStep::Run(ran + 1)
        } else {
            BatchStep::Finished
        },
    }
}

/// A batch stops at its first failure: when invocation `k` fails and all
/// before it succeeded, the batch ends with that failure's error after
/// exactly `k + 1` invocations, so none after `k` is run.
pub proof fn lemma_batch_fails_fast(outcomes: Seq<Result<String, String>>, k: nat)
    requires
        k < outcomes.len(),
        outcomes[k as int] is Err,
        forall|j: int| 0 <= j < k ==> (#[trigger] outcomes[j]) is Ok,
    ensures
        run_from(outcomes.len(), outcomes, 0) == (BatchStep::Failed(outcomes[k as int]->Err_0), k + 1),
{
    lemma_run_from_prefix(outcomes, k, 0);
}

proof fn lemma_run_from_prefix(outcomes: Seq<Result<String, String>>, k: nat, i: nat)
    requires
        i <= k < outcomes.len(),
        outcomes[k as int] is Err,
        forall|j: int| 0 <= j < k ==> (#[trigger] outcomes[j]) is Ok,
    ensures
        run_from(outcomes.len(), outcomes, i) == (BatchStep::Failed(outcomes[k as int]->Err_0), k + 1),
    decreases k - i,
{
    if i < k {
        assert(outcomes[i as int] is Ok);
        lemma_run_from_prefix(outcomes, k, i + 1);
    }
}

/// A batch in which every invocation succeeds runs each of them once and
/// finishes.
pub proof fn lemma_batch_all_succeed(outcomes: Seq<Result<String, String>>)
    requires
        forall|j: int| 0 <= j < outcomes.len() ==> (#[trigger] outcomes[j]) is Ok,
    ensures
        run_from(outcomes.len(), outcomes, 0) == (BatchStep::Finished, outcomes.len()),
{
    lemma_run_from_ok(outcomes, 0);
}

proof fn lemma_run_from_ok(outcomes: Seq<Result<String, String>>, i: nat)
    requires
        i <= outcomes.len(),
        forall|j: int| 0 <= j < outcomes.len() ==> (#[trigger] outcomes[j]) is Ok,
    ensures
        run_from(outcomes.len(), outcomes, i) == (BatchStep::Finished, outcomes.len()),
    decreases outcomes.len() - i,
{
    if i < outcomes.len() {
        assert(outcomes[i as int] is Ok);
        lemma_run_from_ok(outcomes, i + 1);
    }
}

/// The decimal digit `d`.
pub open spec fn digit_char(d: nat) -> char {
    if d == 0 { '0' } else if d == 1 { '1' } else if d == 2 { '2' } else if d == 3 { '3' }
    else if d == 4 { '4' } else if d == 5 { '5' } else if d == 6 { '6' } else if d == 7 { '7' }
    else if d == 8 { '8' } else { '9' }
}

/// The decimal digits of `n`, without leading zeros.
pub open spec fn digits(n: nat) -> Seq<char>
    decreases n,
{
    if n < 10 {
        seq![digit_char(n)]
    } else {
        digits(n / 10).push(digit_char(n % 10))
    }
}

/// The decimal text of an integer, with `-` before a negative one.
pub open spec fn decimal(n: int) -> Seq<char> {
    if n < 0 {
        seq!['-'] + digits((-n) as nat)
    } else {
        digits(n as nat)
    }
}

/// The identifier handed out for a transfer started at `ts` seconds.
pub open spec fn job_id_of(ts: int) -> Seq<char> {
    "job_"@ + decimal(ts)
}

fn digit_text(d: u64) -> (r: &'static str)
    requires
        d < 10,
    ensures
        r@ == seq![digit_char(d as nat)],
{
    proof {
        reveal_strlit("0"); reveal_strlit("1"); reveal_strlit("2"); reveal_strlit("3");
        reveal_strlit("4"); reveal_strlit("5"); reveal_strlit("6"); reveal_strlit("7");
        reveal_strlit("8"); reveal_strlit("9");
    }
    if d == 0 { "0" } else if d == 1 { "1" } else if d == 2 { "2" } else if d == 3 { "3" }
    else if d == 4 { "4" } else if d == 5 { "5" } else if d == 6 { "6" } else if d == 7 { "7" }
    else if d == 8 { "8" } else { "9" }
}

/// The decimal text of `n`.
pub fn decimal_text(n: i64) -> (r: String)
    ensures
        r@ == decimal(n as int),
{
    let mut m: u64 = if n < 0 { (0 - (n as i128)) as u64 } else { n as u64 };
    let ghost whole = m as nat;
    let mut acc = String::new();
    while m >= 10
        invariant
            digits(whole) == digits(m as nat) + acc@,
        decreases m,
    {
        let d = digit_text(m % 10);
        assert(digits(m as nat) == digits((m / 10) as nat).push(digit_char((m % 10) as nat)));
        let ghost old_acc = acc@;
        acc = join2(d, acc.as_str());
        assert(digits(m as nat) + old_acc =~= digits((m / 10) as nat) + acc@);
        m = m / 10;
    }
    let d = digit_text(m);
    let ghost old_acc = acc@;
    acc = join2(d, acc.as_str());
    assert(digits(whole) =~= acc@);
    if n < 0 {
        proof { reveal_strlit("-"); }
        let r = join2("-", acc.as_str());
        assert(r@ =~= decimal(n as int));
        r
    } else {
        acc
    }
}

/// The identifier of a transfer started at `ts` seconds since the epoch:
/// `job_` and the decimal seconds.
pub fn job_id(ts: i64) -> (r: String)
    ensures
        r@ == job_id_of(ts as int),
{
    let digits = decimal_text(ts);
    join2("job_", digits.as_str())
}

/// Relies on chrono's `From<SystemTime> for DateTime<Utc>` and `timestamp`:
/// the current time in whole seconds since the Unix epoch, negative for a
/// clock set before 1970, which nothing here predicts.
#[verifier::external_body]
fn now_seconds() -> (r: i64) {
    chrono::DateTime::<chrono::Utc>::from(std::time::SystemTime::now()).timestamp()
}

/// An identifier for a transfer that starts now; no lookup resolves it.
pub fn new_job_id() -> (r: String)
    ensures
        exists|ts: int| r@ == job_id_of(ts),
{
    let ts = now_seconds();
    job_id(ts)
}

/// The transfers being tracked: none is ever recorded.
pub fn get_jobs() -> (r: Vec<Job>)
    ensures
        r@.len() == 0,
{
    Vec::new()
}

/// The transfer with the identifier `job_id`: none is ever recorded.
pub fn get_job(job_id: String) -> (r: Option<Job>)
    ensures
        r is None,
{
    None
}


/// With `skip_existing` set, every copy invocation carries the
/// ignore-existing flag, right after its source and destination.
pub proof fn lemma_copy_skip_flag(src: Seq<char>, dst: Seq<char>, options: CopyOptions)
    requires
        options.skip_existing,
    ensures
        copy_argv(src, dst, options).contains("--ignore-existing"@),
        copy_argv(src, dst, options)[3] == "--ignore-existing"@,
        copy_argv(src, dst, options).subrange(0, 3) == seq!["copy"@, src, dst],
{
    let a = copy_argv(src, dst, options);
    assert(a[3] == "--ignore-existing"@);
    assert(a.subrange(0, 3) =~= seq!["copy"@, src, dst]);
}

} // verus!
