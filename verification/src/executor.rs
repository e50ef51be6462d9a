//! What is handed to Terraform: the `-target=` options, the directory, the
//! command line, and how the run's outcome is reported.
use vstd::prelude::*;
use vstd::string::*;
use crate::error::{strings_view, TfocusError, TfocusErrorView};
use crate::types::{operation_name, resources_view, target_address, Operation, Resource, ResourceView};
use crate::workdir::{
    get_working_directory, lists_directories_of, resource_dirs, resource_files, working_dir_of,
};

verus! {

/// The `-target=` option that selects one resource.
pub open spec fn target_option(r: ResourceView) -> Seq<char> {
    "-target="@ + target_address(r)
}

/// The options of a sequence of resources, one per resource.
pub open spec fn target_options_of(rs: Seq<ResourceView>) -> Seq<Seq<char>> {
    rs.map_values(|r: ResourceView| target_option(r))
}

/// `s` with every element that occurred earlier removed: the first
/// occurrences, in their order.
pub open spec fn dedup_first(s: Seq<Seq<char>>) -> Seq<Seq<char>>
    decreases s.len(),
{
    if s.len() == 0 {
        seq![]
    } else {
        let d = dedup_first(s.drop_last());
        if d.contains(s.last()) {
            d
        } else {
            d.push(s.last())
        }
    }
}

/// Whether `v` holds a string equal to `s`.
pub fn contains_string(v: &Vec<String>, s: &String) -> (b: bool)
    ensures
        b == strings_view(v@).contains(s@),
{
    let n = v.len();
    for i in 0..n
        invariant
            n == v@.len(),
            forall|j: int| 0 <= j < i ==> v@[j]@ != s@,
    {
        if v[i] == *s {
            assert(strings_view(v@)[i as int] == s@);
            return true;
        }
    }
    proof {
        if strings_view(v@).contains(s@) {
            let k = choose|k: int| 0 <= k < strings_view(v@).len() && strings_view(v@)[k] == s@;
            assert(v@[k]@ == s@);
        }
    }
    false
}

/// The `-target=` options for `resources`, each once, in the order of
/// their first resource. Fails when there is no resource.
pub fn create_target_options(resources: &[Resource]) -> (res: Result<Vec<String>, TfocusError>)
    ensures
        match res {
            Ok(v) => {
                &&& resources@.len() > 0
                &&& strings_view(v@) == dedup_first(target_options_of(resources_view(resources@)))
            },
            Err(e) => {
                &&& resources@.len() == 0
                &&& e@ == TfocusErrorView::ParseError("No targets specified"@)
            },
        },
{
    let ghost opts = target_options_of(resources_view(resources@));
    let mut target_options: Vec<String> = Vec::new();
    let n = resources.len();
    assert(opts.take(0) =~= Seq::<Seq<char>>::empty());
    assert(strings_view(target_options@) =~= Seq::<Seq<char>>::empty());
    for i in 0..n
        invariant
            n == resources@.len(),
            opts == target_options_of(resources_view(resources@)),
            strings_view(target_options@) == dedup_first(opts.take(i as int)),
    {
        let target = String::from_str("-target=").concat(resources[i].target_string().as_str());
        assert(opts.take(i + 1).drop_last() =~= opts.take(i as int));
        assert(opts[i as int] == target@);
        if !contains_string(&target_options, &target) {
            target_options.push(target);
            assert(strings_view(target_options@) =~= dedup_first(opts.take(i as int)).push(
                opts[i as int],
            ));
        }
    }
    assert(opts.take(n as int) =~= opts);
    if target_options.len() == 0 {
        proof {
            if n > 0 {
                let p = opts.drop_last();
                let d = dedup_first(p);
                assert(d.contains(opts.last()) ==> d.len() > 0);
            }
        }
        return Err(TfocusError::ParseError(String::from_str("No targets specified")));
    }
    Ok(target_options)
}

/// The strings of `s` joined with single spaces.
pub open spec fn join_spaced(s: Seq<Seq<char>>) -> Seq<char>
    decreases s.len(),
{
    if s.len() == 0 {
        seq![]
    } else if s.len() == 1 {
        s[0]
    } else {
        join_spaced(s.drop_last()) + " "@ + s.last()
    }
}

/// The command line shown to the user: the binary, the operation, then the
/// target options, separated by spaces.
pub open spec fn command_display(binary: Seq<char>, op: Operation, targets: Seq<Seq<char>>) -> Seq<
    char,
> {
    if targets.len() == 0 {
        binary + " "@ + operation_name(op)
    } else {
        binary + " "@ + operation_name(op) + " "@ + join_spaced(targets)
    }
}

/// The command line shown to the user before Terraform runs.
pub fn build_command_display(
    terraform_binary: &str,
    operation: &Operation,
    target_options: &[String],
) -> (s: String)
    ensures
        s@ == command_display(terraform_binary@, *operation, strings_view(target_options@)),
{
    let head = String::from_str(terraform_binary).concat(" ").concat(operation.name());
    if target_options.len() == 0 {
        return head;
    }
    let ghost ts = strings_view(target_options@);
    let mut joined = String::new();
    let n = target_options.len();
    for i in 0..n
        invariant
            n == target_options@.len(),
            ts == strings_view(target_options@),
            i > 0 ==> joined@ == join_spaced(ts.take(i as int)),
    {
        if i == 0 {
            joined = target_options[0].clone();
            assert(ts.take(1) =~= seq![ts[0]]);
        } else {
            joined.append(" ");
            joined.append(target_options[i].as_str());
            assert(ts.take(i + 1).drop_last() =~= ts.take(i as int));
        }
    }
    assert(ts.take(n as int) =~= ts);
    head.concat(" ").concat(joined.as_str())
}

/// The Terraform binary to run: the configured one, else `terraform`.
pub fn terraform_binary_name(configured: Option<String>) -> (s: String)
    ensures
        match configured {
            Some(c) => s@ == c@,
            None => s@ == "terraform"@,
        },
{
    match configured {
        Some(c) => c,
        None => String::from_str("terraform"),
    }
}

/// The arguments Terraform is started with: the operation, then the target
/// options.
pub fn terraform_arguments(operation: &Operation, target_options: &[String]) -> (args: Vec<String>)
    ensures
        strings_view(args@) == seq![operation_name(*operation)] + strings_view(target_options@),
{
    let mut args: Vec<String> = Vec::new();
    args.push(operation.to_string());
    let n = target_options.len();
    for i in 0..n
        invariant
            n == target_options@.len(),
            strings_view(args@) == seq![operation_name(*operation)] + strings_view(
                target_options@,
            ).take(i as int),
    {
        let ghost before = strings_view(args@);
        args.push(target_options[i].clone());
        assert(strings_view(args@) =~= before.push(target_options@[i as int]@));
        assert(strings_view(target_options@).take(i + 1) =~= strings_view(target_options@).take(
            i as int,
        ).push(target_options@[i as int]@));
        assert(strings_view(args@) =~= seq![operation_name(*operation)] + strings_view(
            target_options@,
        ).take(i + 1));
    }
    assert(strings_view(target_options@).take(n as int) =~= strings_view(target_options@));
    args
}

/// How a Terraform run ended, as seen by the process that started it.
pub enum CommandStatus {
    /// The process could not be started; the message says why.
    SpawnFailed(String),
    /// Waiting for the process failed; the message says why.
    WaitFailed(String),
    /// The process exited; `description` is its exit status as text.
    Exited { success: bool, description: String },
}

/// What a run reports: `Ok(true)` when it succeeded, `Ok(false)` when it
/// succeeded after the user interrupted it, an error otherwise.
pub open spec fn spec_command_outcome(status: CommandStatus, running: bool) -> Result<
    bool,
    TfocusErrorView,
> {
    match status {
        CommandStatus::SpawnFailed(m) => Err(TfocusErrorView::CommandExecutionError(m@)),
        CommandStatus::WaitFailed(m) => Err(
            TfocusErrorView::CommandExecutionError("Failed to execute terraform command: "@ + m@),
        ),
        CommandStatus::Exited { success, description } => if success {
            Ok(running)
        } else {
            Err(TfocusErrorView::TerraformError("Terraform command failed with status: "@ + description@))
        },
    }
}

/// How a run ends, told apart: a run reports success (`Ok(true)`) only when
/// Terraform exited successfully and the user did not interrupt it, and
/// `Ok(false)` only when it exited successfully after an interruption; an
/// unsuccessful exit is a Terraform failure carrying the exit status,
/// whether or not the user interrupted; a failure to start or to wait is an
/// execution failure.
pub proof fn lemma_command_outcome(status: CommandStatus, running: bool)
    ensures
        spec_command_outcome(status, running) == Ok::<bool, TfocusErrorView>(true) <==> (
        status matches CommandStatus::Exited { success, .. } && success && running),
        spec_command_outcome(status, running) == Ok::<bool, TfocusErrorView>(false) <==> (
        status matches CommandStatus::Exited { success, .. } && success && !running),
        match status {
            CommandStatus::Exited { success, description } => !success ==> spec_command_outcome(
                status,
                running,
            ) == Err::<bool, TfocusErrorView>(
                TfocusErrorView::TerraformError(
                    "Terraform command failed with status: "@ + description@,
                ),
            ),
            _ => true,
        },
        status matches CommandStatus::SpawnFailed(m) ==> spec_command_outcome(status, running)
            == Err::<bool, TfocusErrorView>(TfocusErrorView::CommandExecutionError(m@)),
        status matches CommandStatus::WaitFailed(m) ==> spec_command_outcome(status, running)
            == Err::<bool, TfocusErrorView>(
            TfocusErrorView::CommandExecutionError("Failed to execute terraform command: "@ + m@),
        ),
{
}

/// The result of a Terraform run, given how it ended and whether the user
/// had interrupted it.
pub fn command_outcome(status: CommandStatus, running: bool) -> (res: Result<bool, TfocusError>)
    ensures
        match (res, spec_command_outcome(status, running)) {
            (Ok(b), Ok(c)) => b == c,
            (Err(e), Err(v)) => e@ == v,
            _ => false,
        },
        res matches Ok(b) ==> (status matches CommandStatus::Exited { success, .. } && success
            && b == running),
        match status {
            CommandStatus::Exited { success, description } => !success ==> match res {
                Ok(_) => false,
                Err(e) => e@ == TfocusErrorView::TerraformError(
                    "Terraform command failed with status: "@ + description@,
                ),
            },
            _ => true,
        },
{
    proof {
        lemma_command_outcome(status, running);
    }
    match status {
        CommandStatus::SpawnFailed(m) => Err(TfocusError::CommandExecutionError(m)),
        CommandStatus::WaitFailed(m) => Err(
            TfocusError::CommandExecutionError(
                String::from_str("Failed to execute terraform command: ").concat(m.as_str()),
            ),
        ),
        CommandStatus::Exited { success, description } => if success {
            Ok(running)
        } else {
            Err(
                TfocusError::TerraformError(
                    String::from_str("Terraform command failed with status: ").concat(
                        description.as_str(),
                    ),
                ),
            )
        },
    }
}

/// What Terraform is run with.
pub struct ExecutionPlan {
    pub operation: Operation,
    pub target_options: Vec<String>,
    pub working_dir: String,
}

/// The mathematical value of an [`ExecutionPlan`].
pub struct ExecutionPlanView {
    pub operation: Operation,
    pub target_options: Seq<Seq<char>>,
    pub working_dir: Seq<char>,
}

impl View for ExecutionPlan {
    type V = ExecutionPlanView;

    open spec fn view(&self) -> ExecutionPlanView {
        ExecutionPlanView {
            operation: self.operation,
            target_options: strings_view(self.target_options@),
            working_dir: self.working_dir@,
        }
    }
}

/// The plan for running `op` on `rs`: the target options are worked out
/// first, then the directory.
pub open spec fn planned(rs: Seq<ResourceView>, op: Operation) -> Result<
    ExecutionPlanView,
    TfocusErrorView,
> {
    if rs.len() == 0 {
        Err(TfocusErrorView::ParseError("No targets specified"@))
    } else if resource_dirs(rs).len() > 1 {
        Err(TfocusErrorView::MixedWorkingDirectories(resource_dirs(rs)))
    } else {
        Ok(
            ExecutionPlanView {
                operation: op,
                target_options: dedup_first(target_options_of(rs)),
                working_dir: working_dir_of(rs[0].file_path),
            },
        )
    }
}

/// Runs `operation` on `resources`: `setup` prepares the run (it installs
/// the interrupt handler and yields what `run` needs), then the target
/// options and the directory are worked out, and `run` starts Terraform
/// with them and waits for it. The first failure is returned. `run` may be
/// called only with the planned plan, so Terraform is never started when
/// planning fails (no resource, or resources in several directories).
pub fn execute_with_resources<H, S, R>(
    resources: &[Resource],
    operation: Operation,
    setup: S,
    run: R,
) -> (res: Result<(), TfocusError>) where
    S: FnOnce() -> Result<H, TfocusError>,
    R: FnOnce(ExecutionPlan, H) -> Result<bool, TfocusError>,

    requires
        call_requires(setup, ()),
        forall|p: ExecutionPlan, h: H|
            planned(resources_view(resources@), operation) == Ok::<
                ExecutionPlanView,
                TfocusErrorView,
            >(p@) ==> call_requires(run, (p, h)),
    ensures
        match res {
            Ok(()) => exists|h: H, p: ExecutionPlan, b: bool|
                {
                    &&& call_ensures(setup, (), Ok::<H, TfocusError>(h))
                    &&& planned(resources_view(resources@), operation) == Ok::<
                        ExecutionPlanView,
                        TfocusErrorView,
                    >(p@)
                    &&& call_ensures(run, (p, h), Ok::<bool, TfocusError>(b))
                },
            Err(e) => {
                ||| call_ensures(setup, (), Err::<H, TfocusError>(e))
                ||| exists|h: H|
                    {
                        &&& call_ensures(setup, (), Ok::<H, TfocusError>(h))
                        &&& planned(resources_view(resources@), operation) == Err::<
                            ExecutionPlanView,
                            TfocusErrorView,
                        >(e@)
                        &&& resources@.len() > 0 ==> lists_directories_of(
                            resource_dirs(resources_view(resources@)),
                            resource_files(resources_view(resources@)),
                        )
                    }
                ||| exists|h: H, p: ExecutionPlan|
                    {
                        &&& call_ensures(setup, (), Ok::<H, TfocusError>(h))
                        &&& planned(resources_view(resources@), operation) == Ok::<
                            ExecutionPlanView,
                            TfocusErrorView,
                        >(p@)
                        &&& call_ensures(run, (p, h), Err::<bool, TfocusError>(e))
                    }
            },
        },
{
    let handle = match setup() {
        Ok(h) => h,
        Err(e) => return Err(e),
    };
    let target_options = match create_target_options(resources) {
        Ok(t) => t,
        Err(e) => return Err(e),
    };
    let working_dir = match get_working_directory(resources) {
        Ok(d) => d,
        Err(e) => return Err(e),
    };
    let plan = ExecutionPlan { operation, target_options, working_dir };
    proof {
        assert(resources_view(resources@)[0] == resources@[0]@);
        assert(planned(resources_view(resources@), operation) == Ok::<
            ExecutionPlanView,
            TfocusErrorView,
        >(plan@));
    }
    let ghost gplan = plan;
    let ghost ghandle = handle;
    let outcome = run(plan, handle);
    match outcome {
        Ok(b) => {
            assert(call_ensures(run, (gplan, ghandle), Ok::<bool, TfocusError>(b)));
            assert(call_ensures(setup, (), Ok::<H, TfocusError>(ghandle)));
            Ok(())
        },
        Err(e) => Err(e),
    }
}

/// The target options are each listed once, and they are exactly the
/// options of the resources: an option is in the result if and only if some
/// resource has it.
pub proof fn lemma_dedup_first(s: Seq<Seq<char>>)
    ensures
        dedup_first(s).no_duplicates(),
        forall|x: Seq<char>| dedup_first(s).contains(x) <==> s.contains(x),
    decreases s.len(),
{
    if s.len() > 0 {
        let p = s.drop_last();
        lemma_dedup_first(p);
        let d = dedup_first(p);
        let last = s.last();
        assert(s[s.len() - 1] == last);
        assert(d.push(last)[d.len() as int] == last);
        assert forall|x: Seq<char>| dedup_first(s).contains(x) <==> s.contains(x) by {
            if p.contains(x) {
                let k = choose|k: int| 0 <= k < p.len() && p[k] == x;
                assert(s[k] == x);
            }
            if s.contains(x) && x != last {
                let k = choose|k: int| 0 <= k < s.len() && s[k] == x;
                assert(p[k] == x);
            }
            if d.contains(x) {
                let k = choose|k: int| 0 <= k < d.len() && d[k] == x;
                assert(d.push(last)[k] == x);
            }
            if d.push(last).contains(x) && x != last {
                let k = choose|k: int| 0 <= k < d.push(last).len() && d.push(last)[k] == x;
                assert(d[k] == x);
            }
        }
        if !d.contains(s.last()) {
            assert forall|i: int, j: int|
                0 <= i < d.push(s.last()).len() && 0 <= j < d.push(s.last()).len() && i != j
                    implies d.push(s.last())[i] != d.push(s.last())[j] by {
                if i == d.len() as int {
                    assert(d[j] == d.push(s.last())[j]);
                } else if j == d.len() as int {
                    assert(d[i] == d.push(s.last())[i]);
                }
            }
        }
    }
}

/// A sequence without repeats is left as it is.
pub proof fn lemma_dedup_first_distinct(s: Seq<Seq<char>>)
    requires
        s.no_duplicates(),
    ensures
        dedup_first(s) == s,
    decreases s.len(),
{
    if s.len() > 0 {
        let p = s.drop_last();
        assert(p.no_duplicates()) by {
            assert forall|i: int, j: int| 0 <= i < p.len() && 0 <= j < p.len() && i != j implies p[i]
                != p[j] by {
                assert(p[i] == s[i] && p[j] == s[j]);
            }
        }
        lemma_dedup_first_distinct(p);
        lemma_dedup_first(p);
        if p.contains(s.last()) {
            let k = choose|k: int| 0 <= k < p.len() && p[k] == s.last();
            assert(s[k] == s[s.len() - 1]);
        }
        assert(p.push(s.last()) =~= s);
    }
}

/// Terraform is started with the operation followed only by `-target=`
/// options; in particular `-auto-approve` is never passed, so `apply` asks
/// for confirmation in Terraform's own prompt.
pub proof fn lemma_arguments_are_targets(rs: Seq<ResourceView>, op: Operation)
    ensures
        match planned(rs, op) {
            Ok(p) => forall|i: int|
                0 <= i < p.target_options.len() ==> {
                    &&& (#[trigger] p.target_options[i]).take(8) == "-target="@
                    &&& p.target_options[i] != "-auto-approve"@
                },
            Err(_) => true,
        },
{
    reveal_strlit("-target=");
    reveal_strlit("-auto-approve");
    let opts = target_options_of(rs);
    lemma_dedup_first(opts);
    let d = dedup_first(opts);
    assert forall|i: int| 0 <= i < d.len() implies {
        &&& (#[trigger] d[i]).take(8) == "-target="@
        &&& d[i] != "-auto-approve"@
    } by {
        assert(d.contains(d[i]));
        assert(opts.contains(d[i]));
        let k = choose|k: int| 0 <= k < opts.len() && opts[k] == d[i];
        assert(opts[k] == "-target="@ + target_address(rs[k]));
        assert(d[i].take(8) =~= "-target="@);
        if d[i] == "-auto-approve"@ {
            assert(d[i][1] == 't');
        }
    }
}

} // verus!
