//! Running a plan: the files that it needs, how it is started, how long it is
//! waited for, and what a check of it prints.
use crate::dataflow::DoraInput;
use crate::number::{decimal, decimal_text};
use crate::paths::{abs, path_in};
use crate::plan::{Plan, PlanView};
use crate::text::texts;
use vstd::prelude::*;

verus! {

/// How long a report is waited for, in nanoseconds: one hour.
pub const REPORT_WAIT_NANOS: u64 = 3_600_000_000_000;

/// How long is paused between two looks for a report, in milliseconds.
pub const REPORT_POLL_MILLIS: u64 = 50;

/// A file to write.
#[derive(Debug)]
pub struct TextFile {
    pub path: String,
    pub text: String,
}

impl View for TextFile {
    type V = (Seq<char>, Seq<char>);

    open spec fn view(&self) -> (Seq<char>, Seq<char>) {
        (self.path@, self.text@)
    }
}

/// The models of files to write.
pub open spec fn file_views(files: Seq<TextFile>) -> Seq<(Seq<char>, Seq<char>)> {
    files.map_values(|f: TextFile| f@)
}

/// What a work directory takes: the files to write in order, the directory
/// that is made before, and where the dataflow is then.
#[derive(Debug)]
pub struct WorkFiles {
    /// The directory of the Python package. The directories of all files are
    /// there where it is.
    pub package_dir: String,
    pub files: Vec<TextFile>,
    pub dataflow: String,
}

/// Where the Python side of the framework goes.
pub open spec fn python_place(plan: PlanView) -> Seq<char> {
    path_in(plan.workdir, "pylib"@)
}

/// Where the dataflow of a plan goes.
pub open spec fn dataflow_place(plan: PlanView) -> Seq<char> {
    path_in(plan.workdir, "dataflow.yml"@)
}

/// The files of a plan by path: the module that Python nodes import, the
/// program of the report node, and the dataflow.
pub open spec fn generated(
    plan: PlanView,
    helper: Seq<char>,
    report: Seq<char>,
    dataflow: Seq<char>,
) -> Seq<(Seq<char>, Seq<char>)> {
    seq![
        (path_in(python_place(plan), "bagflow/__init__.py"@), helper),
        (path_in(python_place(plan), "report.py"@), report),
        (dataflow_place(plan), dataflow),
    ]
}

/// The files of `plan`, with the given texts for the module, the report
/// program and the dataflow.
pub fn work_files(plan: &Plan, helper: String, report: String, dataflow: String) -> (work:
    WorkFiles)
    ensures
        work.package_dir@ == path_in(python_place(plan@), "bagflow"@),
        file_views(work.files@) == generated(plan@, helper@, report@, dataflow@),
        work.dataflow@ == dataflow_place(plan@),
{
    let pylib = abs(plan.workdir.as_str(), "pylib");
    let dataflow_path = abs(plan.workdir.as_str(), "dataflow.yml");
    let ghost all = generated(plan@, helper@, report@, dataflow@);
    let mut files: Vec<TextFile> = Vec::new();
    files.push(TextFile { path: abs(pylib.as_str(), "bagflow/__init__.py"), text: helper });
    files.push(TextFile { path: abs(pylib.as_str(), "report.py"), text: report });
    files.push(TextFile { path: dataflow_path.clone(), text: dataflow });
    assert(file_views(files@) =~= all);
    WorkFiles { package_dir: abs(pylib.as_str(), "bagflow"), files, dataflow: dataflow_path }
}

/// The text of each file after `files` are written in order.
pub open spec fn written(
    disk: Map<Seq<char>, Seq<char>>,
    files: Seq<(Seq<char>, Seq<char>)>,
) -> Map<Seq<char>, Seq<char>>
    decreases files.len(),
{
    if files.len() == 0 {
        disk
    } else {
        written(disk, files.drop_last()).insert(files.last().0, files.last().1)
    }
}

/// No file of a plan takes the place of another: each holds its own text when
/// all are written.
pub proof fn lemma_written(
    disk: Map<Seq<char>, Seq<char>>,
    plan: PlanView,
    helper: Seq<char>,
    report: Seq<char>,
    dataflow: Seq<char>,
)
    ensures
        ({
            let after = written(disk, generated(plan, helper, report, dataflow));
            &&& after == disk.insert(
                path_in(python_place(plan), "bagflow/__init__.py"@),
                helper,
            ).insert(path_in(python_place(plan), "report.py"@), report).insert(
                dataflow_place(plan),
                dataflow,
            )
            &&& after[path_in(python_place(plan), "bagflow/__init__.py"@)] == helper
            &&& after[path_in(python_place(plan), "report.py"@)] == report
            &&& after[dataflow_place(plan)] == dataflow
        }),
{
    reveal_strlit("bagflow/__init__.py");
    reveal_strlit("report.py");
    reveal_strlit("dataflow.yml");
    let files = generated(plan, helper, report, dataflow);
    let (a, b, c) = (files[0].0, files[1].0, files[2].0);
    assert("bagflow/__init__.py"@.last() == 'y' && "bagflow/__init__.py"@[0] == 'b');
    assert("report.py"@.last() == 'y' && "report.py"@[0] == 'r');
    assert("dataflow.yml"@.last() == 'l' && "dataflow.yml"@[0] == 'd');
    assert(a.len() == b.len() + 10);
    assert(a.last() == 'y' && b.last() == 'y' && c.last() == 'l');
    reveal_with_fuel(written, 4);
    assert(files.drop_last() =~= seq![files[0], files[1]]);
    assert(files.drop_last().drop_last() =~= seq![files[0]]);
    assert(files.drop_last().drop_last().drop_last() =~= seq![]);
}

/// Writing the files of a plan again changes nothing.
pub proof fn writing_the_files_again_changes_nothing(
    disk: Map<Seq<char>, Seq<char>>,
    plan: PlanView,
    helper: Seq<char>,
    report: Seq<char>,
    dataflow: Seq<char>,
)
    ensures
        ({
            let files = generated(plan, helper, report, dataflow);
            written(written(disk, files), files) == written(disk, files)
        }),
{
    let files = generated(plan, helper, report, dataflow);
    let once = written(disk, files);
    lemma_written(disk, plan, helper, report, dataflow);
    lemma_written(once, plan, helper, report, dataflow);
    assert(written(once, files) =~= once);
}

/// The arguments that start a dataflow: detached where nothing waits for its
/// end, else attached.
pub open spec fn start_arguments(dataflow: Seq<char>, no_attach: bool) -> Seq<Seq<char>> {
    seq![
        "start"@,
        dataflow,
        if no_attach {
            "--detach"@
        } else {
            "--attach"@
        },
    ]
}

/// The arguments that start a dataflow.
pub fn start_args(dataflow: &str, no_attach: bool) -> (args: Vec<String>)
    ensures
        texts(args@) == start_arguments(dataflow@, no_attach),
{
    let mut args: Vec<String> = Vec::new();
    args.push("start".to_owned());
    args.push(dataflow.to_owned());
    args.push(
        if no_attach {
            "--detach".to_owned()
        } else {
            "--attach".to_owned()
        },
    );
    assert(texts(args@) =~= start_arguments(dataflow@, no_attach));
    args
}

/// What is done while a report is waited for.
#[derive(Clone, Copy, Debug, PartialEq, Eq, Structural)]
pub enum Wait {
    /// The report is there.
    Done,
    /// It took too long.
    TimedOut,
    /// Pause, and look again.
    Pause,
}

/// What is done after a look for the report, `waited_nanos` after the start of
/// the wait. A report that is there counts however late it came.
pub open spec fn next_wait(report_found: bool, waited_nanos: int) -> Wait {
    if report_found {
        Wait::Done
    } else if waited_nanos > REPORT_WAIT_NANOS {
        Wait::TimedOut
    } else {
        Wait::Pause
    }
}

/// What is done after a look for the report.
pub fn wait_step(report_found: bool, waited_nanos: u64) -> (step: Wait)
    ensures
        step == next_wait(report_found, waited_nanos as int),
        step == if report_found {
            Wait::Done
        } else if waited_nanos > REPORT_WAIT_NANOS {
            Wait::TimedOut
        } else {
            Wait::Pause
        },
{
    if report_found {
        Wait::Done
    } else if waited_nanos > REPORT_WAIT_NANOS {
        Wait::TimedOut
    } else {
        Wait::Pause
    }
}

/// What is said where a report did not come.
pub fn timeout_message(report_path: &str) -> (text: String)
    ensures
        text@ == "timed out waiting for "@ + report_path@,
{
    let mut text = "timed out waiting for ".to_owned();
    text.append(report_path);
    text
}

/// The line that a check prints for a topic.
pub open spec fn checked_topic(topic: Seq<char>, count: Option<u64>) -> Seq<char> {
    match count {
        Some(n) => "  "@ + topic + " ("@ + decimal(n as nat) + " msgs)"@,
        None => "  "@ + topic + " (count unknown)"@,
    }
}

fn checked_topic_line(topic: &str, count: Option<u64>) -> (line: String)
    ensures
        line@ == checked_topic(topic@, count),
{
    let mut line = "  ".to_owned();
    line.append(topic);
    match count {
        Some(n) => {
            line.append(" (");
            line.append(decimal_text(n).as_str());
            line.append(" msgs)");
        },
        None => {
            line.append(" (count unknown)");
        },
    }
    line
}

/// The line that says where the report is.
pub open spec fn report_place(report_path: Seq<char>) -> Seq<char> {
    "report: "@ + report_path
}

/// The line that says where the report is.
pub fn report_line(report_path: &str) -> (line: String)
    ensures
        line@ == report_place(report_path@),
{
    let mut line = "report: ".to_owned();
    line.append(report_path);
    line
}

/// What a check prints for a flow that has nothing wrong: its topics in
/// ascending order, and where its report goes.
pub open spec fn check_report(plan: PlanView) -> Seq<Seq<char>> {
    (seq!["preflight OK — subscribed topics:"@] + plan.topics.map_values(
        |t: (Seq<char>, Option<u64>)| checked_topic(t.0, t.1),
    )).push(report_place(plan.report_path))
}

/// What a check prints for a flow that has nothing wrong.
pub fn check_lines(plan: &Plan) -> (lines: Vec<String>)
    ensures
        texts(lines@) == check_report(plan@),
{
    let mut lines: Vec<String> = Vec::new();
    lines.push("preflight OK — subscribed topics:".to_owned());
    let ghost all = check_report(plan@);
    let mut i: usize = 0;
    while i < plan.topics.len()
        invariant
            i <= plan.topics.len(),
            all == check_report(plan@),
            texts(lines@) =~= all.take(i + 1),
        decreases plan.topics.len() - i,
    {
        let ghost so_far = texts(lines@);
        lines.push(checked_topic_line(plan.topics[i].0.as_str(), plan.topics[i].1));
        assert(plan@.topics[i as int] == (plan.topics@[i as int].0@, plan.topics@[i as int].1));
        assert(texts(lines@) =~= so_far.push(all[i + 1]));
        assert(all.take(i + 2) =~= all.take(i + 1).push(all[i + 1]));
        i += 1;
    }
    let ghost so_far = texts(lines@);
    lines.push(report_line(plan.report_path.as_str()));
    assert(texts(lines@) =~= so_far.push(report_place(plan@.report_path)));
    assert(all =~= all.take(i + 1).push(report_place(plan@.report_path)));
    lines
}

/// The model of a plan has the fields of the plan.
pub proof fn the_model_of_a_plan_is_the_plan(plan: Plan, i: int)
    ensures
        plan@.report_path == plan.report_path@,
        plan@.workdir == plan.workdir@,
        plan@.topics.len() == plan.topics@.len(),
        0 <= i < plan.topics@.len() ==> plan@.topics[i] == (plan.topics@[i].0@, plan.topics@[i].1),
        plan@.nodes.len() == plan.dataflow.nodes@.len(),
        0 <= i < plan.dataflow.nodes@.len() ==> {
            let node = plan.dataflow.nodes@[i];
            &&& plan@.nodes[i].id == node.id@
            &&& plan@.nodes[i].path == node.path@
            &&& plan@.nodes[i].inputs == node.inputs@
            &&& plan@.nodes[i].outputs == node.outputs@.map_values(|s: String| s@)
            &&& plan@.nodes[i].env == node.env@
        },
{
}

/// The model of an input of a dataflow has the fields of the input.
pub proof fn the_model_of_an_edge_is_the_edge(input: DoraInput)
    ensures
        input@.source == input.source@,
        input@.queue_size == input.queue_size,
{
}

/// A check prints a heading, a line for each topic in order, which tells its
/// name and how many messages there are, where that is known, and where the
/// report goes.
pub proof fn a_check_prints_every_topic(plan: PlanView, i: int)
    ensures
        check_report(plan).len() == plan.topics.len() + 2,
        check_report(plan)[0] == "preflight OK — subscribed topics:"@,
        check_report(plan)[plan.topics.len() as int + 1] == "report: "@ + plan.report_path,
        0 <= i < plan.topics.len() ==> check_report(plan)[i + 1] == match plan.topics[i].1 {
            Some(n) => seq![' ', ' '] + plan.topics[i].0 + seq![' ', '('] + decimal(n as nat)
                + " msgs)"@,
            None => seq![' ', ' '] + plan.topics[i].0 + " (count unknown)"@,
        },
{
    reveal_strlit("  ");
    reveal_strlit(" (");
    assert("  "@ =~= seq![' ', ' ']);
    assert(" ("@ =~= seq![' ', '(']);
}

/// A dataflow is started by its path, detached or attached as is asked for.
pub proof fn a_dataflow_is_started_by_its_path(dataflow: Seq<char>, no_attach: bool)
    ensures
        start_arguments(dataflow, no_attach).len() == 3,
        start_arguments(dataflow, no_attach)[0] == "start"@,
        start_arguments(dataflow, no_attach)[1] == dataflow,
        no_attach ==> start_arguments(dataflow, no_attach)[2] == "--detach"@,
        !no_attach ==> start_arguments(dataflow, no_attach)[2] == "--attach"@,
{
}

/// The files of a plan stand in its work directory: the dataflow itself, and
/// the Python side in `pylib`.
pub proof fn the_files_stand_in_the_work_directory(
    plan: PlanView,
    helper: Seq<char>,
    report: Seq<char>,
    dataflow: Seq<char>,
)
    requires
        plan.workdir.len() > 0,
        plan.workdir[plan.workdir.len() - 1] != '/',
    ensures
        generated(plan, helper, report, dataflow).len() == 3,
        generated(plan, helper, report, dataflow)[0] == (
            plan.workdir + "/pylib/bagflow/__init__.py"@,
            helper,
        ),
        generated(plan, helper, report, dataflow)[1] == (
            plan.workdir + "/pylib/report.py"@,
            report,
        ),
        generated(plan, helper, report, dataflow)[2] == (plan.workdir + "/dataflow.yml"@, dataflow),
        dataflow_place(plan) == plan.workdir + "/dataflow.yml"@,
{
    reveal_strlit("pylib");
    reveal_strlit("bagflow/__init__.py");
    reveal_strlit("report.py");
    reveal_strlit("dataflow.yml");
    reveal_strlit("/pylib/bagflow/__init__.py");
    reveal_strlit("/pylib/report.py");
    reveal_strlit("/dataflow.yml");
    let w = plan.workdir;
    assert("pylib"@[0] == 'p' && "bagflow/__init__.py"@[0] == 'b');
    assert("report.py"@[0] == 'r' && "dataflow.yml"@[0] == 'd');
    let pylib = w + seq!['/'] + "pylib"@;
    assert("pylib"@.last() == 'b');
    assert(pylib.last() == 'b');
    assert(path_in(w, "pylib"@) =~= pylib);
    assert(path_in(w, "dataflow.yml"@) =~= w + "/dataflow.yml"@);
    assert(path_in(pylib, "report.py"@) =~= w + "/pylib/report.py"@);
    assert(path_in(pylib, "bagflow/__init__.py"@) =~= w + "/pylib/bagflow/__init__.py"@);
}

/// The model of a file is its path and its text, and that of a list of them the
/// models of each.
pub proof fn the_model_of_a_file_is_path_and_text(file: TextFile, list: Seq<TextFile>, i: int)
    ensures
        file@ == (file.path@, file.text@),
        file_views(list).len() == list.len(),
        0 <= i < list.len() ==> file_views(list)[i] == list[i]@,
{
}

/// A wait ends well exactly where the report is there, at whatever time. It is
/// given up exactly where the report is not there after an hour.
pub proof fn a_report_is_waited_for_one_hour(found: bool, waited_nanos: int)
    ensures
        next_wait(found, waited_nanos) == Wait::Done <==> found,
        next_wait(found, waited_nanos) == Wait::TimedOut <==> !found && waited_nanos > 60 * 60
            * 1_000_000_000,
{
}

} // verus!
