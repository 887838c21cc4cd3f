//! What the answers of the Docker daemon mean for the runner.

use crate::container::ContainerSetup;
use crate::numbers::{leading_digits, lemma_number_read_back, signed_decimal, signed_text};
use crate::paint::{
    err_text_line, out_line, out_text_line, print_error, print_line, print_text, prints, span,
    spans, Paint, Print, PrintModel,
};
use crate::result::exit_code_in;
use crate::text::{
    contains_text, first_occurrence, lemma_first_occurrence, lemma_found_within, occurs,
    occurs_at, texts,
};
use vstd::prelude::*;
use vstd::string::*;

verus! {

// ---------------------------------------------------------------------------
// Images
// ---------------------------------------------------------------------------
/// What is printed once it is known whether an image is present. With `quiet`,
/// standard output is left alone.
pub open spec fn image_prints(image: Seq<char>, present: bool, quiet: bool) -> Seq<PrintModel> {
    if quiet {
        seq![]
    } else if present {
        seq![
            out_line(
                seq![
                    ("  "@, Paint::Plain),
                    ("[OK]"@, Paint::Green),
                    (" Image ready: "@ + image, Paint::Plain),
                ],
            ),
        ]
    } else {
        seq![
            out_line(
                seq![
                    ("  "@, Paint::Plain),
                    ("[..]"@, Paint::Blue),
                    (" Pulling image: "@ + image, Paint::Plain),
                ],
            ),
        ]
    }
}

/// What is printed once it is known whether an image is present. The image is
/// pulled if and only if it is not.
pub fn announce_image(image: &str, present: bool, quiet: bool) -> (r: Vec<Print>)
    ensures
        prints(r@) == image_prints(image@, present, quiet),
{
    if quiet {
        let r: Vec<Print> = Vec::new();
        assert(prints(r@) =~= seq![]);
        return r;
    }
    let list = if present {
        vec![
            span("  ".to_string(), Paint::Plain),
            span("[OK]".to_string(), Paint::Green),
            span(" Image ready: ".to_string().concat(image), Paint::Plain),
        ]
    } else {
        vec![
            span("  ".to_string(), Paint::Plain),
            span("[..]".to_string(), Paint::Blue),
            span(" Pulling image: ".to_string().concat(image), Paint::Plain),
        ]
    };
    assert(present ==> spans(list@) =~= seq![
        ("  "@, Paint::Plain),
        ("[OK]"@, Paint::Green),
        (" Image ready: "@ + image@, Paint::Plain),
    ]);
    assert(!present ==> spans(list@) =~= seq![
        ("  "@, Paint::Plain),
        ("[..]"@, Paint::Blue),
        (" Pulling image: "@ + image@, Paint::Plain),
    ]);
    let r: Vec<Print> = vec![print_line(list)];
    assert(prints(r@) =~= image_prints(image@, present, quiet));
    r
}

/// What the daemon reports while it pulls an image.
#[derive(Debug)]
pub enum PullEvent<T> {
    /// Progress, perhaps with a status.
    Info(Option<T>),
    /// The pull failed.
    Failed(T),
    /// There is nothing more to report.
    End,
}

/// What to do about a report.
#[derive(Debug)]
pub enum PullAction<T> {
    /// Wait for the next report.
    Wait,
    /// Show a message and wait for the next report.
    Show(T),
    /// Finish the progress display with a message: the image is ready.
    Ready(T),
    /// Finish the progress display with a message and report an error.
    Fail { message: T, error: T },
}

impl View for PullEvent<String> {
    type V = PullEvent<Seq<char>>;

    open spec fn view(&self) -> PullEvent<Seq<char>> {
        match self {
            PullEvent::Info(Some(status)) => PullEvent::Info(Some(status@)),
            PullEvent::Info(None) => PullEvent::Info(None),
            PullEvent::Failed(error) => PullEvent::Failed(error@),
            PullEvent::End => PullEvent::End,
        }
    }
}

impl View for PullAction<String> {
    type V = PullAction<Seq<char>>;

    open spec fn view(&self) -> PullAction<Seq<char>> {
        match self {
            PullAction::Wait => PullAction::Wait,
            PullAction::Show(message) => PullAction::Show(message@),
            PullAction::Ready(message) => PullAction::Ready(message@),
            PullAction::Fail { message, error } => PullAction::Fail {
                message: message@,
                error: error@,
            },
        }
    }
}

/// The error for an image that cannot be pulled.
pub open spec fn pull_error(image: Seq<char>, error: Seq<char>) -> Seq<char> {
    "Failed to pull Docker image '"@ + image + "': "@ + error
        + "\nPossible causes:\n• Image name is incorrect or doesn't exist\n• No internet connection\n• Docker registry is unreachable\n• Authentication required for private images\nHint: Try 'docker pull "@
        + image + "' manually to test connectivity"@
}

/// What to do about a report.
pub open spec fn pull_action(image: Seq<char>, event: PullEvent<Seq<char>>) -> PullAction<
    Seq<char>,
> {
    match event {
        PullEvent::Info(Some(status)) => PullAction::Show(image + ": "@ + status),
        PullEvent::Info(None) => PullAction::Wait,
        PullEvent::Failed(error) => PullAction::Fail {
            message: "Failed to pull image: "@ + image,
            error: pull_error(image, error),
        },
        PullEvent::End => PullAction::Ready("[OK] Image ready: "@ + image),
    }
}

/// What to do about a report on the pull of `image`.
pub fn pull_image(image: &str, event: PullEvent<String>) -> (r: PullAction<String>)
    ensures
        r@ == pull_action(image@, event@),
{
    match event {
        PullEvent::Info(Some(status)) => PullAction::Show(
            image.to_string().concat(": ").concat(status.as_str()),
        ),
        PullEvent::Info(None) => PullAction::Wait,
        PullEvent::Failed(error) => PullAction::Fail {
            message: "Failed to pull image: ".to_string().concat(image),
            error: "Failed to pull Docker image '".to_string().concat(image).concat("': ").concat(
                error.as_str(),
            ).concat(
                "\nPossible causes:\n• Image name is incorrect or doesn't exist\n• No internet connection\n• Docker registry is unreachable\n• Authentication required for private images\nHint: Try 'docker pull ",
            ).concat(image).concat("' manually to test connectivity"),
        },
        PullEvent::End => PullAction::Ready("[OK] Image ready: ".to_string().concat(image)),
    }
}

// ---------------------------------------------------------------------------
// Creating and starting
// ---------------------------------------------------------------------------
/// The error for a container that cannot be created.
pub open spec fn create_error(step_name: Seq<char>, image: Seq<char>, error: Seq<char>) -> Seq<
    char,
> {
    "Failed to create Docker container for step '"@ + step_name + "': "@ + error
        + "\nPossible causes:\n• Docker daemon is not running\n• Insufficient disk space\n• Invalid container configuration\n• Docker image '"@
        + image + "' is corrupted\nHint: Try 'docker ps' to check if Docker is running"@
}

/// The error for a container that cannot be started.
pub open spec fn start_error(id: Seq<char>, step_name: Seq<char>, error: Seq<char>) -> Seq<char> {
    "Failed to start Docker container '"@ + id + "' for step '"@ + step_name + "': "@ + error
        + "\nPossible causes:\n• Docker daemon stopped responding\n• Container configuration is invalid\n• Insufficient system resources\nHint: Check Docker daemon status with 'docker info'"@
}

/// The id of a container that the daemon was asked to create, or the error.
pub fn created_container(setup: &ContainerSetup, reply: Result<String, String>) -> (r: Result<
    String,
    String,
>)
    ensures
        r is Ok <==> reply is Ok,
        reply matches Ok(id) ==> r->Ok_0@ == id@,
        reply matches Err(e) ==> r->Err_0@ == create_error(setup.step_name@, setup.image@, e@),
{
    match reply {
        Ok(id) => Ok(id),
        Err(e) => Err(
            "Failed to create Docker container for step '".to_string().concat(
                setup.step_name.as_str(),
            ).concat("': ").concat(e.as_str()).concat(
                "\nPossible causes:\n• Docker daemon is not running\n• Insufficient disk space\n• Invalid container configuration\n• Docker image '",
            ).concat(setup.image.as_str()).concat(
                "' is corrupted\nHint: Try 'docker ps' to check if Docker is running",
            ),
        ),
    }
}

/// The id of a container that the daemon was asked to start, or the error.
pub fn started_container(setup: &ContainerSetup, id: String, reply: Result<(), String>) -> (r:
    Result<String, String>)
    ensures
        r is Ok <==> reply is Ok,
        reply is Ok ==> r->Ok_0@ == id@,
        reply matches Err(e) ==> r->Err_0@ == start_error(id@, setup.step_name@, e@),
{
    match reply {
        Ok(_) => Ok(id),
        Err(e) => Err(
            "Failed to start Docker container '".to_string().concat(id.as_str()).concat(
                "' for step '",
            ).concat(setup.step_name.as_str()).concat("': ").concat(e.as_str()).concat(
                "\nPossible causes:\n• Docker daemon stopped responding\n• Container configuration is invalid\n• Insufficient system resources\nHint: Check Docker daemon status with 'docker info'",
            ),
        ),
    }
}

// ---------------------------------------------------------------------------
// Waiting
// ---------------------------------------------------------------------------
/// What the daemon reports when a container has ended.
#[derive(Debug)]
pub enum WaitReply {
    /// The container ended with a status code.
    Exited(i64),
    /// The wait failed.
    Failed(String),
    /// The daemon reported nothing.
    Nothing,
}

/// The advice after the exit code of a failed step.
pub open spec fn exit_advice() -> Seq<char> {
    "\nHint: Check the command output above for error details. \nYou can run with --verbose for more detailed logging"@
}

/// The error for a step whose command ended with a non-zero code.
pub open spec fn exit_error(step_name: Seq<char>, code: int) -> Seq<char> {
    "Step '"@ + step_name + "' failed with exit code "@ + signed_decimal(code) + exit_advice()
}

/// The error for a wait that failed.
pub open spec fn wait_error(error: Seq<char>) -> Seq<char> {
    "Error waiting for container: "@ + error
        + "\nPossible causes:\n• Docker daemon crashed or stopped\n• Container was forcibly terminated\n• Network connection to Docker was lost\nHint: Check Docker daemon logs for more information"@
}

/// The error for a container that ended without a status code.
pub open spec fn no_status_error() -> Seq<char> {
    "Container exited without providing a status code\nPossible causes:\n• Container was killed externally\n• Docker daemon restarted during execution\nHint: Check 'docker ps -a' to see container status"@
}

/// The error of a step, given how its container ended; `None` if it succeeded.
pub open spec fn step_error(step_name: Seq<char>, reply: WaitReply) -> Option<Seq<char>> {
    match reply {
        WaitReply::Exited(code) => if code == 0 {
            None
        } else {
            Some(exit_error(step_name, code as int))
        },
        WaitReply::Failed(error) => Some(wait_error(error@)),
        WaitReply::Nothing => Some(no_status_error()),
    }
}

/// Whether a step succeeded, given how its container ended.
pub fn wait_for_container(step_name: &str, reply: WaitReply) -> (r: Result<bool, String>)
    ensures
        r is Ok <==> step_error(step_name@, reply) is None,
        r matches Ok(success) ==> success,
        r matches Err(e) ==> e@ == step_error(step_name@, reply)->0,
{
    match reply {
        WaitReply::Exited(code) => if code == 0 {
            Ok(true)
        } else {
            Err(
                "Step '".to_string().concat(step_name).concat("' failed with exit code ").concat(
                    signed_text(code).as_str(),
                ).concat(
                    "\nHint: Check the command output above for error details. \nYou can run with --verbose for more detailed logging",
                ),
            )
        },
        WaitReply::Failed(error) => Err(
            "Error waiting for container: ".to_string().concat(error.as_str()).concat(
                "\nPossible causes:\n• Docker daemon crashed or stopped\n• Container was forcibly terminated\n• Network connection to Docker was lost\nHint: Check Docker daemon logs for more information",
            ),
        ),
        WaitReply::Nothing => Err(
            "Container exited without providing a status code\nPossible causes:\n• Container was killed externally\n• Docker daemon restarted during execution\nHint: Check 'docker ps -a' to see container status".to_string(),
        ),
    }
}

// ---------------------------------------------------------------------------
// Cleaning up
// ---------------------------------------------------------------------------
/// Whether an error on a stop is worth a warning: the daemon answers with
/// status 304 for a container that has stopped already.
pub open spec fn stop_matters(error: Seq<char>) -> bool {
    !occurs(error, "304"@)
}

/// The warning for a container that cannot be stopped.
pub open spec fn stop_warning(id: Seq<char>, reply: Result<(), String>) -> Seq<PrintModel> {
    match reply {
        Err(e) if stop_matters(e@) => seq![
            err_text_line(
                "Warning: Failed to stop container "@ + id + ": "@ + e@,
                Paint::Plain,
            ),
        ],
        _ => seq![],
    }
}

/// What is printed of the answer to a stop.
pub fn stopped_container(id: &str, reply: &Result<(), String>) -> (r: Vec<Print>)
    ensures
        prints(r@) == stop_warning(id@, *reply),
{
    let mut r: Vec<Print> = Vec::new();
    if let Err(e) = reply {
        if !contains_text(e.as_str(), "304") {
            r.push(
                print_error(
                    "Warning: Failed to stop container ".to_string().concat(id).concat(": ").concat(
                        e.as_str(),
                    ),
                    Paint::Plain,
                ),
            );
        }
    }
    assert(prints(r@) =~= stop_warning(id@, *reply));
    r
}

/// What is printed of the answers to the stop and the removal of one container.
pub open spec fn cleanup_prints(
    id: Seq<char>,
    stop: Result<(), String>,
    remove: Result<(), String>,
) -> Seq<PrintModel> {
    stop_warning(id, stop).push(
        match remove {
            Ok(_) => out_text_line("Container removed: "@ + id, Paint::Plain),
            Err(e) => err_text_line("Failed to remove container: "@ + e@, Paint::Plain),
        },
    )
}

/// What is printed of the answers to the stop and the removal of one container.
pub fn cleanup_container(
    id: &str,
    stop: &Result<(), String>,
    remove: &Result<(), String>,
) -> (r: Vec<Print>)
    ensures
        prints(r@) == cleanup_prints(id@, *stop, *remove),
{
    let mut r = stopped_container(id, stop);
    match remove {
        Ok(_) => {
            r.push(print_text("Container removed: ".to_string().concat(id), Paint::Plain));
        },
        Err(e) => {
            r.push(
                print_error(
                    "Failed to remove container: ".to_string().concat(e.as_str()),
                    Paint::Plain,
                ),
            );
        },
    }
    assert(prints(r@) =~= cleanup_prints(id@, *stop, *remove));
    r
}

/// What a run prints when the container of a step is cleaned up: without
/// `verbose`, that it was removed goes without saying.
pub open spec fn step_cleanup_prints(
    id: Seq<char>,
    stop: Result<(), String>,
    remove: Result<(), String>,
    verbose: bool,
) -> Seq<PrintModel> {
    if verbose || remove is Err {
        cleanup_prints(id, stop, remove)
    } else {
        stop_warning(id, stop)
    }
}

/// What a run prints when the container of a step is cleaned up.
pub fn cleanup_step_container(
    id: &str,
    stop: &Result<(), String>,
    remove: &Result<(), String>,
    verbose: bool,
) -> (r: Vec<Print>)
    ensures
        prints(r@) == step_cleanup_prints(id@, *stop, *remove, verbose),
{
    if verbose || remove.is_err() {
        cleanup_container(id, stop, remove)
    } else {
        stopped_container(id, stop)
    }
}

/// The warning for one of several containers that cannot be removed.
pub open spec fn remove_warning(id: Seq<char>, reply: Result<(), String>) -> Seq<PrintModel> {
    match reply {
        Ok(_) => seq![],
        Err(e) => seq![
            err_text_line("Warning: Failed to remove container "@ + id + ": "@ + e@, Paint::Plain),
        ],
    }
}

/// What is printed of the answer to the removal of one of several containers.
pub fn removed_container(id: &str, reply: &Result<(), String>) -> (r: Vec<Print>)
    ensures
        prints(r@) == remove_warning(id@, *reply),
{
    let mut r: Vec<Print> = Vec::new();
    if let Err(e) = reply {
        r.push(
            print_error(
                "Warning: Failed to remove container ".to_string().concat(id).concat(": ").concat(
                    e.as_str(),
                ),
                Paint::Plain,
            ),
        );
    }
    assert(prints(r@) =~= remove_warning(id@, *reply));
    r
}

/// A step in the removal of several containers.
#[derive(Debug)]
pub enum CleanupAction<T> {
    Stop(T),
    Remove(T),
}

impl View for CleanupAction<String> {
    type V = CleanupAction<Seq<char>>;

    open spec fn view(&self) -> CleanupAction<Seq<char>> {
        match self {
            CleanupAction::Stop(id) => CleanupAction::Stop(id@),
            CleanupAction::Remove(id) => CleanupAction::Remove(id@),
        }
    }
}

/// What a list of actions holds.
pub open spec fn cleanup_actions(list: Seq<CleanupAction<String>>) -> Seq<
    CleanupAction<Seq<char>>,
> {
    list.map_values(|a: CleanupAction<String>| a@)
}

/// The removal of several containers: all are stopped, then all are removed.
pub open spec fn cleanup_plan(ids: Seq<Seq<char>>) -> Seq<CleanupAction<Seq<char>>> {
    ids.map_values(|id: Seq<char>| CleanupAction::Stop(id)) + ids.map_values(
        |id: Seq<char>| CleanupAction::Remove(id),
    )
}

/// The removal of several containers: all are stopped, then all are removed.
pub fn cleanup_containers(ids: &[String]) -> (r: Vec<CleanupAction<String>>)
    ensures
        cleanup_actions(r@) == cleanup_plan(texts(ids@)),
{
    let ghost stops = texts(ids@).map_values(|id: Seq<char>| CleanupAction::Stop(id));
    let ghost removes = texts(ids@).map_values(|id: Seq<char>| CleanupAction::Remove(id));
    let mut r: Vec<CleanupAction<String>> = Vec::new();
    let mut i: usize = 0;
    assert(cleanup_actions(r@) =~= stops.take(0));
    while i < ids.len()
        invariant
            i <= ids@.len(),
            stops == texts(ids@).map_values(|id: Seq<char>| CleanupAction::Stop(id)),
            cleanup_actions(r@) == stops.take(i as int),
        decreases ids@.len() - i,
    {
        let ghost before = cleanup_actions(r@);
        r.push(CleanupAction::Stop(ids[i].clone()));
        i += 1;
        assert(cleanup_actions(r@) =~= before.push(stops[i - 1]));
        assert(cleanup_actions(r@) =~= stops.take(i as int));
    }
    assert(cleanup_actions(r@) =~= stops + removes.take(0));
    let mut j: usize = 0;
    while j < ids.len()
        invariant
            j <= ids@.len(),
            removes == texts(ids@).map_values(|id: Seq<char>| CleanupAction::Remove(id)),
            cleanup_actions(r@) == stops + removes.take(j as int),
        decreases ids@.len() - j,
    {
        let ghost before = cleanup_actions(r@);
        r.push(CleanupAction::Remove(ids[j].clone()));
        j += 1;
        assert(cleanup_actions(r@) =~= before.push(removes[j - 1]));
        assert(cleanup_actions(r@) =~= stops + removes.take(j as int));
    }
    assert(cleanup_actions(r@) =~= stops + removes);
    r
}

// ---------------------------------------------------------------------------
// Laws
// ---------------------------------------------------------------------------
/// The advice after an exit code does not start with a digit.
proof fn lemma_advice()
    ensures
        exit_advice().len() > 0,
        exit_advice()[0] == '\n',
{
    reveal_strlit(
        "\nHint: Check the command output above for error details. \nYou can run with --verbose for more detailed logging",
    );
}

/// The words that announce a code stand right before the code, and not earlier.
proof fn lemma_code_position(step_name: Seq<char>, tail: Seq<char>)
    requires
        !occurs(step_name, "exit code "@),
    ensures
        ({
            let msg = "Step '"@ + step_name + "' failed with exit code "@ + tail;
            &&& occurs(msg, "exit code "@)
            &&& msg.skip(first_occurrence(msg, "exit code "@) + "exit code "@.len()) == tail
        }),
{
    let pat = "exit code "@;
    let mid = "' failed with exit code "@;
    let msg = "Step '"@ + step_name + mid + tail;
    reveal_strlit("exit code ");
    reveal_strlit("Step '");
    reveal_strlit("' failed with exit code ");
    let q: int = 6 + step_name.len() as int;
    let k: int = q + 14;
    assert(forall|i: int| 0 <= i < 24 ==> msg[q + i] == #[trigger] mid[i]);
    assert forall|t: int| 0 <= t < 10 implies #[trigger] msg.subrange(k, k + 10)[t] == pat[t] by {
        assert(msg[q + (14 + t)] == mid[14 + t]);
    }
    assert(msg.subrange(k, k + 10) =~= pat);
    assert(occurs_at(msg, pat, k));
    assert forall|j: int| j < k implies !(#[trigger] occurs_at(msg, pat, j)) by {
        if occurs_at(msg, pat, j) {
            let found = msg.subrange(j, j + 10);
            if j <= 5 {
                assert(msg[5] == '\'');
                assert(found[5 - j] == msg[5]);
                assert(pat[5 - j] != '\'');
            } else if j < q && q <= j + 9 {
                assert(msg[q + 0] == mid[0]);
                assert(found[q - j] == msg[q]);
                assert(pat[q - j] != '\'');
            } else if j < q {
                assert(step_name.subrange(j - 6, j + 4) =~= found);
                assert(occurs_at(step_name, pat, j - 6));
            } else {
                assert(found[0] == msg[j] && found[1] == msg[j + 1]);
                assert(msg[q + (j - q)] == mid[j - q]);
                assert(msg[q + (j + 1 - q)] == mid[j + 1 - q]);
            }
        }
    }
    lemma_first_occurrence(msg, pat, k);
    assert(msg.skip(k + 10) =~= tail);
}

/// The exit code that the error of a failed step names is the code with which
/// its command ended: it is read back out of the message, whatever the step is
/// called, as long as its name does not itself hold the words that announce a
/// code. A code that is negative or does not fit is not read back.
pub proof fn law_exit_code_is_read_back(step_name: Seq<char>, code: int)
    requires
        !occurs(step_name, "exit code "@),
    ensures
        exit_code_in(exit_error(step_name, code)) == if 0 <= code <= i32::MAX {
            Some(code as i32)
        } else {
            None
        },
{
    let tail = signed_decimal(code) + exit_advice();
    lemma_code_position(step_name, tail);
    lemma_advice();
    assert(exit_error(step_name, code) =~= "Step '"@ + step_name + "' failed with exit code "@
        + tail);
    if code >= 0 {
        lemma_number_read_back(code as nat, exit_advice());
    } else {
        assert(tail[0] == '-');
        assert(leading_digits(tail) =~= Seq::<char>::empty());
    }
}

/// A step succeeds if and only if its container exits with zero. Otherwise the
/// error names the step and the exit code, or what the daemon said.
pub proof fn law_when_a_step_succeeds(step_name: Seq<char>, reply: WaitReply)
    ensures
        step_error(step_name, reply) is None <==> (reply matches WaitReply::Exited(code) && code
            == 0),
        reply matches WaitReply::Exited(code) ==> code != 0 ==> {
            &&& occurs(
                step_error(step_name, reply)->0,
                "Step '"@ + step_name + "' failed with exit code "@ + signed_decimal(code as int),
            )
        },
        reply matches WaitReply::Failed(error) ==> occurs(step_error(step_name, reply)->0, error@),
{
    let none = Seq::<char>::empty();
    if let WaitReply::Exited(code) = reply {
        if code != 0 {
            let part = "Step '"@ + step_name + "' failed with exit code "@ + signed_decimal(
                code as int,
            );
            assert(step_error(step_name, reply)->0 =~= none + part + exit_advice());
            lemma_found_within(none, part, exit_advice());
        }
    }
    if let WaitReply::Failed(error) = reply {
        lemma_found_within(
            "Error waiting for container: "@,
            error@,
            "\nPossible causes:\n• Docker daemon crashed or stopped\n• Container was forcibly terminated\n• Network connection to Docker was lost\nHint: Check Docker daemon logs for more information"@,
        );
    }
}

/// A pull goes on until the daemon says that it has ended or failed; what it says
/// on the way is shown with the name of the image, and an error is told whole.
pub proof fn law_how_a_pull_goes(image: Seq<char>, status: Seq<char>, error: Seq<char>)
    ensures
        pull_action(image, PullEvent::Info(None)) is Wait,
        pull_action(image, PullEvent::Info(Some(status))) == PullAction::Show(
            image + ": "@ + status,
        ),
        pull_action(image, PullEvent::End) == PullAction::Ready("[OK] Image ready: "@ + image),
        pull_action(image, PullEvent::Failed(error)) matches PullAction::Fail {
            message,
            error: told,
        } && occurs(message, image) && occurs(told, image) && occurs(told, error),
{
    let none = Seq::<char>::empty();
    let head = "Failed to pull Docker image '"@;
    let advice = "\nPossible causes:\n• Image name is incorrect or doesn't exist\n• No internet connection\n• Docker registry is unreachable\n• Authentication required for private images\nHint: Try 'docker pull "@
        + image + "' manually to test connectivity"@;
    let told = pull_error(image, error);
    assert("Failed to pull image: "@ + image =~= "Failed to pull image: "@ + image + none);
    lemma_found_within("Failed to pull image: "@, image, none);
    assert(told =~= head + image + ("': "@ + error + advice));
    lemma_found_within(head, image, "': "@ + error + advice);
    assert(told =~= (head + image + "': "@) + error + advice);
    lemma_found_within(head + image + "': "@, error, advice);
}

/// Cleaning up says at most a warning about the stop and one line about the
/// removal; an error is always told, on standard error, and a stop that was not
/// needed never.
pub proof fn law_what_cleaning_up_says(
    id: Seq<char>,
    stop: Result<(), String>,
    remove: Result<(), String>,
    verbose: bool,
)
    ensures
        ({
            let warned = stop_warning(id, stop);
            let whole = cleanup_prints(id, stop, remove);
            let said = step_cleanup_prints(id, stop, remove, verbose);
            &&& stop is Ok ==> warned.len() == 0
            &&& stop matches Err(e) ==> (if occurs(e@, "304"@) {
                warned.len() == 0
            } else {
                &&& warned.len() == 1
                &&& warned[0].to_stderr
                &&& warned[0].spans == seq![
                    ("Warning: Failed to stop container "@ + id + ": "@ + e@, Paint::Plain),
                ]
            })
            &&& whole.len() == warned.len() + 1
            &&& whole.take(warned.len() as int) == warned
            &&& remove is Ok ==> !whole.last().to_stderr && whole.last().spans == seq![
                ("Container removed: "@ + id, Paint::Plain),
            ]
            &&& remove matches Err(e) ==> whole.last().to_stderr && whole.last().spans == seq![
                ("Failed to remove container: "@ + e@, Paint::Plain),
            ]
            &&& verbose || remove is Err ==> said == whole
            &&& !verbose && remove is Ok ==> said == warned
            &&& remove is Ok ==> remove_warning(id, remove).len() == 0
            &&& remove matches Err(e) ==> {
                &&& remove_warning(id, remove).len() == 1
                &&& remove_warning(id, remove)[0].to_stderr
                &&& remove_warning(id, remove)[0].spans == seq![
                    ("Warning: Failed to remove container "@ + id + ": "@ + e@, Paint::Plain),
                ]
            }
        }),
{
    let warned = stop_warning(id, stop);
    assert(cleanup_prints(id, stop, remove).take(warned.len() as int) =~= warned);
}

/// Several containers are first all stopped and then all removed, each once.
pub proof fn law_cleaning_up_several(ids: Seq<Seq<char>>, k: int)
    requires
        0 <= k < cleanup_plan(ids).len(),
    ensures
        cleanup_plan(ids).len() == 2 * ids.len(),
        k < ids.len() ==> cleanup_plan(ids)[k] == CleanupAction::Stop(ids[k]),
        k >= ids.len() ==> cleanup_plan(ids)[k] == CleanupAction::Remove(ids[k - ids.len()]),
{
}

/// What is said of an image names it, and nothing is said where standard output
/// is not to be used.
pub proof fn law_what_is_said_of_an_image(image: Seq<char>, present: bool, quiet: bool)
    ensures
        quiet ==> image_prints(image, present, quiet).len() == 0,
        !quiet ==> {
            let said = image_prints(image, present, quiet);
            &&& said.len() == 1
            &&& said[0].spans.len() == 3
            &&& present ==> said[0].spans[2].0 == " Image ready: "@ + image
            &&& !present ==> said[0].spans[2].0 == " Pulling image: "@ + image
        },
{
}

/// What is said of a container that cannot be made or started names the step and
/// the error, and the image or the container.
#[verifier::spinoff_prover]
pub proof fn law_a_container_that_fails_is_named(
    step_name: Seq<char>,
    image: Seq<char>,
    id: Seq<char>,
    error: Seq<char>,
)
    ensures
        occurs(create_error(step_name, image, error), "'"@ + step_name + "': "@ + error),
        occurs(create_error(step_name, image, error), image),
        occurs(
            start_error(id, step_name, error),
            "'"@ + id + "' for step '"@ + step_name + "': "@ + error,
        ),
{
    reveal_strlit("'");
    let causes = "\nPossible causes:\n• Docker daemon is not running\n• Insufficient disk space\n• Invalid container configuration\n• Docker image '"@;
    let hint = "' is corrupted\nHint: Try 'docker ps' to check if Docker is running"@;
    let head = "Failed to create Docker container for step "@;
    let part = "'"@ + step_name + "': "@ + error;
    assert("Failed to create Docker container for step '"@ =~= head + "'"@) by {
        reveal_strlit("Failed to create Docker container for step '");
        reveal_strlit("Failed to create Docker container for step ");
    }
    let text = create_error(step_name, image, error);
    assert(text =~= head + part + (causes + image + hint));
    lemma_found_within(head, part, causes + image + hint);
    assert(text =~= (head + part + causes) + image + hint);
    lemma_found_within(head + part + causes, image, hint);
    let begin = "Failed to start Docker container "@;
    assert("Failed to start Docker container '"@ =~= begin + "'"@) by {
        reveal_strlit("Failed to start Docker container '");
        reveal_strlit("Failed to start Docker container ");
    }
    let said = "'"@ + id + "' for step '"@ + step_name + "': "@ + error;
    let rest = "\nPossible causes:\n• Docker daemon stopped responding\n• Container configuration is invalid\n• Insufficient system resources\nHint: Check Docker daemon status with 'docker info'"@;
    assert(start_error(id, step_name, error) =~= begin + said + rest);
    lemma_found_within(begin, said, rest);
}

/// What is known of events and actions is all of it.
pub proof fn law_model_of_answers(
    event: PullEvent<String>,
    action: PullAction<String>,
    list: Seq<CleanupAction<String>>,
    i: int,
)
    requires
        0 <= i < list.len(),
    ensures
        match event {
            PullEvent::Info(Some(status)) => event@ == PullEvent::Info(Some(status@)),
            PullEvent::Info(None) => event@ == PullEvent::Info(None::<Seq<char>>),
            PullEvent::Failed(error) => event@ == PullEvent::Failed(error@),
            PullEvent::End => event@ is End,
        },
        match action {
            PullAction::Wait => action@ is Wait,
            PullAction::Show(message) => action@ == PullAction::Show(message@),
            PullAction::Ready(message) => action@ == PullAction::Ready(message@),
            PullAction::Fail { message, error } => action@ == (PullAction::Fail {
                message: message@,
                error: error@,
            }),
        },
        cleanup_actions(list).len() == list.len(),
        list[i] matches CleanupAction::Stop(id) ==> cleanup_actions(list)[i]
            == CleanupAction::Stop(id@),
        list[i] matches CleanupAction::Remove(id) ==> cleanup_actions(list)[i]
            == CleanupAction::Remove(id@),
{
}

} // verus!
