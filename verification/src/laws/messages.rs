//! Laws of what a message tells: what went wrong, with what, and which limit it broke.

use crate::cli::FileArgs;
use crate::diagnostic;
use crate::number;
use crate::os_text;
use crate::probe;
use crate::probe::ProbeReport;
use crate::probes::exec;
use crate::probes::exec::{ExitStatus, RunFault, SpawnFault};
use crate::probes::file;
use crate::probes::file::{FileFacts, FileFault, Modified};
use crate::probes::grpc;
use crate::probes::http;
use crate::probes::http::{ExchangeFault, HttpTarget, PreparedHttpArgs};
use crate::timing;
use crate::tls;
use crate::tls::PemFault;
use hyper::header::HeaderValue;
use hyper::HeaderMap;
use vstd::prelude::*;

verus! {

/// Whether a message has a text in it.
pub open spec fn mentions(message: Seq<char>, part: Seq<char>) -> bool {
    exists|before: Seq<char>, after: Seq<char>| message == #[trigger] (before + part + after)
}

/// Whether a message ends in a text.
pub open spec fn ends_in(message: Seq<char>, part: Seq<char>) -> bool {
    exists|before: Seq<char>| message == #[trigger] (before + part)
}

/// What goes wrong with an exchange is a failure of the probe, but for a request that cannot be made
/// of the arguments, which is the fault of the configuration. The message ends in the reason.
pub proof fn lemma_exchange_errors(target: HttpTarget, fault: ExchangeFault)
    ensures
        ({
            let e = http::exchange_error_view(target, fault);
            let reason = match fault {
                ExchangeFault::Build(reason) => reason@,
                ExchangeFault::Connect(reason) => reason@,
                ExchangeFault::Handshake(reason) => reason@,
                ExchangeFault::Request(reason) => reason@,
                ExchangeFault::Body(reason) => reason@,
            };
            &&& e is InvalidConfig <==> fault is Build
            &&& e is Failure <==> !(fault is Build)
            &&& ends_in(e.message(), reason)
            &&& fault is Connect || fault is Request ==> mentions(
                e.message(),
                match target {
                    HttpTarget::Unix(unix) => diagnostic::shown_os(unix.sock@),
                    HttpTarget::Url(url) => url.label@,
                },
            )
        }),
{
    let e = http::exchange_error_view(target, fault);
    let name = match target {
        HttpTarget::Unix(unix) => diagnostic::shown_os(unix.sock@),
        HttpTarget::Url(url) => url.label@,
    };
    match fault {
        ExchangeFault::Connect(reason) => match target {
            HttpTarget::Unix(_) => {
                assert(e.message() =~= "failed to connect to unix socket "@ + name + (": "@
                    + reason@));
            },
            HttpTarget::Url(_) => {
                assert(e.message() =~= "failed to connect to "@ + name + (": "@ + reason@));
            },
        },
        ExchangeFault::Request(reason) => match target {
            HttpTarget::Unix(_) => {
                assert(e.message() =~= "HTTP request over unix socket "@ + name + (" failed: "@
                    + reason@));
            },
            HttpTarget::Url(_) => {
                assert(e.message() =~= "HTTP request to "@ + name + (" failed: "@ + reason@));
            },
        },
        _ => {},
    }
}

/// What goes wrong with starting or running a command is told with its reason, and for starting it
/// with the program.
pub proof fn lemma_command_errors(
    program: Seq<u8>,
    spawn: SpawnFault,
    stream_name: Seq<char>,
    run: RunFault,
)
    ensures
        mentions(exec::spawn_error_view(program, spawn).message(), os_text::quoted_bytes(program)),
        spawn matches SpawnFault::Other(reason) ==> ends_in(
            exec::spawn_error_view(program, spawn).message(),
            reason@,
        ),
        exec::run_error_view(stream_name, run) is Internal,
        run matches RunFault::Wait(reason) ==> ends_in(
            exec::run_error_view(stream_name, run).message(),
            reason@,
        ),
        run matches RunFault::Read(reason) ==> ends_in(
            exec::run_error_view(stream_name, run).message(),
            reason@,
        ),
        run matches RunFault::Task(reason) ==> ends_in(
            exec::run_error_view(stream_name, run).message(),
            reason@,
        ) && mentions(exec::run_error_view(stream_name, run).message(), stream_name),
        run is Capture ==> ends_in(exec::run_error_view(stream_name, run).message(), stream_name),
{
    let shown = os_text::quoted_bytes(program);
    let message = exec::spawn_error_view(program, spawn).message();
    match spawn {
        SpawnFault::Other(reason) => {
            assert(message =~= "failed to spawn "@ + shown + (": "@ + reason@));
        },
        _ => {},
    }
    match run {
        RunFault::Task(reason) => {
            assert(exec::run_error_view(stream_name, run).message() =~= Seq::<char>::empty()
                + stream_name + (" task failed: "@ + reason@));
        },
        _ => {},
    }
}

/// A command that ends badly or too late is told by its name, and with the code or the signal that
/// it ended with or the time that it had.
pub proof fn lemma_command_failures(
    label: Seq<char>,
    codes: Seq<i32>,
    status: ExitStatus,
    nanos: nat,
)
    ensures
        exec::status_fault(label, codes, status) matches Some(e) ==> mentions(e.message(), label),
        exec::status_fault(label, codes, status) matches Some(e) ==> (status.code matches Some(code)
            ==> ends_in(e.message(), number::signed_digits(code as int))),
        exec::status_fault(label, codes, status) matches Some(e) ==> status.code is None ==> (
        status.signal matches Some(signal) ==> mentions(
            e.message(),
            number::signed_digits(signal as int),
        )),
        mentions(exec::timeout_view(label, nanos).message(), label),
        ends_in(exec::timeout_view(label, nanos).message(), timing::duration_text(nanos)),
        ends_in(probe::timeout_message(label, nanos), timing::duration_text(nanos)),
        mentions(probe::timeout_message(label, nanos), label),
{
    if let Some(e) = exec::status_fault(label, codes, status) {
        match status.code {
            Some(code) => {
                assert(e.message() =~= "command "@ + label + (" exited with "@
                    + number::signed_digits(code as int)));
            },
            None => {
                let tail = exec::termination_text(status);
                assert(e.message() =~= "command "@ + label + (" terminated without an exit code"@
                    + tail));
                if let Some(signal) = status.signal {
                    assert(e.message() =~= ("command "@ + label
                        + " terminated without an exit code"@ + " (signal "@)
                        + number::signed_digits(signal as int) + ")"@);
                }
            },
        }
    }
    let late = exec::timeout_view(label, nanos).message();
    assert(late =~= "command "@ + label + (" timed out after "@ + timing::duration_text(nanos)));
    assert(probe::timeout_message(label, nanos) =~= Seq::<char>::empty() + label + (
    " probe timed out after "@ + timing::duration_text(nanos)));
}

/// A target that answered too slowly is told with the limit and with the time that it took.
pub proof fn lemma_latency_failure(report: ProbeReport)
    ensures
        report.latency_fault() matches Some(e) ==> mentions(e.message(), report.target@) && mentions(
            e.message(),
            timing::duration_text(report.options.max_latency->0@),
        ) && mentions(e.message(), timing::duration_text(report.elapsed@)),
{
    if let Some(e) = report.latency_fault() {
        let limit = timing::duration_text(report.options.max_latency->0@);
        let took = timing::duration_text(report.elapsed@);
        let head = report.mode@ + " probe to "@;
        let exceeded = " exceeded --max-latency "@;
        assert(e.message() =~= head + report.target@ + (exceeded + limit + " (observed "@ + took
            + ")"@));
        assert(e.message() =~= (head + report.target@ + exceeded) + limit + (" (observed "@ + took
            + ")"@));
        assert(e.message() =~= (head + report.target@ + exceeded + limit + " (observed "@) + took
            + ")"@);
    }
}

/// What is wrong with a file is told with its path, and with the reason or the limit that it broke.
pub proof fn lemma_file_failures(args: FileArgs, facts: FileFacts, fault: FileFault)
    ensures
        mentions(file::file_fault_message(args.path@, fault), diagnostic::shown_os(args.path@)),
        fault matches FileFault::Inspect(reason) ==> ends_in(
            file::file_fault_message(args.path@, fault),
            reason@,
        ),
        fault matches FileFault::Open(reason) ==> ends_in(
            file::file_fault_message(args.path@, fault),
            reason@,
        ),
        fault matches FileFault::Read(reason) ==> ends_in(
            file::file_fault_message(args.path@, fault),
            reason@,
        ),
        file::facts_fault(args, facts) matches Some(e) ==> mentions(
            e.message(),
            diagnostic::shown_os(args.path@),
        ),
        facts.is_file && (args.min_size matches Some(min) && facts.len < min) ==> (
        file::facts_fault(args, facts) matches Some(e) && mentions(
            e.message(),
            number::digits(args.min_size->0 as nat),
        )),
        facts.is_file && (args.min_size matches Some(min) ==> min <= facts.len) && (args.max_size
            matches Some(max) && facts.len > max) ==> (file::facts_fault(args, facts) matches Some(e)
            && mentions(e.message(), number::digits(args.max_size->0 as nat))),
{
    let shown = diagnostic::shown_os(args.path@);
    let message = file::file_fault_message(args.path@, fault);
    match fault {
        FileFault::Missing => {},
        FileFault::Inspect(reason) => {
            assert(message =~= "failed to read metadata for "@ + shown + (": "@ + reason@));
        },
        FileFault::Open(reason) => {
            assert(message =~= "failed to open "@ + shown + (": "@ + reason@));
        },
        FileFault::Read(reason) => {
            assert(message =~= "failed to read "@ + shown + (": "@ + reason@));
        },
    }
    if let Some(e) = file::facts_fault(args, facts) {
        let said = e.message();
        if !facts.is_file {
            assert(said =~= Seq::<char>::empty() + shown + " is not a regular file"@);
        } else if args.min_size is Some && facts.len < args.min_size->0 {
            let min = number::digits(args.min_size->0 as nat);
            assert(said =~= "file "@ + shown + (" is smaller than "@ + min + " bytes"@));
            assert(said =~= ("file "@ + shown + " is smaller than "@) + min + " bytes"@);
        } else if args.max_size is Some && facts.len > args.max_size->0 {
            let max = number::digits(args.max_size->0 as nat);
            assert(said =~= "file "@ + shown + (" is larger than "@ + max + " bytes"@));
            assert(said =~= ("file "@ + shown + " is larger than "@) + max + " bytes"@);
        } else if args.non_empty && facts.len == 0 {
            assert(said =~= "file "@ + shown + " is empty"@);
        } else {
            match facts.modified {
                Modified::Unknown(reason) => {
                    assert(said =~= "failed to read modification time for "@ + shown + (": "@
                        + reason@));
                },
                Modified::InFuture => {
                    assert(said =~= "file "@ + shown
                        + " has a modification time in the future"@);
                },
                Modified::Ago(_) => {
                    assert(said =~= "file "@ + shown + (" is older than "@
                        + timing::duration_text(args.max_age->0@)));
                },
            }
        }
    }
}

/// A status that is not accepted is told with the target, and so is a service that does not serve.
pub proof fn lemma_refused_answers(
    status: u16,
    response: HeaderMap<HeaderValue>,
    prepared: PreparedHttpArgs,
    target: Seq<char>,
    serving: int,
)
    ensures
        (forall|i: int|
            0 <= i < prepared.status_ranges.ranges@.len() ==> !((
            #[trigger] prepared.status_ranges.ranges@[i]).start <= status && status
                <= prepared.status_ranges.ranges@[i].end)) ==> (http::head_fault(
            status,
            response,
            prepared,
            target,
        ) matches Some(e) && mentions(e.message(), number::digits(status as nat)) && mentions(
            e.message(),
            target,
        )),
        serving != 1 ==> (grpc::serving_fault(target, serving) matches Some(e) && mentions(
            e.message(),
            target,
        )),
{
    let code = number::digits(status as nat);
    if !prepared.status_ranges.accepts(status as int) {
        let said = http::head_fault(status, response, prepared, target)->0.message();
        assert(said =~= "HTTP status "@ + code + (" from "@ + target
            + " is outside the allowed range"@));
        assert(said =~= ("HTTP status "@ + code + " from "@) + target
            + " is outside the allowed range"@);
    }
    if serving != 1 {
        let said = grpc::serving_fault(target, serving)->0.message();
        match grpc::serving_name(serving) {
            None => {},
            Some(name) => {
                assert(said =~= "gRPC health check for "@ + target + (" returned "@ + name));
            },
        }
    }
}

/// What is wrong with a file of certificates or keys is told with what the file is for and its path,
/// and with the reason where there is one.
pub proof fn lemma_pem_errors(label: Seq<char>, path: Seq<u8>, fault: PemFault)
    ensures
        mentions(tls::pem_fault_message(label, path, fault), label),
        mentions(tls::pem_fault_message(label, path, fault), diagnostic::shown_os(path)),
        fault matches PemFault::Inspect(reason) ==> ends_in(
            tls::pem_fault_message(label, path, fault),
            reason@,
        ),
        fault matches PemFault::Open(reason) ==> ends_in(
            tls::pem_fault_message(label, path, fault),
            reason@,
        ),
        fault matches PemFault::Parse(reason) ==> ends_in(
            tls::pem_fault_message(label, path, fault),
            reason@,
        ),
{
    let shown = diagnostic::shown_os(path);
    let said = tls::pem_fault_message(label, path, fault);
    match fault {
        PemFault::Inspect(reason) => {
            assert(said =~= "failed to inspect "@ + label + (" "@ + shown + ": "@ + reason@));
            assert(said =~= ("failed to inspect "@ + label + " "@) + shown + (": "@ + reason@));
        },
        PemFault::NotRegular => {
            assert(said =~= Seq::<char>::empty() + label + (" "@ + shown
                + " is not a regular file"@));
            assert(said =~= (label + " "@) + shown + " is not a regular file"@);
        },
        PemFault::Open(reason) => {
            assert(said =~= "failed to open "@ + label + (" "@ + shown + ": "@ + reason@));
            assert(said =~= ("failed to open "@ + label + " "@) + shown + (": "@ + reason@));
        },
        PemFault::Parse(reason) => {
            assert(said =~= "failed to parse "@ + label + (" "@ + shown + ": "@ + reason@));
            assert(said =~= ("failed to parse "@ + label + " "@) + shown + (": "@ + reason@));
        },
    }
}

} // verus!
