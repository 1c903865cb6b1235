//! The gRPC probe: the standard health service must answer that it is serving.

use crate::authority;
use crate::authority::{PortPolicy, RawFormat};
use crate::cli::GrpcArgs;
use crate::diagnostic;
use crate::error;
use crate::error::{AppError, ErrorView, Result};
use crate::probe::{ProbeOptions, ProbeReport};
use crate::timing::Span;
use crate::tls;
use crate::tls::BundledRoots;
use crate::url_text;
use crate::url_text::{ParsedUri, UriView};
use crate::validation;
use tonic_health::pb::health_check_response::ServingStatus;
use vstd::prelude::*;

verus! {

/// Why `tonic::transport::Endpoint` refuses a text, if it does.
pub uninterp spec fn endpoint_error(uri: Seq<char>) -> Option<Seq<char>>;

/// `tonic::transport::Endpoint::from_shared`: the message of its error, if it refuses the text,
/// under the name `endpoint_error`.
#[verifier::external_body]
fn check_endpoint(uri: &str) -> (r: Option<String>)
    ensures
        match r {
            Some(message) => endpoint_error(uri@) == Some(message@),
            None => endpoint_error(uri@) is None,
        },
{
    match tonic::transport::Endpoint::from_shared(uri.to_owned()) {
        Ok(_) => None,
        Err(error) => Some(error.to_string()),
    }
}

/// The name of a gRPC status code; an unassigned number counts as an unknown error.
pub open spec fn code_name(code: int) -> Seq<char> {
    if code == 0 {
        "Ok"@
    } else if code == 1 {
        "Cancelled"@
    } else if code == 3 {
        "InvalidArgument"@
    } else if code == 4 {
        "DeadlineExceeded"@
    } else if code == 5 {
        "NotFound"@
    } else if code == 6 {
        "AlreadyExists"@
    } else if code == 7 {
        "PermissionDenied"@
    } else if code == 8 {
        "ResourceExhausted"@
    } else if code == 9 {
        "FailedPrecondition"@
    } else if code == 10 {
        "Aborted"@
    } else if code == 11 {
        "OutOfRange"@
    } else if code == 12 {
        "Unimplemented"@
    } else if code == 13 {
        "Internal"@
    } else if code == 14 {
        "Unavailable"@
    } else if code == 15 {
        "DataLoss"@
    } else if code == 16 {
        "Unauthenticated"@
    } else {
        "Unknown"@
    }
}

/// `tonic::Code::from_i32` and its `Debug`: the name of the code.
#[verifier::external_body]
fn grpc_code_name(code: i32) -> (r: String)
    ensures
        r@ == code_name(code as int),
{
    format!("{:?}", tonic::Code::from_i32(code))
}

/// The name of a serving status; any other number is none.
pub open spec fn serving_name(status: int) -> Option<Seq<char>> {
    if status == 0 {
        Some("Unknown"@)
    } else if status == 1 {
        Some("Serving"@)
    } else if status == 2 {
        Some("NotServing"@)
    } else if status == 3 {
        Some("ServiceUnknown"@)
    } else {
        None
    }
}

/// `<tonic_health::pb::health_check_response::ServingStatus as TryFrom<i32>>::try_from` and its
/// `Debug`: the name of the status, or none for a number that stands for no status.
#[verifier::external_body]
fn serving_status_name(status: i32) -> (r: Option<String>)
    ensures
        match r {
            Some(name) => serving_name(status as int) == Some(name@),
            None => serving_name(status as int) is None,
        },
{
    match ServingStatus::try_from(status) {
        Ok(status) => Some(format!("{status:?}")),
        Err(_) => None,
    }
}

/// A probe that is ready to run.
#[derive(Debug)]
pub struct GrpcPlan {
    /// Where to connect to.
    pub endpoint_uri: String,
    /// What the requests name as their origin, where it is not the endpoint.
    pub origin: Option<String>,
    /// What is probed.
    pub target: String,
    /// The service that is asked for, empty for the server as a whole.
    pub service: String,
}

/// The error of the addresses of the probe.
pub open spec fn names_fault(args: GrpcArgs) -> Option<ErrorView> {
    error::first_fault(
        validation::non_empty_fault("--addr"@, args.addr@.len()),
        error::first_fault(
            validation::optional_fault("--service"@, args.service),
            error::first_fault(
                validation::optional_fault("--authority"@, args.authority),
                error::first_fault(
                    authority::authority_fault(
                        args.addr@,
                        "gRPC address"@,
                        PortPolicy::Required,
                        RawFormat::Debug,
                        authority::parsed_authority(args.addr@),
                    ),
                    match args.authority {
                        Some(raw) => authority::authority_fault(
                            raw@,
                            "gRPC authority"@,
                            PortPolicy::Optional,
                            RawFormat::Debug,
                            authority::parsed_authority(raw@),
                        ),
                        None => None,
                    },
                ),
            ),
        ),
    )
}

/// The error of the TLS options of the probe.
pub open spec fn tls_fault(args: GrpcArgs, roots: BundledRoots) -> Option<ErrorView> {
    if args.tls {
        tls::options_fault(args.tls_args, roots)
    } else if tls::any_option(args.tls_args) {
        error::config_fault("gRPC TLS flags require --tls"@)
    } else {
        None
    }
}

/// Where the probe connects to.
pub open spec fn endpoint_of(args: GrpcArgs) -> Seq<char> {
    "http://"@ + args.addr@
}

/// What the requests name as their origin, where it is not the endpoint.
pub open spec fn origin_of(args: GrpcArgs) -> Option<Seq<char>> {
    let scheme = if args.tls {
        "https"@
    } else {
        "http"@
    };
    match args.authority {
        Some(authority) => Some(scheme + "://"@ + authority@),
        None => if args.tls {
            Some("https"@ + "://"@ + args.addr@)
        } else {
            None
        },
    }
}

/// The error of the endpoint and the origin, given what parsing them gives.
pub open spec fn endpoint_fault(
    args: GrpcArgs,
    endpoint: Option<Seq<char>>,
    origin: core::result::Result<UriView, Seq<char>>,
) -> Option<ErrorView> {
    match endpoint {
        Some(reason) => error::config_fault(
            "invalid gRPC endpoint "@ + endpoint_of(args) + ": "@ + reason,
        ),
        None => match origin_of(args) {
            None => None,
            Some(text) => match origin {
                Ok(_) => None,
                Err(reason) => error::config_fault(origin_message(args, text, reason)),
            },
        },
    }
}

/// What is probed: the address, and the service where one is asked for.
pub open spec fn target_of(addr: Seq<char>, service: Option<Seq<char>>) -> Seq<char> {
    match service {
        Some(service) if service.len() > 0 => addr + " service="@ + diagnostic::shown(service),
        _ => addr,
    }
}

/// The error of the arguments of the probe: the addresses first, then the TLS options, then the
/// endpoint.
pub open spec fn plan_fault(args: GrpcArgs, roots: BundledRoots) -> Option<ErrorView> {
    error::first_fault(
        names_fault(args),
        error::first_fault(
            tls_fault(args, roots),
            endpoint_fault(
                args,
                endpoint_error(endpoint_of(args)),
                url_text::parsed_uri(origin_of(args)->0),
            ),
        ),
    )
}

/// The addresses of the probe must be hosts, and none may be empty.
pub fn validate_names(args: &GrpcArgs) -> (r: Result<()>)
    ensures
        error::fault(r) == names_fault(*args),
{
    validation::validate_non_empty_str("--addr", args.addr.as_str())?;
    if let Some(service) = &args.service {
        validation::validate_non_empty_str("--service", service.as_str())?;
    }
    if let Some(authority) = &args.authority {
        validation::validate_non_empty_str("--authority", authority.as_str())?;
    }
    match authority::validate_authority(
        args.addr.as_str(),
        "gRPC address",
        PortPolicy::Required,
        RawFormat::Debug,
    ) {
        Ok(_) => {},
        Err(e) => {
            return Err(e);
        },
    }
    if let Some(raw) = &args.authority {
        match authority::validate_authority(
            raw.as_str(),
            "gRPC authority",
            PortPolicy::Optional,
            RawFormat::Debug,
        ) {
            Ok(_) => {},
            Err(e) => {
                return Err(e);
            },
        }
    }
    Ok(())
}

/// TLS options need `--tls`, and must fit together.
pub fn validate_grpc_tls(args: &GrpcArgs, roots: BundledRoots) -> (r: Result<()>)
    ensures
        error::fault(r) == tls_fault(*args, roots),
{
    if args.tls {
        return tls::validate_tls_options(&args.tls_args, roots);
    }
    if tls::has_tls_flags(&args.tls_args) {
        return Err(AppError::invalid_config("gRPC TLS flags require --tls".to_owned()));
    }
    Ok(())
}

/// What the requests name as their origin, where it is not the endpoint.
fn origin(args: &GrpcArgs) -> (r: Option<String>)
    ensures
        match r {
            Some(text) => origin_of(*args) == Some(text@),
            None => origin_of(*args) is None,
        },
{
    let mut text = if args.tls {
        "https".to_owned()
    } else {
        "http".to_owned()
    };
    match &args.authority {
        Some(authority) => {
            text.append("://");
            text.append(authority.as_str());
            Some(text)
        },
        None => if args.tls {
            text.append("://");
            text.append(args.addr.as_str());
            Some(text)
        } else {
            None
        },
    }
}

/// The error of an endpoint that is refused.
pub fn endpoint_refused(args: &GrpcArgs, reason: &str) -> (r: AppError)
    ensures
        r@ == ErrorView::InvalidConfig(
            "invalid gRPC endpoint "@ + endpoint_of(*args) + ": "@ + reason@,
        ),
{
    let mut uri = "http://".to_owned();
    uri.append(args.addr.as_str());
    let mut message = "invalid gRPC endpoint ".to_owned();
    message.append(uri.as_str());
    message.append(": ");
    message.append(reason);
    AppError::invalid_config(message)
}

/// The message for an origin that is refused.
pub open spec fn origin_message(args: GrpcArgs, origin: Seq<char>, reason: Seq<char>) -> Seq<char> {
    match args.authority {
        Some(authority) => "invalid gRPC authority "@ + authority@ + ": "@ + reason,
        None => "invalid gRPC TLS origin "@ + origin + ": "@ + reason,
    }
}

/// The error of an origin that is refused.
pub fn origin_refused(args: &GrpcArgs, origin: &str, reason: &str) -> (r: AppError)
    ensures
        r@ == ErrorView::InvalidConfig(origin_message(*args, origin@, reason@)),
{
    let mut message = match &args.authority {
        Some(authority) => {
            let mut named = "invalid gRPC authority ".to_owned();
            named.append(authority.as_str());
            named
        },
        None => {
            let mut named = "invalid gRPC TLS origin ".to_owned();
            named.append(origin);
            named
        },
    };
    message.append(": ");
    message.append(reason);
    AppError::invalid_config(message)
}

/// The error of the endpoint and the origin once they have been parsed.
pub fn accept_endpoint(
    args: &GrpcArgs,
    endpoint: Option<String>,
    parsed_origin: core::result::Result<ParsedUri, String>,
) -> (r: Result<()>)
    ensures
        error::fault(r) == endpoint_fault(
            *args,
            match endpoint {
                Some(reason) => Some(reason@),
                None => None,
            },
            url_text::uri_view(parsed_origin),
        ),
{
    if let Some(reason) = endpoint {
        return Err(endpoint_refused(args, reason.as_str()));
    }
    if let Some(text) = origin(args) {
        if let Err(reason) = parsed_origin {
            return Err(origin_refused(args, text.as_str(), reason.as_str()));
        }
    }
    Ok(())
}

/// What is probed: the address, and the service where one is asked for.
pub fn grpc_target(addr: &str, service: Option<&str>) -> (r: String)
    ensures
        r@ == target_of(
            addr@,
            match service {
                Some(service) => Some(service@),
                None => None,
            },
        ),
{
    let mut target = addr.to_owned();
    if let Some(service) = service {
        if !service.is_empty() {
            target.append(" service=");
            target.append(diagnostic::value(service).as_str());
        }
    }
    target
}

/// Everything that is settled before the server is asked.
pub fn plan(args: &GrpcArgs, roots: BundledRoots) -> (r: Result<GrpcPlan>)
    ensures
        error::fault(r) == plan_fault(*args, roots),
        r matches Ok(plan) ==> {
            &&& plan.endpoint_uri@ == endpoint_of(*args)
            &&& match plan.origin {
                Some(origin) => origin_of(*args) == Some(origin@),
                None => origin_of(*args) is None,
            }
            &&& plan.target@ == target_of(
                args.addr@,
                match args.service {
                    Some(service) => Some(service@),
                    None => None,
                },
            )
            &&& plan.service@ == match args.service {
                Some(service) => service@,
                None => Seq::empty(),
            }
        },
{
    validate_names(args)?;
    validate_grpc_tls(args, roots)?;
    let mut endpoint_uri = "http://".to_owned();
    endpoint_uri.append(args.addr.as_str());
    let refused = check_endpoint(endpoint_uri.as_str());
    let origin = origin(args);
    match &origin {
        Some(text) => {
            accept_endpoint(args, refused, url_text::parse_uri(text.as_str()))?;
        },
        None => {
            accept_endpoint(args, refused, Err(String::new()))?;
        },
    }
    let service = match &args.service {
        Some(service) => Some(service.as_str()),
        None => None,
    };
    let target = grpc_target(args.addr.as_str(), service);
    let service = match &args.service {
        Some(service) => service.clone(),
        None => {
            let empty = String::new();
            assert(empty@ =~= Seq::empty());
            empty
        },
    };
    Ok(GrpcPlan { endpoint_uri, origin, target, service })
}

/// The error of a call that the server refused.
pub fn grpc_status_error(target: &str, code: i32, message: &str) -> (r: AppError)
    ensures
        r@ == ErrorView::Failure(
            "gRPC health check for "@ + target@ + " failed: code="@ + code_name(code as int)
                + " message="@ + diagnostic::shown(message@),
        ),
{
    let mut text = "gRPC health check for ".to_owned();
    text.append(target);
    text.append(" failed: code=");
    text.append(grpc_code_name(code).as_str());
    text.append(" message=");
    text.append(diagnostic::value(message).as_str());
    AppError::failure(text)
}

/// The error of a server that cannot be reached.
pub fn connect_error(addr: &str, reason: &str) -> (r: AppError)
    ensures
        r@ == ErrorView::Failure("failed to connect to gRPC target "@ + addr@ + ": "@ + reason@),
{
    let mut message = "failed to connect to gRPC target ".to_owned();
    message.append(addr);
    message.append(": ");
    message.append(reason);
    AppError::failure(message)
}

/// The error of a serving status: only the one that says that the service is serving is none.
pub open spec fn serving_fault(target: Seq<char>, status: int) -> Option<ErrorView> {
    match serving_name(status) {
        None => error::failure_fault(
            "gRPC health check for "@ + target + " returned an unknown serving status"@,
        ),
        Some(name) => if status == 1 {
            None
        } else {
            error::failure_fault("gRPC health check for "@ + target + " returned "@ + name)
        },
    }
}

/// A service is healthy exactly when its status is the one that says that it is serving.
pub proof fn lemma_only_serving_is_healthy(target: Seq<char>, status: int)
    ensures
        serving_fault(target, status) is None <==> status == 1,
        serving_fault(target, status) matches Some(e) ==> e.code() == 1,
{
}

/// Whether the serving status that the server answered says that the service is serving.
pub fn check_serving(target: &str, status: i32) -> (r: Result<()>)
    ensures
        error::fault(r) == serving_fault(target@, status as int),
{
    let mut message = "gRPC health check for ".to_owned();
    message.append(target);
    match serving_status_name(status) {
        None => {
            message.append(" returned an unknown serving status");
            Err(AppError::failure(message))
        },
        Some(name) => {
            if status == 1 {
                return Ok(());
            }
            message.append(" returned ");
            message.append(name.as_str());
            Err(AppError::failure(message))
        },
    }
}

/// A service that is serving.
pub fn report(target: String, elapsed: Span, options: ProbeOptions) -> (r: ProbeReport)
    ensures
        r.mode@ == "grpc"@,
        r.target == target,
        r.detail matches Some(detail) && detail@ == "status=SERVING"@,
        r.elapsed == elapsed,
        r.options == options,
{
    ProbeReport::new("grpc", target, Some("status=SERVING".to_owned()), elapsed, options)
}

} // verus!
