//! Laws of the gRPC health check.

use crate::authority;
use crate::authority::PortPolicy;
use crate::cli::GrpcArgs;
use crate::diagnostic;
use crate::probes::grpc;
use crate::tls;
use crate::tls::BundledRoots;
use crate::url_text;
use vstd::prelude::*;

verus! {

/// What is connected to is the address and nothing else: `http://` and the address, whatever the
/// authority, the service and the TLS options are; and different addresses are different endpoints.
pub proof fn lemma_endpoint_is_the_address(a: GrpcArgs, b: GrpcArgs)
    ensures
        grpc::endpoint_of(a) == "http://"@ + a.addr@,
        grpc::endpoint_of(a) == grpc::endpoint_of(b) <==> a.addr@ == b.addr@,
{
    let n = "http://"@.len() as int;
    assert(("http://"@ + a.addr@).skip(n) =~= a.addr@);
    assert(("http://"@ + b.addr@).skip(n) =~= b.addr@);
}

/// The origin of the request is left to the endpoint exactly where there is neither an authority nor
/// TLS. Else it is the scheme, https with TLS and http without, and the authority, or the address
/// where there is no authority.
pub proof fn lemma_origin_follows_the_authority(args: GrpcArgs)
    ensures
        grpc::origin_of(args) is None <==> args.authority is None && !args.tls,
        grpc::origin_of(args) matches Some(origin) ==> {
            let scheme = if args.tls {
                "https://"@
            } else {
                "http://"@
            };
            &&& args.authority matches Some(authority) ==> origin == scheme + authority@
            &&& args.authority is None ==> origin == scheme + args.addr@
        },
{
    reveal_strlit("https://");
    reveal_strlit("http://");
    reveal_strlit("https");
    reveal_strlit("http");
    reveal_strlit("://");
    assert("https"@ + "://"@ =~= "https://"@);
    assert("http"@ + "://"@ =~= "http://"@);
}

/// The target is shown as the address alone where no service is asked for, and else with the service
/// behind it.
pub proof fn lemma_target_shows_the_service(addr: Seq<char>, service: Option<Seq<char>>)
    ensures
        service is None || service == Some(Seq::<char>::empty()) ==> grpc::target_of(addr, service)
            == addr,
        service matches Some(name) ==> name.len() > 0 ==> grpc::target_of(addr, service) == addr
            + " service="@ + diagnostic::shown(name),
{
}

/// A check is planned exactly where the address and the authority, if there is one, can be used, the
/// address has a port, the service, if one is named, has a name, the TLS options are sound with TLS
/// and absent without, and the endpoint and the origin are URIs. Else the configuration is at fault.
pub proof fn lemma_planned_check(args: GrpcArgs, roots: BundledRoots)
    ensures
        grpc::plan_fault(args, roots) is None <==> {
            &&& args.addr@.len() > 0
            &&& args.service matches Some(service) ==> service@.len() > 0
            &&& authority::authority_reason(
                args.addr@,
                PortPolicy::Required,
                authority::parsed_authority(args.addr@),
            ) is None
            &&& args.authority matches Some(raw) ==> raw@.len() > 0 && authority::authority_reason(
                raw@,
                PortPolicy::Optional,
                authority::parsed_authority(raw@),
            ) is None
            &&& args.tls ==> tls::options_fault(args.tls_args, roots) is None
            &&& !args.tls ==> args.tls_args.ca is None && args.tls_args.cert is None
                && args.tls_args.key is None && args.tls_args.server_name is None
                && !args.tls_args.insecure_skip_verify
            &&& grpc::endpoint_error("http://"@ + args.addr@) is None
            &&& grpc::origin_of(args) matches Some(origin) ==> url_text::parsed_uri(origin) is Ok
        },
        grpc::plan_fault(args, roots) matches Some(e) ==> e is InvalidConfig,
{
}

} // verus!
