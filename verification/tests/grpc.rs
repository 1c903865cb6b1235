use salus::cli::{GrpcArgs, TlsArgs};
use salus::error::AppError;
use salus::probe::ProbeOptions;
use salus::probes::grpc::{
    accept_endpoint, check_serving, connect_error, grpc_status_error, grpc_target, plan, report,
};
use salus::os_text::OsText;
use salus::timing::Span;
use salus::tls::BundledRoots;
use tonic::Code;

fn grpc(addr: &str) -> GrpcArgs {
    GrpcArgs {
        addr: addr.to_string(),
        service: None,
        tls: false,
        authority: None,
        tls_args: TlsArgs::default(),
    }
}

fn refusal(args: &GrpcArgs) -> AppError {
    plan(args, BundledRoots::Included).unwrap_err()
}

#[test]
fn grpc_status_error_escapes_server_message_controls() {
    let status = tonic::Status::new(Code::Unavailable, "not ready\nnext");

    let error = grpc_status_error("127.0.0.1:50051", status.code() as i32, status.message());

    assert!(error.to_string().contains("code=Unavailable"));
    assert!(error.to_string().contains(r#"message="not ready\nnext""#));
}

#[test]
fn grpc_target_includes_service_name() {
    assert_eq!(
        grpc_target("127.0.0.1:50051", Some("db")),
        "127.0.0.1:50051 service=db"
    );
}

#[test]
fn grpc_target_escapes_service_name_controls() {
    assert_eq!(
        grpc_target("127.0.0.1:50051", Some("db\nnext")),
        "127.0.0.1:50051 service=\"db\\nnext\""
    );
}

#[test]
fn grpc_target_omits_missing_service_name() {
    assert_eq!(grpc_target("127.0.0.1:50051", None), "127.0.0.1:50051");
}

#[test]
fn status_codes_go_by_their_names() {
    for code in 0..20 {
        let error = grpc_status_error("t", code, "m");

        assert_eq!(
            error.to_string(),
            format!(
                "gRPC health check for t failed: code={:?} message=m",
                Code::from_i32(code)
            )
        );
        assert_eq!(error.exit_code(), 1);
    }
    assert!(grpc_status_error("t", 14, "").to_string().ends_with("code=Unavailable message=\"\""));
    assert!(grpc_status_error("t", -1, "m").to_string().contains("code=Unknown"));
}

#[test]
fn only_the_serving_status_is_healthy() {
    check_serving("t", 1).unwrap();

    for (status, text) in [
        (0, "gRPC health check for t returned Unknown"),
        (2, "gRPC health check for t returned NotServing"),
        (3, "gRPC health check for t returned ServiceUnknown"),
        (4, "gRPC health check for t returned an unknown serving status"),
        (-1, "gRPC health check for t returned an unknown serving status"),
    ] {
        let error = check_serving("t", status).unwrap_err();
        assert_eq!(error.to_string(), text);
        assert_eq!(error.exit_code(), 1);
    }
}

#[test]
fn a_plain_plan_connects_to_the_address() {
    let plan = plan(&grpc("127.0.0.1:50051"), BundledRoots::Omitted).unwrap();

    assert_eq!(plan.endpoint_uri, "http://127.0.0.1:50051");
    assert_eq!(plan.origin, None);
    assert_eq!(plan.target, "127.0.0.1:50051");
    assert_eq!(plan.service, "");
}

#[test]
fn a_tls_plan_names_its_origin() {
    let mut args = grpc("127.0.0.1:50051");
    args.tls = true;
    args.service = Some("db".to_string());
    assert_eq!(
        plan(&args, BundledRoots::Included).unwrap().origin.unwrap(),
        "https://127.0.0.1:50051"
    );

    args.authority = Some("example.test".to_string());
    let plan = plan(&args, BundledRoots::Included).unwrap();
    assert_eq!(plan.origin.unwrap(), "https://example.test");
    assert_eq!(plan.endpoint_uri, "http://127.0.0.1:50051");
    assert_eq!(plan.target, "127.0.0.1:50051 service=db");
    assert_eq!(plan.service, "db");
}

#[test]
fn an_authority_without_tls_is_plain_http() {
    let mut args = grpc("127.0.0.1:50051");
    args.authority = Some("example.test".to_string());

    let plan = plan(&args, BundledRoots::Omitted).unwrap();

    assert_eq!(plan.origin.unwrap(), "http://example.test");
}

#[test]
fn grpc_probe_rejects_invalid_authority() {
    let mut args = grpc("127.0.0.1:9");
    args.authority = Some("example.com:bad".to_string());

    assert_eq!(refusal(&args).exit_code(), 3);
}

#[test]
fn grpc_probe_rejects_empty_authority() {
    let mut args = grpc("127.0.0.1:9");
    args.authority = Some(String::new());

    let error = refusal(&args);
    assert_eq!(error.exit_code(), 3);
    assert_eq!(error.to_string(), "--authority must not be empty");
}

#[test]
fn grpc_probe_rejects_authority_without_hostname() {
    let mut args = grpc("127.0.0.1:9");
    args.authority = Some(":50051".to_string());

    assert_eq!(refusal(&args).exit_code(), 3);
}

#[test]
fn grpc_probe_rejects_empty_bracketed_authority_host() {
    let mut args = grpc("127.0.0.1:9");
    args.authority = Some("[]:50051".to_string());

    assert_eq!(refusal(&args).exit_code(), 3);
}

#[test]
fn grpc_probe_rejects_zero_authority_port() {
    let mut args = grpc("127.0.0.1:9");
    args.authority = Some("example.com:0".to_string());

    assert_eq!(refusal(&args).exit_code(), 3);
}

#[test]
fn grpc_probe_rejects_out_of_range_authority_port() {
    let mut args = grpc("127.0.0.1:9");
    args.authority = Some("example.com:65536".to_string());

    assert_eq!(refusal(&args).exit_code(), 3);
}

#[test]
fn grpc_probe_rejects_invalid_address() {
    assert_eq!(refusal(&grpc("127.0.0.1:50051/healthz")).exit_code(), 3);
}

#[test]
fn grpc_probe_rejects_empty_address() {
    assert_eq!(refusal(&grpc("")).to_string(), "--addr must not be empty");
}

#[test]
fn grpc_probe_rejects_address_without_hostname() {
    assert_eq!(refusal(&grpc(":50051")).exit_code(), 3);
}

#[test]
fn grpc_probe_rejects_embedded_bracket_address_host() {
    assert_eq!(refusal(&grpc("example[::1]:50051")).exit_code(), 3);
}

#[test]
fn grpc_probe_rejects_zero_port() {
    assert_eq!(refusal(&grpc("127.0.0.1:0")).exit_code(), 3);
}

#[test]
fn grpc_probe_rejects_address_userinfo() {
    assert_eq!(refusal(&grpc("user@127.0.0.1:50051")).exit_code(), 3);
}

#[test]
fn grpc_probe_rejects_address_without_port() {
    assert_eq!(
        refusal(&grpc("localhost")).to_string(),
        "invalid gRPC address \"localhost\": port is required"
    );
}

#[test]
fn grpc_tls_reports_invalid_address_before_missing_trust() {
    let mut args = grpc("127.0.0.1:0");
    args.tls = true;

    let error = plan(&args, BundledRoots::Omitted).unwrap_err();

    assert_eq!(error.exit_code(), 3);
    assert!(error.to_string().contains("invalid gRPC address \"127.0.0.1:0\""));
}

#[test]
fn grpc_tls_reports_invalid_authority_before_missing_trust() {
    let mut args = grpc("127.0.0.1:9");
    args.tls = true;
    args.authority = Some("example.com:0".to_string());

    let error = plan(&args, BundledRoots::Omitted).unwrap_err();

    assert_eq!(error.exit_code(), 3);
    assert!(error.to_string().contains("invalid gRPC authority \"example.com:0\""));
}

#[test]
fn tls_options_need_tls() {
    let mut args = grpc("127.0.0.1:9");
    args.tls_args.ca = Some(OsText::new("ca.pem"));

    assert_eq!(refusal(&args).to_string(), "gRPC TLS flags require --tls");

    args.tls = true;
    assert!(plan(&args, BundledRoots::Omitted).is_ok());
}

#[test]
fn an_empty_service_is_refused() {
    let mut args = grpc("127.0.0.1:9");
    args.service = Some(String::new());

    assert_eq!(refusal(&args).to_string(), "--service must not be empty");
}

#[test]
fn an_endpoint_that_cannot_be_used_is_a_configuration_error() {
    let args = grpc("127.0.0.1:9");
    let error = accept_endpoint(&args, Some("invalid uri".to_string()), Err(String::new()));
    assert_eq!(
        error.unwrap_err().to_string(),
        "invalid gRPC endpoint http://127.0.0.1:9: invalid uri"
    );

    let mut tls = grpc("127.0.0.1:9");
    tls.tls = true;
    let error = accept_endpoint(&tls, None, Err("odd".to_string()));
    assert_eq!(
        error.unwrap_err().to_string(),
        "invalid gRPC TLS origin https://127.0.0.1:9: odd"
    );

    tls.authority = Some("a".to_string());
    let error = accept_endpoint(&tls, None, Err("odd".to_string()));
    assert_eq!(error.unwrap_err().to_string(), "invalid gRPC authority a: odd");
}

#[test]
fn a_server_out_of_reach_is_a_failure() {
    let error = connect_error("127.0.0.1:9", "transport error");

    assert_eq!(
        error.to_string(),
        "failed to connect to gRPC target 127.0.0.1:9: transport error"
    );
    assert_eq!(error.exit_code(), 1);
}

#[test]
fn a_serving_service_is_reported() {
    let options = ProbeOptions {
        timeout: Span::from_secs(3),
        quiet: false,
        verbose: true,
        max_latency: None,
    };

    let exit = report("t".to_string(), Span::from_millis(7), options).print_and_exit_code();

    assert_eq!(exit.code, 0);
    assert_eq!(
        exit.line.unwrap(),
        "result=healthy mode=grpc target=\"t\" duration_ms=7 detail=\"status=SERVING\""
    );
}
