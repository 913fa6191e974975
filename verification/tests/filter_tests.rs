//! Tests for process filtering.

use il_rewriter::filter::{
    is_dotnet_cli_command, should_instrument_core_clr, should_instrument_net_framework,
    should_instrument_process,
};

#[test]
fn test_dotnet_run_excluded() {
    assert!(is_dotnet_cli_command("dotnet run"));
    assert!(is_dotnet_cli_command("dotnet.exe run"));
    assert!(is_dotnet_cli_command("dotnet run -f net8.0"));
    assert!(is_dotnet_cli_command(r#""C:\Program Files\dotnet\dotnet.exe" run"#));
    assert!(is_dotnet_cli_command("dotnet publish"));
    assert!(is_dotnet_cli_command("dotnet restore"));
    assert!(is_dotnet_cli_command("dotnet new"));
}

#[test]
fn test_dotnet_app_not_excluded() {
    assert!(!is_dotnet_cli_command("dotnet MyApp.dll"));
    assert!(!is_dotnet_cli_command("dotnet.exe MyApp.dll"));
    assert!(!is_dotnet_cli_command(r#""C:\dotnet\dotnet.exe" MyApp.dll"#));
}

#[test]
fn test_non_dotnet_process_not_excluded() {
    assert!(!is_dotnet_cli_command("MyApp.exe --some-flag"));
    assert!(!is_dotnet_cli_command("w3wp.exe"));
}

#[test]
fn test_msbuild_excluded_from_coreclr() {
    assert!(!should_instrument_core_clr("dotnet.exe", "dotnet exec MSBuild.dll /restore"));
}

#[test]
fn test_smsvchost_excluded_from_netfx() {
    assert!(!should_instrument_net_framework(r"C:\Windows\System32\SMSvcHost.exe"));
}

#[test]
fn test_normal_app_passes() {
    assert!(should_instrument_core_clr("dotnet.exe", "dotnet MyApp.dll"));
    assert!(should_instrument_net_framework(r"C:\MyApp\MyApp.exe"));
}

#[test]
fn test_kudu_excluded_from_coreclr() {
    assert!(!should_instrument_core_clr("dotnet.exe", "dotnet Kudu.Services.Web.dll"));
    assert!(!should_instrument_core_clr("dotnet.exe", "dotnet KuduAgent.dll"));
}

#[test]
fn test_should_instrument_process_dispatches_by_runtime() {
    assert!(!should_instrument_process(true, "dotnet.exe", "dotnet run"));
    assert!(should_instrument_process(true, "dotnet.exe", "dotnet MyApp.dll"));
    assert!(!should_instrument_process(false, r"C:\Windows\System32\SMSvcHost.exe", ""));
    assert!(should_instrument_process(false, r"C:\MyApp\MyApp.exe", ""));
}
