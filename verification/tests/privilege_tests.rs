use xnetify::privilege::{
    admin_hint, admin_required_message, check_admin, elevation_after_probe, elevation_after_spawn, exe_fallback,
    get_elevation_command, get_elevation_instructions, get_elevation_message, get_platform_name, is_root_uid_output,
    request_elevation_plan, tun_start_refusal, ElevationPlan,
};

#[test]
fn platform_names() {
    assert_eq!(get_platform_name("macos"), "macOS");
    assert_eq!(get_platform_name("linux"), "Linux");
    assert_eq!(get_platform_name("windows"), "Windows");
    assert_eq!(get_platform_name("freebsd"), "Unknown");
}

#[test]
fn root_recognised() {
    assert!(is_root_uid_output("0\n"));
    assert!(is_root_uid_output("  0 "));
    assert!(!is_root_uid_output("501\n"));
    assert!(!is_root_uid_output(""));
}

#[test]
fn elevation_instructions_per_platform() {
    assert_eq!(
        get_elevation_instructions("macOS", "/Applications/x"),
        "请使用 sudo 运行应用：\n1. 打开终端\n2. 运行: sudo \"/Applications/x\""
    );
    assert_eq!(get_elevation_instructions("Linux", "/usr/bin/x"), "请使用 sudo 运行应用：\n1. 打开终端\n2. 运行: sudo \"/usr/bin/x\"");
    assert_eq!(
        get_elevation_instructions("Windows", "C:\\x.exe"),
        "请以管理员身份运行：\n1. 右键点击 xnetify.exe\n2. 选择\"以管理员身份运行\""
    );
    assert_eq!(get_elevation_instructions("Unknown", "x"), "请以管理员/root 权限运行: x");
    assert_eq!(get_elevation_message("Unknown", "x"), get_elevation_instructions("Unknown", "x"));
}

#[test]
fn admin_check_answers() {
    let yes = check_admin(true);
    assert!(yes.success && !yes.needs_restart);
    assert_eq!(yes.message, "已拥有管理员权限");
    let no = check_admin(false);
    assert!(!no.success && !no.needs_restart);
    assert_eq!(no.message, "需要管理员权限");
}

#[test]
fn elevation_commands() {
    let (prog, args) = get_elevation_command("macOS", false, false).unwrap();
    assert_eq!(prog, "osascript");
    assert_eq!(args, vec!["-e".to_string(), "do shell script \"printf '%s' $$\" with administrator privileges".to_string()]);
    assert_eq!(get_elevation_command("Linux", true, true).unwrap().0, "pkexec");
    assert_eq!(get_elevation_command("Linux", false, true).unwrap().0, "gksu");
    assert!(get_elevation_command("Linux", false, false).is_none());
    let (prog, args) = get_elevation_command("Windows", false, false).unwrap();
    assert_eq!(prog, "powershell");
    assert_eq!(args[0], "-Command");
    assert!(get_elevation_command("Unknown", true, true).is_none());
}

#[test]
fn elevation_plans() {
    match request_elevation_plan(true, "Linux", "/x") {
        ElevationPlan::Done(r) => {
            assert!(r.success);
            assert_eq!(r.message, "已拥有管理员权限");
        }
        _ => panic!("expected done"),
    }
    match request_elevation_plan(false, "macOS", "/Apps/it's") {
        ElevationPlan::Spawn { program, args } => {
            assert_eq!(program, "osascript");
            assert_eq!(args, vec![
                "-e".to_string(),
                "do shell script \"sudo '/Apps/it'\\''s'\" with administrator privileges".to_string()
            ]);
        }
        _ => panic!("expected spawn"),
    }
    assert!(matches!(request_elevation_plan(false, "Linux", "/x"), ElevationPlan::ProbePkexec));
    match request_elevation_plan(false, "Windows", "C:\\x.exe") {
        ElevationPlan::Spawn { program, args } => {
            assert_eq!(program, "powershell");
            assert_eq!(args[1], "Start-Process -FilePath \"C:\\x.exe\" -Verb RunAs");
        }
        _ => panic!("expected spawn"),
    }
    match request_elevation_plan(false, "Unknown", "x") {
        ElevationPlan::Done(r) => {
            assert!(!r.success);
            assert_eq!(r.message, "请以管理员/root 权限运行: x");
        }
        _ => panic!("expected done"),
    }
}

#[test]
fn elevation_outcomes() {
    let ok = elevation_after_spawn(Ok(()));
    assert!(ok.success && ok.needs_restart);
    assert_eq!(ok.message, "正在以管理员身份重启应用...");
    let err = elevation_after_spawn(Err("denied".to_string()));
    assert!(!err.success && !err.needs_restart);
    assert_eq!(err.message, "提权失败: denied");
    let probed = elevation_after_probe(true, "ins".to_string());
    assert!(!probed.success && probed.needs_restart);
    assert_eq!(probed.message, "请使用 sudo 运行应用，或在终端中运行: pkexec xnetify");
    let not = elevation_after_probe(false, "ins".to_string());
    assert!(!not.needs_restart);
    assert_eq!(not.message, "ins");
}

#[test]
fn hints_and_messages() {
    assert_eq!(exe_fallback("Windows"), "xnetify.exe");
    assert_eq!(exe_fallback("Linux"), "xnetify");
    assert_eq!(admin_hint("macOS"), "sudo /Applications/xnetify.app/Contents/MacOS/xnetify");
    assert_eq!(admin_hint("Linux"), "sudo xnetify");
    assert_eq!(admin_hint("Windows"), "以管理员身份运行");
    assert_eq!(admin_hint("Unknown"), "请以管理员/root 权限运行应用");
    assert_eq!(admin_required_message("do X", "Linux"), "需要管理员权限\n\ndo X\n\n快速提示:\nsudo xnetify");
}

#[test]
fn tunnel_start_needs_admin() {
    assert_eq!(tun_start_refusal(true, "do X", "Linux"), None);
    assert_eq!(
        tun_start_refusal(false, "do X", "Linux"),
        Some("需要管理员权限\n\ndo X\n\n快速提示:\nsudo xnetify".to_string())
    );
}
