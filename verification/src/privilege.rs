//! Administrator rights: the platform's name, recognising root, the
//! instructions shown to the user, and what a request for elevation does.
use vstd::prelude::*;
use crate::scan::{chars_replace, str_trim, trim, replace_all};
use crate::text::{chars_eq, push_chars, push_str, str_eq, str_to_chars, string_of};

verus! {

broadcast use vstd::string::group_string_axioms;

pub struct PrivilegeResult {
    pub success: bool,
    pub needs_restart: bool,
    pub message: String,
}

/// The display name of the operating system `os` (as `std::env::consts::OS`
/// names it).
pub fn get_platform_name(os: &str) -> (r: &'static str)
    ensures
        r@ == if os@ == "macos"@ {
            "macOS"@
        } else if os@ == "linux"@ {
            "Linux"@
        } else if os@ == "windows"@ {
            "Windows"@
        } else {
            "Unknown"@
        },
{
    if str_eq(os, "macos") {
        "macOS"
    } else if str_eq(os, "linux") {
        "Linux"
    } else if str_eq(os, "windows") {
        "Windows"
    } else {
        "Unknown"
    }
}

/// Whether the output of `id -u` names root.
pub fn is_root_uid_output(stdout: &str) -> (r: bool)
    ensures
        r == (trim(stdout@) == "0"@),
{
    let t = str_trim(stdout);
    let zero = str_to_chars("0");
    chars_eq(t.as_slice(), zero.as_slice())
}

/// The instructions for running the application with administrator
/// rights on `platform`, for the executable at `exe_path`.
pub open spec fn elevation_instructions(platform: Seq<char>, exe_path: Seq<char>) -> Seq<char> {
    if platform == "macOS"@ || platform == "Linux"@ {
        "请使用 sudo 运行应用：\n1. 打开终端\n2. 运行: sudo \""@ + exe_path + "\""@
    } else if platform == "Windows"@ {
        "请以管理员身份运行：\n1. 右键点击 xnetify.exe\n2. 选择\"以管理员身份运行\""@
    } else {
        "请以管理员/root 权限运行: "@ + exe_path
    }
}

/// The instructions for running the application with administrator rights.
pub fn get_elevation_instructions(platform: &str, exe_path: &str) -> (r: String)
    ensures
        r@ == elevation_instructions(platform@, exe_path@),
{
    if str_eq(platform, "macOS") || str_eq(platform, "Linux") {
        let mut s = string_of("请使用 sudo 运行应用：\n1. 打开终端\n2. 运行: sudo \"");
        push_str(&mut s, exe_path);
        push_str(&mut s, "\"");
        s
    } else if str_eq(platform, "Windows") {
        string_of("请以管理员身份运行：\n1. 右键点击 xnetify.exe\n2. 选择\"以管理员身份运行\"")
    } else {
        let mut s = string_of("请以管理员/root 权限运行: ");
        push_str(&mut s, exe_path);
        s
    }
}

/// The message that stands for the instructions.
pub fn get_elevation_message(platform: &str, exe_path: &str) -> (r: String)
    ensures
        r@ == elevation_instructions(platform@, exe_path@),
{
    get_elevation_instructions(platform, exe_path)
}

/// The answer to a check of administrator rights.
pub fn check_admin(is_admin: bool) -> (r: PrivilegeResult)
    ensures
        r.success == is_admin,
        !r.needs_restart,
        r.message@ == if is_admin {
            "已拥有管理员权限"@
        } else {
            "需要管理员权限"@
        },
{
    PrivilegeResult {
        success: is_admin,
        needs_restart: false,
        message: if is_admin {
            string_of("已拥有管理员权限")
        } else {
            string_of("需要管理员权限")
        },
    }
}

/// The three platform names differ from one another.
proof fn lemma_platform_names_differ()
    ensures
        "macOS"@ != "Linux"@,
        "macOS"@ != "Windows"@,
        "Linux"@ != "Windows"@,
{
    reveal_strlit("macOS");
    reveal_strlit("Linux");
    reveal_strlit("Windows");
    assert("macOS"@[0] != "Linux"@[0]);
    assert("macOS"@.len() != "Windows"@.len());
    assert("Linux"@.len() != "Windows"@.len());
}

/// The program (and its arguments) that asks for administrator rights on
/// `platform`; on Linux the first of `pkexec` and `gksu` that is installed.
pub fn get_elevation_command(platform: &str, has_pkexec: bool, has_gksu: bool) -> (r: Option<
    (String, Vec<String>),
>)
    ensures
        platform@ == "macOS"@ ==> (r matches Some(c) && c.0@ == "osascript"@ && c.1@.len() == 2
            && c.1@[0]@ == "-e"@ && c.1@[1]@
            == "do shell script \"printf '%s' $$\" with administrator privileges"@),
        platform@ == "Linux"@ ==> if has_pkexec {
            r matches Some(c) && c.0@ == "pkexec"@ && c.1@.len() == 0
        } else if has_gksu {
            r matches Some(c) && c.0@ == "gksu"@ && c.1@.len() == 0
        } else {
            r is None
        },
        platform@ == "Windows"@ ==> (r matches Some(c) && c.0@ == "powershell"@ && c.1@.len() == 2
            && c.1@[0]@ == "-Command"@ && c.1@[1]@
            == "Start-Process -FilePath powershell -Verb RunAs -ArgumentList '-Command Start-Process xnetify.exe -Verb RunAs'"@),
        !(platform@ == "macOS"@ || platform@ == "Linux"@ || platform@ == "Windows"@) ==> r is None,
{
    proof {
        lemma_platform_names_differ();
    }
    if str_eq(platform, "macOS") {
        let mut args: Vec<String> = Vec::new();
        args.push(string_of("-e"));
        args.push(string_of("do shell script \"printf '%s' $$\" with administrator privileges"));
        Some((string_of("osascript"), args))
    } else if str_eq(platform, "Linux") {
        if has_pkexec {
            Some((string_of("pkexec"), Vec::new()))
        } else if has_gksu {
            Some((string_of("gksu"), Vec::new()))
        } else {
            None
        }
    } else if str_eq(platform, "Windows") {
        let mut args: Vec<String> = Vec::new();
        args.push(string_of("-Command"));
        args.push(
            string_of(
                "Start-Process -FilePath powershell -Verb RunAs -ArgumentList '-Command Start-Process xnetify.exe -Verb RunAs'",
            ),
        );
        Some((string_of("powershell"), args))
    } else {
        None
    }
}

/// The name the executable goes by when its path cannot be read.
pub fn exe_fallback(platform: &str) -> (r: &'static str)
    ensures
        r@ == if platform@ == "Windows"@ {
            "xnetify.exe"@
        } else {
            "xnetify"@
        },
{
    if str_eq(platform, "Windows") {
        "xnetify.exe"
    } else {
        "xnetify"
    }
}

/// What a request for administrator rights does next.
pub enum ElevationPlan {
    /// Answer this at once.
    Done(PrivilegeResult),
    /// Start this program with these arguments, then answer by whether it
    /// started.
    Spawn { program: String, args: Vec<String> },
    /// See whether `pkexec` can be run, then answer by that.
    ProbePkexec,
}

/// The AppleScript that restarts the executable at `exe_path` with
/// administrator rights (single quotes in the path escaped for the shell).
pub open spec fn macos_elevation_script(exe_path: Seq<char>) -> Seq<char> {
    "do shell script \"sudo '"@ + replace_all(exe_path, "'"@, "'\\''"@)
        + "'\" with administrator privileges"@
}

/// The PowerShell command that restarts `exe_path` with administrator rights.
pub open spec fn windows_elevation_script(exe_path: Seq<char>) -> Seq<char> {
    "Start-Process -FilePath \""@ + exe_path + "\" -Verb RunAs"@
}

pub open spec fn done_with(r: ElevationPlan, success: bool, restart: bool, message: Seq<char>) -> bool {
    r matches ElevationPlan::Done(p) && p.success == success && p.needs_restart == restart
        && p.message@ == message
}

pub open spec fn spawn_of(r: ElevationPlan, program: Seq<char>, a0: Seq<char>, a1: Seq<char>) -> bool {
    r matches ElevationPlan::Spawn { program: p, args } && p@ == program && args@.len() == 2
        && args@[0]@ == a0 && args@[1]@ == a1
}

/// How a request for administrator rights proceeds on `platform`, for the
/// executable at `exe_path`.
pub fn request_elevation_plan(is_admin: bool, platform: &str, exe_path: &str) -> (r: ElevationPlan)
    ensures
        is_admin ==> done_with(r, true, false, "已拥有管理员权限"@),
        !is_admin && platform@ == "macOS"@ ==> spawn_of(
            r,
            "osascript"@,
            "-e"@,
            macos_elevation_script(exe_path@),
        ),
        !is_admin && platform@ == "Linux"@ ==> r is ProbePkexec,
        !is_admin && platform@ == "Windows"@ ==> spawn_of(
            r,
            "powershell"@,
            "-Command"@,
            windows_elevation_script(exe_path@),
        ),
        !is_admin && !(platform@ == "macOS"@ || platform@ == "Linux"@ || platform@ == "Windows"@)
            ==> done_with(r, false, false, elevation_instructions(platform@, exe_path@)),
{
    proof {
        lemma_platform_names_differ();
    }
    if is_admin {
        return ElevationPlan::Done(
            PrivilegeResult {
                success: true,
                needs_restart: false,
                message: string_of("已拥有管理员权限"),
            },
        );
    }
    if str_eq(platform, "macOS") {
        let path = str_to_chars(exe_path);
        let q = str_to_chars("'");
        let esc = str_to_chars("'\\''");
        proof {
            reveal_strlit("'");
        }
        let escaped = chars_replace(path.as_slice(), q.as_slice(), esc.as_slice());
        let mut script = string_of("do shell script \"sudo '");
        push_chars(&mut script, escaped.as_slice());
        push_str(&mut script, "'\" with administrator privileges");
        let mut args: Vec<String> = Vec::new();
        args.push(string_of("-e"));
        args.push(script);
        ElevationPlan::Spawn { program: string_of("osascript"), args }
    } else if str_eq(platform, "Linux") {
        ElevationPlan::ProbePkexec
    } else if str_eq(platform, "Windows") {
        let mut script = string_of("Start-Process -FilePath \"");
        push_str(&mut script, exe_path);
        push_str(&mut script, "\" -Verb RunAs");
        let mut args: Vec<String> = Vec::new();
        args.push(string_of("-Command"));
        args.push(script);
        ElevationPlan::Spawn { program: string_of("powershell"), args }
    } else {
        ElevationPlan::Done(
            PrivilegeResult {
                success: false,
                needs_restart: false,
                message: get_elevation_instructions(platform, exe_path),
            },
        )
    }
}

/// The answer once the elevating program was started (`Ok`) or not (`Err`
/// with the error's text).
pub fn elevation_after_spawn(started: Result<(), String>) -> (r: PrivilegeResult)
    ensures
        started is Ok ==> r.success && r.needs_restart && r.message@ == "正在以管理员身份重启应用..."@,
        started matches Err(e) ==> !r.success && !r.needs_restart && r.message@ == "提权失败: "@ + e@,
{
    match started {
        Ok(()) => PrivilegeResult {
            success: true,
            needs_restart: true,
            message: string_of("正在以管理员身份重启应用..."),
        },
        Err(e) => {
            let mut m = string_of("提权失败: ");
            push_str(&mut m, e.as_str());
            PrivilegeResult { success: false, needs_restart: false, message: m }
        },
    }
}

/// The answer on Linux once it is known whether `pkexec` runs.
pub fn elevation_after_probe(pkexec_runs: bool, instructions: String) -> (r: PrivilegeResult)
    ensures
        !r.success,
        r.needs_restart == pkexec_runs,
        pkexec_runs ==> r.message@ == "请使用 sudo 运行应用，或在终端中运行: pkexec xnetify"@,
        !pkexec_runs ==> r.message@ == instructions@,
{
    if pkexec_runs {
        PrivilegeResult {
            success: false,
            needs_restart: true,
            message: string_of("请使用 sudo 运行应用，或在终端中运行: pkexec xnetify"),
        }
    } else {
        PrivilegeResult { success: false, needs_restart: false, message: instructions }
    }
}

pub open spec fn admin_hint_text(platform: Seq<char>) -> Seq<char> {
    if platform == "macOS"@ {
        "sudo /Applications/xnetify.app/Contents/MacOS/xnetify"@
    } else if platform == "Linux"@ {
        "sudo xnetify"@
    } else if platform == "Windows"@ {
        "以管理员身份运行"@
    } else {
        "请以管理员/root 权限运行应用"@
    }
}

/// The quick hint shown when the tunnel is started without administrator
/// rights.
pub fn admin_hint(platform: &str) -> (r: &'static str)
    ensures
        r@ == admin_hint_text(platform@),
{
    if str_eq(platform, "macOS") {
        "sudo /Applications/xnetify.app/Contents/MacOS/xnetify"
    } else if str_eq(platform, "Linux") {
        "sudo xnetify"
    } else if str_eq(platform, "Windows") {
        "以管理员身份运行"
    } else {
        "请以管理员/root 权限运行应用"
    }
}

/// The error shown when the tunnel is started without administrator
/// rights.
pub fn admin_required_message(instructions: &str, platform: &str) -> (r: String)
    ensures
        r@ == "需要管理员权限\n\n"@ + instructions@ + "\n\n快速提示:\n"@ + admin_hint_text(platform@),
{
    let mut s = string_of("需要管理员权限\n\n");
    push_str(&mut s, instructions);
    push_str(&mut s, "\n\n快速提示:\n");
    push_str(&mut s, admin_hint(platform));
    s
}

/// Whether a tunnel start may go ahead: with administrator rights it may
/// (`None`); without them it is refused with the message asking for them.
pub fn tun_start_refusal(admin: bool, instructions: &str, platform: &str) -> (r: Option<String>)
    ensures
        admin ==> r is None,
        !admin ==> (r matches Some(m) && m@ == "需要管理员权限\n\n"@ + instructions@ + "\n\n快速提示:\n"@
            + admin_hint_text(platform@)),
{
    if admin {
        None
    } else {
        Some(admin_required_message(instructions, platform))
    }
}

} // verus!
