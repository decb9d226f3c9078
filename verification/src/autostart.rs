//! Start at login. The operating system is the single source of truth (the
//! LaunchAgent file on macOS, the `Run` registry value on Windows); writing
//! and querying them is the application's part. This module holds what is
//! computed: the LaunchAgent property list and the registry value.

use crate::text::{append_chars, chars_of, string_from};
use vstd::prelude::*;

verus! {

/// The LaunchAgent label (and file name) on macOS.
pub const LAUNCH_AGENT_LABEL: &'static str = "top.zhoumaosen.proxyzms";

/// The registry key of the per-user `Run` entries on Windows.
pub const WINDOWS_RUN_KEY: &'static str = "HKCU\\Software\\Microsoft\\Windows\\CurrentVersion\\Run";

/// The registry value name of the entry.
pub const WINDOWS_RUN_VALUE: &'static str = "ProxyZms";

/// Whether start at login can be switched on this operating system (as named
/// by `std::env::consts::OS`): macOS and Windows only.
pub fn is_supported(os: &str) -> (b: bool)
    ensures
        b == supported(os@),
{
    crate::text::same_text(os, "macos") || crate::text::same_text(os, "windows")
}

/// Start at login can be switched on `os`.
pub open spec fn supported(os: Seq<char>) -> bool {
    os == "macos"@ || os == "windows"@
}

/// The message when start at login cannot be switched on this system.
pub open spec fn unsupported_message() -> Seq<char> {
    "当前平台暂不支持开机自启动"@
}

/// Start at login is on: the system reports it (`registered`: the
/// LaunchAgent file or the `Run` value exists) on a system with the switch.
pub open spec fn enabled(os: Seq<char>, registered: bool) -> bool {
    supported(os) && registered
}

/// What an attempt to switch start at login may do before touching the
/// system: go ahead, or fail with the message shown to the user.
pub open spec fn switch_check(os: Seq<char>) -> Result<(), Seq<char>> {
    if supported(os) {
        Ok(())
    } else {
        Err(unsupported_message())
    }
}

/// Whether start at login is on, from what the system reports.
pub fn is_enabled_on(os: &str, registered: bool) -> (b: bool)
    ensures
        b == enabled(os@, registered),
{
    is_supported(os) && registered
}

/// Whether switching start at login may go ahead on `os`.
pub fn may_switch(os: &str) -> (r: Result<(), String>)
    ensures
        match r {
            Ok(()) => switch_check(os@) == Ok::<(), Seq<char>>(()),
            Err(e) => switch_check(os@) == Err::<(), Seq<char>>(e@),
        },
{
    if is_supported(os) {
        Ok(())
    } else {
        Err("当前平台暂不支持开机自启动".to_string())
    }
}

/// Where start at login cannot be switched (`is_supported` is false), it is
/// never on, whatever the system reports, and every attempt to switch it
/// fails with the message `当前平台暂不支持开机自启动`.
pub proof fn law_unsupported_platform(os: Seq<char>, registered: bool)
    requires
        !supported(os),
    ensures
        !enabled(os, registered),
        switch_check(os) == Err::<(), Seq<char>>("当前平台暂不支持开机自启动"@),
{
}

/// One character escaped for XML text.
pub open spec fn xml_char(c: char) -> Seq<char> {
    if c == '&' {
        "&amp;"@
    } else if c == '<' {
        "&lt;"@
    } else if c == '>' {
        "&gt;"@
    } else if c == '"' {
        "&quot;"@
    } else if c == '\'' {
        "&apos;"@
    } else {
        seq![c]
    }
}

/// Text escaped for XML.
pub open spec fn xml_escaped(s: Seq<char>) -> Seq<char>
    decreases s.len(),
{
    if s.len() == 0 {
        seq![]
    } else {
        xml_escaped(s.drop_last()) + xml_char(s.last())
    }
}

/// Escape `&`, `<`, `>`, `"` and `'` for XML text.
pub fn xml_escape(s: &str) -> (r: String)
    ensures
        r@ == xml_escaped(s@),
{
    let v = chars_of(s);
    let amp = chars_of("&amp;");
    let lt = chars_of("&lt;");
    let gt = chars_of("&gt;");
    let quot = chars_of("&quot;");
    let apos = chars_of("&apos;");
    let mut out: Vec<char> = Vec::new();
    let mut i: usize = 0;
    while i < v.len()
        invariant
            i <= v@.len(),
            amp@ == "&amp;"@,
            lt@ == "&lt;"@,
            gt@ == "&gt;"@,
            quot@ == "&quot;"@,
            apos@ == "&apos;"@,
            out@ == xml_escaped(v@.take(i as int)),
        decreases v@.len() - i,
    {
        let c = v[i];
        proof {
            assert(v@.take(i + 1).drop_last() =~= v@.take(i as int));
            assert(v@.take(i + 1).last() == c);
        }
        if c == '&' {
            append_chars(&mut out, &amp);
        } else if c == '<' {
            append_chars(&mut out, &lt);
        } else if c == '>' {
            append_chars(&mut out, &gt);
        } else if c == '"' {
            append_chars(&mut out, &quot);
        } else if c == '\'' {
            append_chars(&mut out, &apos);
        } else {
            out.push(c);
            assert(out@ =~= xml_escaped(v@.take(i as int)) + seq![c]);
        }
        i = i + 1;
    }
    assert(v@.take(i as int) =~= v@);
    string_from(&out)
}

/// The LaunchAgent text before the executable path.
pub open spec fn plist_head() -> Seq<char> {
    "<?xml version=\"1.0\" encoding=\"UTF-8\"?>\n<!DOCTYPE plist PUBLIC \"-//Apple//DTD PLIST 1.0//EN\" \"http://www.apple.com/DTDs/PropertyList-1.0.dtd\">\n<plist version=\"1.0\">\n<dict>\n    <key>Label</key>\n    <string>"@
        + LAUNCH_AGENT_LABEL@
        + "</string>\n    <key>ProgramArguments</key>\n    <array>\n        <string>"@
}

/// The LaunchAgent text after the executable path.
pub open spec fn plist_tail() -> Seq<char> {
    "</string>\n    </array>\n    <key>RunAtLoad</key>\n    <true/>\n</dict>\n</plist>\n"@
}

/// The LaunchAgent property list that starts `exe_path` at login
/// (`RunAtLoad`), the path escaped for XML.
pub fn render_plist(exe_path: &str) -> (r: String)
    ensures
        r@ == plist_head() + xml_escaped(exe_path@) + plist_tail(),
{
    let mut out = chars_of(
        "<?xml version=\"1.0\" encoding=\"UTF-8\"?>\n<!DOCTYPE plist PUBLIC \"-//Apple//DTD PLIST 1.0//EN\" \"http://www.apple.com/DTDs/PropertyList-1.0.dtd\">\n<plist version=\"1.0\">\n<dict>\n    <key>Label</key>\n    <string>",
    );
    append_chars(&mut out, &chars_of(LAUNCH_AGENT_LABEL));
    append_chars(
        &mut out,
        &chars_of("</string>\n    <key>ProgramArguments</key>\n    <array>\n        <string>"),
    );
    append_chars(&mut out, &chars_of(xml_escape(exe_path).as_str()));
    append_chars(
        &mut out,
        &chars_of("</string>\n    </array>\n    <key>RunAtLoad</key>\n    <true/>\n</dict>\n</plist>\n"),
    );
    string_from(&out)
}

/// The `Run` registry value for `exe_path`: the path in double quotes, so
/// that a path with spaces is one program.
pub fn run_value(exe_path: &str) -> (r: String)
    ensures
        r@ == "\""@ + exe_path@ + "\""@,
{
    let mut out = chars_of("\"");
    append_chars(&mut out, &chars_of(exe_path));
    append_chars(&mut out, &chars_of("\""));
    string_from(&out)
}

} // verus!
