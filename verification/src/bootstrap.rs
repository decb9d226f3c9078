//! First-run setup and control takeover. The application owns the mihomo
//! External Controller: every start strips whatever controller settings a
//! subscription carries and injects the local address and secret. (Downloads
//! and file writes are the application's part; the text rewriting is here.)

use crate::text::{
    append_chars, chars_of, has_prefix, is_top_line, lemma_lines_cons, lemma_lines_no_newline,
    lemma_lines_unlines, lemma_trim_push_ws, lemma_until_push, line_ranges, lines, no_newline,
    scan_until, starts_with, string_from, strip_cr, trim, trim_bounds, unlines, until, drop_trailing,
    trailing_end,
};
use vstd::prelude::*;

verus! {

/// Base URL of the mihomo mirror.
pub const MIHOMO_R2_BASE: &'static str = "https://r2.zhoumaosen.top/mihomo";

/// The base of the default `config.yaml` (the controller settings are
/// injected separately).
pub const DEFAULT_BASE: &'static str = "mixed-port: 7890\nallow-lan: false\nmode: rule\nlog-level: info\n";

/// A key without the `'...'` or `"..."` quotes around it: a quoted key is
/// the same YAML key.
pub open spec fn unquote(k: Seq<char>) -> Seq<char> {
    if k.len() >= 2 && ((k[0] == '\'' && k.last() == '\'') || (k[0] == '"' && k.last() == '"')) {
        k.subrange(1, k.len() - 1)
    } else {
        k
    }
}

/// The key of a top-level line: the text before its first `:`, trimmed and
/// unquoted.
pub open spec fn top_key(line: Seq<char>) -> Seq<char> {
    unquote(trim(until(line, |c: char| c == ':')))
}

/// Keys taken over locally; a prefix match also covers
/// `external-controller-tls`, `-unix`, `-cors` and the like.
pub open spec fn is_seized(key: Seq<char>) -> bool {
    starts_with(key, "external-controller"@) || starts_with(key, "secret"@)
}

/// The lines kept when the scan starts at `ls[0]` with the given skipping
/// state: a top-level line decides for itself and the lines under it.
pub open spec fn keep_from(ls: Seq<Seq<char>>, skipping: bool) -> Seq<Seq<char>>
    decreases ls.len(),
{
    if ls.len() == 0 {
        seq![]
    } else {
        let l = ls[0];
        let sk = if is_top_line(l) {
            is_seized(top_key(l))
        } else {
            skipping
        };
        let rest = keep_from(ls.drop_first(), sk);
        if sk {
            rest
        } else {
            seq![l] + rest
        }
    }
}

/// The YAML without its seized top-level keys (and their indented children).
pub open spec fn stripped(yaml: Seq<char>) -> Seq<char> {
    unlines(keep_from(lines(yaml), false))
}

/// The injected controller settings.
pub open spec fn control_header(ec_addr: Seq<char>, secret: Seq<char>) -> Seq<char> {
    "external-controller: "@ + ec_addr + "\n"@ + "secret: \""@ + secret + "\"\n"@
}

/// The YAML under local control.
pub open spec fn enforced(yaml: Seq<char>, ec_addr: Seq<char>, secret: Seq<char>) -> Seq<char> {
    control_header(ec_addr, secret) + stripped(yaml)
}

/// Remove `p` from the front of `s` as often as it is there.
pub open spec fn drop_prefixes(s: Seq<char>, p: Seq<char>) -> Seq<char>
    decreases s.len(),
{
    if p.len() > 0 && starts_with(s, p) {
        drop_prefixes(s.skip(p.len() as int), p)
    } else {
        s
    }
}

/// The controller URL as the `host:port` that mihomo expects.
pub open spec fn ec_of(url: Seq<char>) -> Seq<char> {
    drop_trailing(drop_prefixes(drop_prefixes(trim(url), "http://"@), "https://"@), '/')
}

/// The start of `v[lo..hi]` with every leading copy of `p` removed.
fn skip_prefixes(v: &Vec<char>, lo: usize, hi: usize, p: &Vec<char>) -> (a: usize)
    requires
        lo <= hi <= v@.len(),
    ensures
        lo <= a <= hi,
        v@.subrange(a as int, hi as int) == drop_prefixes(v@.subrange(lo as int, hi as int), p@),
{
    let mut i = lo;
    while p.len() > 0 && has_prefix(v, i, hi, p)
        invariant
            lo <= i <= hi <= v@.len(),
            drop_prefixes(v@.subrange(i as int, hi as int), p@) == drop_prefixes(
                v@.subrange(lo as int, hi as int),
                p@,
            ),
        decreases hi - i,
    {
        assert(v@.subrange(i as int, hi as int).skip(p@.len() as int) =~= v@.subrange(
            i + p@.len(),
            hi as int,
        ));
        i = i + p.len();
    }
    i
}

/// The controller URL as the `host:port` that mihomo expects (scheme and
/// trailing slashes removed).
pub fn url_to_ec(url: &str) -> (r: String)
    ensures
        r@ == ec_of(url@),
{
    let v = chars_of(url);
    let http = chars_of("http://");
    let https = chars_of("https://");
    let (a, b) = trim_bounds(&v, 0, v.len());
    assert(v@.subrange(0, v@.len() as int) =~= v@);
    let a = skip_prefixes(&v, a, b, &http);
    let a = skip_prefixes(&v, a, b, &https);
    let e = trailing_end(&v, a, b, '/');
    crate::text::string_of(&v, a, e)
}

/// Remove every top-level key that is taken over locally, together with the
/// indented lines below it. Each kept line ends with a newline.
pub fn strip_seized_keys(yaml: &str) -> (r: String)
    ensures
        r@ == stripped(yaml@),
{
    let v = chars_of(yaml);
    let ls = line_ranges(&v);
    let ec = chars_of("external-controller");
    let sec = chars_of("secret");
    let mut out: Vec<char> = Vec::new();
    let mut skipping = false;
    let mut k: usize = 0;
    assert(lines(v@).skip(0) =~= lines(v@));
    assert(out@ + unlines(keep_from(lines(v@), false)) =~= unlines(keep_from(lines(v@), false)));
    while k < ls.len()
        invariant
            k <= ls@.len(),
            ls@.len() == lines(v@).len(),
            ec@ == "external-controller"@,
            sec@ == "secret"@,
            forall|j: int|
                #![trigger ls@[j]]
                0 <= j < ls@.len() ==> {
                    &&& ls@[j].0 <= ls@[j].1 <= v@.len()
                    &&& v@.subrange(ls@[j].0 as int, ls@[j].1 as int) == lines(v@)[j]
                },
            out@ + unlines(keep_from(lines(v@).skip(k as int), skipping)) == unlines(
                keep_from(lines(v@), false),
            ),
        decreases ls@.len() - k,
    {
        let (a, b) = ls[k];
        let ghost line = lines(v@)[k as int];
        let ghost rest = lines(v@).skip(k as int);
        proof {
            assert(v@.subrange(a as int, b as int) == line);
            assert(rest[0] == line);
            assert(rest.drop_first() =~= lines(v@).skip(k + 1));
        }
        let ghost old_skipping = skipping;
        if a < b && v[a] != ' ' && v[a] != '\t' {
            let e = scan_until(&v, a, b, ':', ':');
            let (ta, tb) = trim_bounds(&v, a, e);
            let ghost t = v@.subrange(ta as int, tb as int);
            let (ka, kb) = if tb - ta >= 2 && ((v[ta] == '\'' && v[tb - 1] == '\'') || (v[ta] == '"'
                && v[tb - 1] == '"')) {
                (ta + 1, tb - 1)
            } else {
                (ta, tb)
            };
            proof {
                assert((|c: char| c == ':' || c == ':') =~= (|c: char| c == ':'));
                if tb - ta >= 2 {
                    assert(t[0] == v@[ta as int]);
                    assert(t.last() == v@[tb - 1]);
                }
                assert(v@.subrange(ka as int, kb as int) =~= unquote(t));
            }
            skipping = has_prefix(&v, ka, kb, &ec) || has_prefix(&v, ka, kb, &sec);
            assert((|c: char| c == ':' || c == ':') =~= (|c: char| c == ':'));
            assert(skipping == is_seized(top_key(line)));
        }
        let ghost tail = keep_from(lines(v@).skip(k + 1), skipping);
        assert(keep_from(rest, old_skipping) == if skipping {
            tail
        } else {
            seq![line] + tail
        });
        if !skipping {
            let ghost before = out@;
            let seg = crate::text::sub_vec(&v, a, b);
            append_chars(&mut out, &seg);
            out.push('\n');
            proof {
                assert((seq![line] + tail).drop_first() =~= tail);
                assert(unlines(seq![line] + tail) == line + seq!['\n'] + unlines(tail));
                assert(out@ + unlines(tail) =~= before + (line + seq!['\n'] + unlines(tail)));
            }
        }
        k = k + 1;
    }
    assert(lines(v@).skip(k as int) =~= seq![]);
    assert(out@ + unlines(seq![]) =~= out@);
    string_from(&out)
}


/// Rewrite the configuration under local control: strip the controller keys
/// that came with it and inject `ec_addr` (`host:port`) and `secret` (written
/// out even when empty, so that no secret is inherited).
pub fn enforce_local_control(yaml: &str, ec_addr: &str, secret: &str) -> (r: String)
    ensures
        r@ == enforced(yaml@, ec_addr@, secret@),
{
    let mut out: Vec<char> = chars_of("external-controller: ");
    append_chars(&mut out, &chars_of(ec_addr));
    append_chars(&mut out, &chars_of("\n"));
    append_chars(&mut out, &chars_of("secret: \""));
    append_chars(&mut out, &chars_of(secret));
    append_chars(&mut out, &chars_of("\"\n"));
    append_chars(&mut out, &chars_of(strip_seized_keys(yaml).as_str()));
    string_from(&out)
}

/// The configuration under local control, from the controller URL of the
/// settings (as used when a subscription is fetched and on every start).
pub fn controlled_config(yaml: &str, ec_url: &str, secret: &str) -> (r: String)
    ensures
        r@ == enforced(yaml@, ec_of(ec_url@), secret@),
{
    let ec = url_to_ec(ec_url);
    enforce_local_control(yaml, ec.as_str(), secret)
}

/// The minimal `config.yaml` written when there is none and no subscription.
pub fn default_config(ec_url: &str, secret: &str) -> (r: String)
    ensures
        r@ == enforced(DEFAULT_BASE@, ec_of(ec_url@), secret@),
{
    controlled_config(DEFAULT_BASE, ec_url, secret)
}

/// The download URL of the mihomo build for an operating system and a CPU
/// architecture (as named by `std::env::consts`). The mirror holds builds for
/// Windows x86_64, Windows aarch64 and macOS aarch64 only.
pub fn asset_url(os: &str, arch: &str) -> (r: Result<String, String>)
    ensures
        match r {
            Ok(u) => {
                ||| os@ == "windows"@ && arch@ == "x86_64"@ && u@ == MIHOMO_R2_BASE@ + "/windows.zip"@
                ||| os@ == "windows"@ && arch@ == "aarch64"@ && u@ == MIHOMO_R2_BASE@ + "/windowsarm.zip"@
                ||| os@ == "macos"@ && arch@ == "aarch64"@ && u@ == MIHOMO_R2_BASE@ + "/mac.gz"@
            },
            Err(e) => {
                &&& !(os@ == "windows"@ && arch@ == "x86_64"@)
                &&& !(os@ == "windows"@ && arch@ == "aarch64"@)
                &&& !(os@ == "macos"@ && arch@ == "aarch64"@)
                &&& e@ == "R2 镜像未上传该架构:"@ + os@ + " "@ + arch@
            },
        },
{
    let windows = crate::text::same_text(os, "windows");
    let macos = crate::text::same_text(os, "macos");
    let x86_64 = crate::text::same_text(arch, "x86_64");
    let aarch64 = crate::text::same_text(arch, "aarch64");
    let file = if windows && x86_64 {
        "/windows.zip"
    } else if windows && aarch64 {
        "/windowsarm.zip"
    } else if macos && aarch64 {
        "/mac.gz"
    } else {
        let mut e = chars_of("R2 镜像未上传该架构:");
        append_chars(&mut e, &chars_of(os));
        append_chars(&mut e, &chars_of(" "));
        append_chars(&mut e, &chars_of(arch));
        return Err(string_from(&e));
    };
    let mut u = chars_of(MIHOMO_R2_BASE);
    append_chars(&mut u, &chars_of(file));
    Ok(string_from(&u))
}


/// Download progress is reported every 256 KiB (and once at the start and
/// at the end), so that the page is not redrawn for every chunk.
pub fn should_report_progress(done: u64, last_report: u64) -> (b: bool)
    requires
        last_report <= done,
    ensures
        b == (done - last_report >= 262144),
{
    done - last_report >= 256 * 1024
}

/// The downloaded asset is a zip archive (else a gzip file).
pub fn is_zip_asset(url: &str) -> (b: bool)
    ensures
        b == (url@.len() >= 4 && url@.skip(url@.len() - 4) == ".zip"@),
{
    let v = chars_of(url);
    let suffix = chars_of(".zip");
    if v.len() < 4 {
        return false;
    }
    let m = has_prefix(&v, v.len() - 4, v.len(), &suffix);
    proof {
        reveal_strlit(".zip");
        assert(v@.subrange(v@.len() - 4, v@.len() as int).take(4) =~= v@.skip(v@.len() - 4));
    }
    m
}

/// `str::to_lowercase` (full Unicode case mapping).
pub uninterp spec fn lowercase_of(s: Seq<char>) -> Seq<char>;

/// `str::to_lowercase`: its result is a function of the text alone.
#[verifier::external_body]
fn lowercase(s: &str) -> (r: String)
    ensures
        r@ == lowercase_of(s@),
{
    s.to_lowercase()
}

/// `s` ends with `p`.
pub open spec fn ends_with(s: Seq<char>, p: Seq<char>) -> bool {
    p.len() <= s.len() && s.skip(s.len() - p.len()) == p
}

/// Whether `v` ends with `pat`.
fn has_suffix(v: &Vec<char>, pat: &Vec<char>) -> (b: bool)
    ensures
        b == ends_with(v@, pat@),
{
    if pat.len() > v.len() {
        return false;
    }
    let m = has_prefix(v, v.len() - pat.len(), v.len(), pat);
    assert(v@.subrange(v@.len() - pat@.len(), v@.len() as int).take(pat@.len() as int) =~= v@.skip(
        v@.len() - pat@.len(),
    ));
    m
}

/// The zip entry that holds mihomo: a `.exe` (in any case), or the only
/// entry of the archive.
pub fn is_binary_entry(name: &str, entry_count: usize) -> (b: bool)
    ensures
        b == (ends_with(lowercase_of(name@), ".exe"@) || entry_count == 1),
{
    let lower = chars_of(lowercase(name).as_str());
    has_suffix(&lower, &chars_of(".exe")) || entry_count == 1
}

/// The wintun directory for a CPU architecture (as named by
/// `std::env::consts::ARCH`).
pub fn wintun_arch_dir(arch: &str) -> (r: Result<&'static str, String>)
    ensures
        match r {
            Ok(d) => (arch@ == "x86_64"@ && d@ == "amd64"@) || (arch@ == "aarch64"@ && d@ == "arm64"@),
            Err(e) => arch@ != "x86_64"@ && arch@ != "aarch64"@ && e@ == "wintun 不支持当前架构:"@
                + arch@,
        },
{
    if crate::text::same_text(arch, "x86_64") {
        Ok("amd64")
    } else if crate::text::same_text(arch, "aarch64") {
        Ok("arm64")
    } else {
        let mut e = chars_of("wintun 不支持当前架构:");
        append_chars(&mut e, &chars_of(arch));
        Err(string_from(&e))
    }
}

/// A path with every `\` turned into `/`.
pub open spec fn slashed(s: Seq<char>) -> Seq<char> {
    s.map_values(|c: char| if c == '\\' { '/' } else { c })
}

/// The zip entry that holds `wintun.dll` for the architecture directory
/// `arch_dir` (the archive lays them out as `wintun/bin/<arch>/wintun.dll`).
pub fn is_wintun_entry(name: &str, arch_dir: &str) -> (b: bool)
    ensures
        b == ends_with(slashed(name@), "bin/"@ + arch_dir@ + "/wintun.dll"@),
{
    let v = chars_of(name);
    let mut w: Vec<char> = Vec::new();
    let mut i: usize = 0;
    while i < v.len()
        invariant
            i <= v@.len(),
            w@ == slashed(v@.take(i as int)),
        decreases v@.len() - i,
    {
        let c = if v[i] == '\\' {
            '/'
        } else {
            v[i]
        };
        w.push(c);
        assert(w@ =~= slashed(v@.take(i + 1)));
        i = i + 1;
    }
    assert(v@.take(i as int) =~= v@);
    let mut want = chars_of("bin/");
    append_chars(&mut want, &chars_of(arch_dir));
    append_chars(&mut want, &chars_of("/wintun.dll"));
    has_suffix(&w, &want)
}

/// The user pointed the application at a mihomo binary of their own (a
/// non-blank path other than the managed one): the first-run setup is
/// skipped.
pub fn uses_custom_binary(current: &str, managed: &str) -> (b: bool)
    ensures
        b == (trim(current@).len() > 0 && current@ != managed@),
{
    let v = chars_of(current);
    let (a, z) = trim_bounds(&v, 0, v.len());
    assert(v@.subrange(0, v@.len() as int) =~= v@);
    a < z && !crate::text::same_text(current, managed)
}

/// What the first-run setup does about `config.yaml`.
#[derive(Clone, Copy, PartialEq, Eq, Debug, Structural)]
pub enum ConfigAction {
    /// No file and no subscription: write the default configuration.
    WriteDefault,
    /// No file: download the subscription (then take control of it).
    Fetch,
    /// The file exists: take control of it again.
    Reassert,
}

/// The setup keeps an existing configuration (under local control) and
/// otherwise creates one, from the subscription when one is configured.
pub fn config_action(config_exists: bool, subscription_url: &str) -> (r: ConfigAction)
    ensures
        r == if config_exists {
            ConfigAction::Reassert
        } else if trim(subscription_url@).len() == 0 {
            ConfigAction::WriteDefault
        } else {
            ConfigAction::Fetch
        },
{
    if config_exists {
        return ConfigAction::Reassert;
    }
    let v = chars_of(subscription_url);
    let (a, z) = trim_bounds(&v, 0, v.len());
    assert(v@.subrange(0, v@.len() as int) =~= v@);
    if a == z {
        ConfigAction::WriteDefault
    } else {
        ConfigAction::Fetch
    }
}

// ---------------------------------------------------------------------------
// Laws

/// A line that is not a top-level line taken over locally.
pub open spec fn clean_line(l: Seq<char>) -> bool {
    is_top_line(l) ==> !is_seized(top_key(l))
}

/// Every kept line is one of the input lines.
proof fn lemma_keep_from_input(ls: Seq<Seq<char>>, b: bool)
    ensures
        forall|i: int|
            0 <= i < keep_from(ls, b).len() ==> exists|j: int|
                0 <= j < ls.len() && #[trigger] keep_from(ls, b)[i] == ls[j],
    decreases ls.len(),
{
    if ls.len() > 0 {
        let l = ls[0];
        let sk = if is_top_line(l) {
            is_seized(top_key(l))
        } else {
            b
        };
        let rest = ls.drop_first();
        lemma_keep_from_input(rest, sk);
        let k = keep_from(ls, b);
        assert forall|i: int| 0 <= i < k.len() implies exists|j: int|
            0 <= j < ls.len() && #[trigger] k[i] == ls[j] by {
            if sk {
                let j = choose|j: int| 0 <= j < rest.len() && keep_from(rest, sk)[i] == rest[j];
                assert(k[i] == ls[j + 1]);
            } else if i == 0 {
                assert(k[0] == ls[0]);
            } else {
                let j = choose|j: int| 0 <= j < rest.len() && keep_from(rest, sk)[i - 1] == rest[j];
                assert(k[i] == ls[j + 1]);
            }
        }
    }
}

/// No kept line is a top-level line taken over locally.
proof fn lemma_keep_from_clean(ls: Seq<Seq<char>>, b: bool)
    ensures
        forall|i: int| 0 <= i < keep_from(ls, b).len() ==> clean_line(#[trigger] keep_from(ls, b)[i]),
    decreases ls.len(),
{
    if ls.len() > 0 {
        let l = ls[0];
        let sk = if is_top_line(l) {
            is_seized(top_key(l))
        } else {
            b
        };
        lemma_keep_from_clean(ls.drop_first(), sk);
        let k = keep_from(ls, b);
        assert forall|i: int| 0 <= i < k.len() implies clean_line(#[trigger] k[i]) by {
            if !sk && i > 0 {
                assert(k[i] == keep_from(ls.drop_first(), sk)[i - 1]);
            } else if sk {
                assert(k[i] == keep_from(ls.drop_first(), sk)[i]);
            }
        }
    }
}

/// Dropping a final `\r` changes neither whether a line is top-level nor
/// its key.
proof fn lemma_strip_cr_clean(l: Seq<char>)
    requires
        clean_line(l),
    ensures
        clean_line(strip_cr(l)),
{
    if l.len() > 0 && l.last() == '\r' {
        let m = l.drop_last();
        assert(m.push('\r') =~= l);
        if is_top_line(m) {
            assert(l[0] == m[0]);
            lemma_until_push(m, '\r', |c: char| c == ':');
            if until(m, |c: char| c == ':').len() == m.len() {
                lemma_trim_push_ws(m, '\r');
            }
        }
    }
}

/// The lines that mihomo reads from the rewritten configuration start with
/// the injected controller address and secret; no other top-level line of it
/// names an `external-controller*` or `secret*` key. (The address and the
/// secret are single lines.)
pub proof fn law_local_control(yaml: Seq<char>, ec_addr: Seq<char>, secret: Seq<char>)
    requires
        no_newline(ec_addr),
        no_newline(secret),
    ensures
        lines(enforced(yaml, ec_addr, secret)).len() >= 2,
        lines(enforced(yaml, ec_addr, secret))[0] == strip_cr("external-controller: "@ + ec_addr),
        lines(enforced(yaml, ec_addr, secret))[1] == "secret: \""@ + secret + "\""@,
        forall|i: int|
            2 <= i < lines(enforced(yaml, ec_addr, secret)).len() ==> clean_line(
                #[trigger] lines(enforced(yaml, ec_addr, secret))[i],
            ),
{
    reveal_strlit("external-controller: ");
    reveal_strlit("\n");
    reveal_strlit("secret: \"");
    reveal_strlit("\"\n");
    reveal_strlit("\"");
    let a1 = "external-controller: "@ + ec_addr;
    let a2 = "secret: \""@ + secret + "\""@;
    let st = stripped(yaml);
    let out = enforced(yaml, ec_addr, secret);
    assert(out =~= a1 + seq!['\n'] + (a2 + seq!['\n'] + st));
    assert(no_newline(a1));
    assert(no_newline(a2));
    lemma_lines_cons(a1, a2 + seq!['\n'] + st);
    lemma_lines_cons(a2, st);
    assert(a2.last() == '"');
    assert(strip_cr(a2) == a2);
    let ls = lines(yaml);
    let k = keep_from(ls, false);
    lemma_lines_no_newline(yaml, 0, 0);
    lemma_keep_from_input(ls, false);
    lemma_keep_from_clean(ls, false);
    assert forall|i: int| 0 <= i < k.len() implies no_newline(#[trigger] k[i]) by {
        let j = choose|j: int| 0 <= j < ls.len() && k[i] == ls[j];
        assert(no_newline(ls[j]));
    }
    lemma_lines_unlines(k);
    let lo = lines(out);
    assert forall|i: int| 2 <= i < lo.len() implies clean_line(#[trigger] lo[i]) by {
        assert(lo[i] == strip_cr(k[i - 2]));
        assert(clean_line(k[i - 2]));
        lemma_strip_cr_clean(k[i - 2]);
    }
}


/// A scan that starts at a top-level line (or from a skipping state) keeps a
/// top-level line first, if anything.
proof fn lemma_keep_first_top(ls: Seq<Seq<char>>, b: bool)
    requires
        b || ls.len() == 0 || is_top_line(ls[0]),
    ensures
        keep_from(ls, b).len() > 0 ==> is_top_line(keep_from(ls, b)[0]),
    decreases ls.len(),
{
    if ls.len() > 0 {
        let l = ls[0];
        let sk = if is_top_line(l) {
            is_seized(top_key(l))
        } else {
            b
        };
        if sk {
            lemma_keep_first_top(ls.drop_first(), true);
        }
    }
}

/// Clean lines are kept as they are once the scan is not skipping.
proof fn lemma_keep_clean_lines(ls: Seq<Seq<char>>, b: bool)
    requires
        forall|i: int| 0 <= i < ls.len() ==> clean_line(#[trigger] ls[i]),
        !b || ls.len() == 0 || is_top_line(ls[0]),
    ensures
        keep_from(ls, b) == ls,
    decreases ls.len(),
{
    if ls.len() > 0 {
        let rest = ls.drop_first();
        assert(clean_line(ls[0]));
        assert forall|i: int| 0 <= i < rest.len() implies clean_line(#[trigger] rest[i]) by {
            assert(rest[i] == ls[i + 1]);
        }
        lemma_keep_clean_lines(rest, false);
        assert(seq![ls[0]] + rest =~= ls);
    }
}

/// Reasserting control is stable: rewriting an already rewritten
/// configuration again, with the same address and secret, changes nothing.
/// (For a file whose first line is a top-level key and whose kept lines do
/// not end with a stray `\r`, and a single-line address and secret.)
pub proof fn law_reassert_stable(yaml: Seq<char>, ec_addr: Seq<char>, secret: Seq<char>)
    requires
        no_newline(ec_addr),
        no_newline(secret),
        kept_lines_end_clean(yaml),
        lines(yaml).len() == 0 || is_top_line(lines(yaml)[0]),
    ensures
        enforced(enforced(yaml, ec_addr, secret), ec_addr, secret) == enforced(yaml, ec_addr, secret),
{
    reveal_strlit("external-controller: ");
    reveal_strlit("\n");
    reveal_strlit("secret: \"");
    reveal_strlit("\"\n");
    reveal_strlit("\"");
    reveal_strlit("external-controller");
    reveal_strlit("secret");
    let a1 = "external-controller: "@ + ec_addr;
    let a2 = "secret: \""@ + secret + "\""@;
    let ls = lines(yaml);
    let k = keep_from(ls, false);
    let out = enforced(yaml, ec_addr, secret);
    assert(out =~= a1 + seq!['\n'] + (a2 + seq!['\n'] + unlines(k)));
    assert(no_newline(a1));
    assert(no_newline(a2));
    lemma_lines_cons(a1, a2 + seq!['\n'] + unlines(k));
    lemma_lines_cons(a2, unlines(k));
    assert(a2.last() == '"');
    assert(strip_cr(a2) == a2);
    lemma_lines_no_newline(yaml, 0, 0);
    lemma_keep_from_input(ls, false);
    lemma_keep_from_clean(ls, false);
    lemma_keep_first_top(ls, false);
    assert forall|i: int| 0 <= i < k.len() implies no_newline(#[trigger] k[i]) && strip_cr(k[i]) == k[i] by {
        let j = choose|j: int| 0 <= j < ls.len() && k[i] == ls[j];
        assert(no_newline(ls[j]));
    }
    lemma_lines_unlines(k);
    assert(k.map_values(|l: Seq<char>| strip_cr(l)) =~= k);
    let s1 = strip_cr(a1);
    let lo = lines(out);
    assert(lo == seq![s1] + (seq![a2] + k));
    // The two header lines are top-level keys taken over locally.
    let ec = "external-controller"@;
    assert(s1.len() >= 20);
    assert(s1.subrange(0, 20) =~= ec.push(':'));
    lemma_until_prefix(s1, 19);
    assert(until(s1, |c: char| c == ':') =~= ec);
    lemma_trim_plain(ec);
    assert(top_key(s1) == ec);
    assert(is_seized(top_key(s1))) by {
        assert(top_key(s1).take(ec.len() as int) =~= ec);
    }
    let sc = "secret"@;
    assert(a2.subrange(0, 7) =~= sc.push(':'));
    lemma_until_prefix(a2, 6);
    assert(until(a2, |c: char| c == ':') =~= sc);
    lemma_trim_plain(sc);
    assert(is_seized(top_key(a2))) by {
        assert(top_key(a2).take(sc.len() as int) =~= sc);
    }
    assert(is_top_line(s1));
    assert(is_top_line(a2));
    assert((seq![s1] + (seq![a2] + k))[0] == s1);
    assert((seq![s1] + (seq![a2] + k)).drop_first() =~= seq![a2] + k);
    assert((seq![a2] + k)[0] == a2);
    assert((seq![a2] + k).drop_first() =~= k);
    assert(keep_from(seq![a2] + k, true) == keep_from(k, true));
    assert(keep_from(lo, false) == keep_from(seq![a2] + k, true));
    lemma_keep_clean_lines(k, true);
}

/// The prefix before the first `:` when the first `:` is at `p`.
proof fn lemma_until_prefix(s: Seq<char>, p: int)
    requires
        0 <= p < s.len(),
        s[p] == ':',
        forall|k: int| 0 <= k < p ==> s[k] != ':',
    ensures
        until(s, |c: char| c == ':') == s.take(p),
    decreases p,
{
    if p == 0 {
        assert(until(s, |c: char| c == ':') =~= s.take(0));
    } else {
        let t = s.drop_first();
        assert forall|k: int| 0 <= k < p - 1 implies t[k] != ':' by {
            assert(t[k] == s[k + 1]);
        }
        lemma_until_prefix(t, p - 1);
        assert(seq![s[0]] + t.take(p - 1) =~= s.take(p));
    }
}

/// Text with no whitespace at either end is its own trim.
proof fn lemma_trim_plain(s: Seq<char>)
    requires
        s.len() > 0,
        !crate::text::is_ws(s[0]),
        !crate::text::is_ws(s.last()),
    ensures
        trim(s) == s,
{
}

/// Stripping twice keeps what stripping once kept.
proof fn lemma_keep_twice(ls: Seq<Seq<char>>, b: bool)
    ensures
        keep_from(keep_from(ls, b), false) == keep_from(ls, b),
    decreases ls.len(),
{
    if ls.len() > 0 {
        let l = ls[0];
        let sk = if is_top_line(l) {
            is_seized(top_key(l))
        } else {
            b
        };
        let rest = keep_from(ls.drop_first(), sk);
        lemma_keep_twice(ls.drop_first(), sk);
        if !sk {
            let kept = seq![l] + rest;
            assert(kept[0] == l);
            assert(kept.drop_first() =~= rest);
            lemma_keep_twice(ls.drop_first(), false);
        }
    }
}

/// No line that stripping keeps ends with a stray `\r` once its line break
/// is taken off (such a line would lose that `\r` at the next pass).
pub open spec fn kept_lines_end_clean(yaml: Seq<char>) -> bool {
    forall|i: int|
        0 <= i < keep_from(lines(yaml), false).len() ==> strip_cr(
            #[trigger] keep_from(lines(yaml), false)[i],
        ) == keep_from(lines(yaml), false)[i]
}

/// Stripping the controller keys twice gives what stripping once gave (for
/// text whose kept lines do not end with a stray `\r`).
pub proof fn law_strip_stable(yaml: Seq<char>)
    requires
        kept_lines_end_clean(yaml),
    ensures
        stripped(stripped(yaml)) == stripped(yaml),
{
    let ls = lines(yaml);
    let k = keep_from(ls, false);
    lemma_lines_no_newline(yaml, 0, 0);
    lemma_keep_from_input(ls, false);
    assert forall|i: int| 0 <= i < k.len() implies no_newline(#[trigger] k[i]) by {
        let j = choose|j: int| 0 <= j < ls.len() && k[i] == ls[j];
        assert(no_newline(ls[j]));
    }
    lemma_lines_unlines(k);
    assert(k.map_values(|l: Seq<char>| strip_cr(l)) =~= k);
    assert(lines(stripped(yaml)) == k);
    lemma_keep_twice(ls, false);
}

} // verus!
