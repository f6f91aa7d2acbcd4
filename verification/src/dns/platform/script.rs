//! The shell scripts that change the DNS settings of the system, and the commands that run
//! them with the rights of an administrator.
use vstd::prelude::*;
use vstd::string::*;

use crate::apply::platform::escape_text;
use crate::models::OriginalDns;
use crate::text::{decimal_text, hex_text, join_texts, replaced};

verus! {

broadcast use vstd::string::group_string_axioms;

// ---------------------------------------------------------------------------
// Quoting
// ---------------------------------------------------------------------------
/// A text as one word of a shell command: in single quotes, with each single quote
/// written as `'\''`.
pub open spec fn quoted(s: Seq<char>) -> Seq<char> {
    "'"@ + crate::text::replace_char(s, '\'', "'\\''"@) + "'"@
}

/// A text as one word of a shell command.
pub fn shell_single_quote(s: &str) -> (r: String)
    ensures
        r@ == quoted(s@),
{
    let mut out: String = "'".to_owned();
    out.append(replaced(s, '\'', "'\\''").as_str());
    out.append("'");
    out
}

/// What a shell reads in a word. Inside single quotes each character stands for itself;
/// outside of them a backslash makes the next one stand for itself, and letters and
/// digits do so anyway. Nothing else belongs to the word.
pub open spec fn shell_word(s: Seq<char>, in_quotes: bool) -> Option<Seq<char>>
    decreases s.len(),
{
    if s.len() == 0 {
        if in_quotes {
            None
        } else {
            Some(seq![])
        }
    } else if s[0] == '\'' {
        shell_word(s.skip(1), !in_quotes)
    } else if in_quotes || crate::text::is_alnum(s[0]) {
        prepended(s[0], shell_word(s.skip(1), in_quotes))
    } else if s[0] == '\\' && s.len() > 1 {
        prepended(s[1], shell_word(s.skip(2), false))
    } else {
        None
    }
}

/// A character before a text.
pub open spec fn prepended(c: char, t: Option<Seq<char>>) -> Option<Seq<char>> {
    match t {
        Some(x) => Some(seq![c] + x),
        None => None,
    }
}

/// Replacing goes piece by piece.
proof fn lemma_replace_pieces(a: Seq<char>, b: Seq<char>, c: char, t: Seq<char>)
    ensures
        crate::text::replace_char(a + b, c, t) == crate::text::replace_char(a, c, t)
            + crate::text::replace_char(b, c, t),
    decreases b.len(),
{
    if b.len() == 0 {
        assert(a + b =~= a);
    } else {
        lemma_replace_pieces(a, b.drop_last(), c, t);
        assert((a + b).drop_last() =~= a + b.drop_last());
        assert((a + b).last() == b.last());
        assert(crate::text::replace_char(a + b, c, t) =~= crate::text::replace_char(a, c, t)
            + crate::text::replace_char(b, c, t));
    }
}

/// What a shell reads after the first quote.
proof fn lemma_quoted_rest(s: Seq<char>)
    ensures
        shell_word(crate::text::replace_char(s, '\'', "'\\''"@) + seq!['\''], true) == Some(s),
    decreases s.len(),
{
    let t = "'\\''"@;
    reveal_strlit("'\\''");
    assert(t =~= seq!['\'', '\\', '\'', '\'']);
    let end = seq!['\''];
    if s.len() == 0 {
        let w = crate::text::replace_char(s, '\'', t) + end;
        assert(w.skip(1) =~= seq![]);
        assert(shell_word(w.skip(1), false) == Some(Seq::<char>::empty()));
        assert(s =~= seq![]);
    } else {
        let first = seq![s[0]];
        let rest = s.skip(1);
        assert(s =~= first + rest);
        lemma_replace_pieces(first, rest, '\'', t);
        lemma_quoted_rest(rest);
        let u = crate::text::replace_char(rest, '\'', t) + end;
        let w = crate::text::replace_char(s, '\'', t) + end;
        assert(first.drop_last() =~= seq![]);
        assert(crate::text::replace_char(first.drop_last(), '\'', t) =~= seq![]);
        if s[0] == '\'' {
            assert(crate::text::replace_char(first, '\'', t) =~= t);
            assert(w =~= t + u);
            assert(w.skip(1).skip(2).skip(1) =~= u);
            assert(w.skip(1)[0] == '\\' && w.skip(1)[1] == '\'');
            assert(w.skip(1).skip(2)[0] == '\'');
            assert(shell_word(w.skip(1).skip(2), false) == shell_word(u, true));
            assert(shell_word(w.skip(1), false) == prepended('\'', shell_word(u, true)));
        } else {
            assert(crate::text::replace_char(first, '\'', t) =~= first);
            assert(w =~= first + u);
            assert(w.skip(1) =~= u);
        }
        assert(seq![s[0]] + rest =~= s);
    }
}

/// A shell reads a quoted text as one word, and as the text itself, whatever it holds.
pub proof fn quoting_can_be_undone(s: Seq<char>)
    ensures
        shell_word(quoted(s), false) == Some(s),
{
    reveal_strlit("'");
    assert("'"@ =~= seq!['\'']);
    lemma_quoted_rest(s);
    assert(quoted(s).skip(1) =~= crate::text::replace_char(s, '\'', "'\\''"@) + seq!['\'']);
}

// ---------------------------------------------------------------------------
// Commands for AppleScript
// ---------------------------------------------------------------------------
/// The AppleScript that runs a shell script as administrator. The mark makes each command
/// a different one, so that the user is asked each time.
pub open spec fn elevated(script_path: Seq<char>, nonce: Seq<char>) -> Seq<char> {
    "do shell script \"sh \" & quoted form of POSIX path of \""@
        + crate::apply::platform::escaped(script_path) + "\" & \" #nonce"@ + nonce
        + "\" with administrator privileges"@
}

/// The AppleScript that runs a shell script as administrator.
pub fn build_osascript_command(script_path: &str, nonce: &str) -> (r: String)
    ensures
        r@ == elevated(script_path@, nonce@),
{
    let mut out: String = "do shell script \"sh \" & quoted form of POSIX path of \"".to_owned();
    out.append(escape_text(script_path).as_str());
    out.append("\" & \" #nonce");
    out.append(nonce);
    out.append("\" with administrator privileges");
    out
}

/// A mark for a command: the time, the process and a number that counts up.
pub open spec fn nonce_of(nanos: u128, pid: u32, counter: u64) -> Seq<char> {
    crate::text::join(
        seq![
            crate::text::hexadecimal(nanos as nat),
            crate::text::decimal(pid as nat),
            crate::text::decimal(counter as nat),
        ],
        seq!['-'],
    )
}

/// A mark for a command.
pub fn generate_nonce(nanos: u128, pid: u32, counter: u64) -> (r: String)
    ensures
        r@ == nonce_of(nanos, pid, counter),
{
    let a = hex_text(nanos);
    let b = decimal_text(pid as u64);
    let c = decimal_text(counter);
    let mut out: String = a.clone();
    out.push('-');
    out.append(b.as_str());
    out.push('-');
    out.append(c.as_str());
    proof {
        let parts = seq![a@, b@, c@];
        let sep = seq!['-'];
        assert(parts.skip(1) =~= seq![b@, c@]);
        assert(seq![b@, c@].skip(1) =~= seq![c@]);
        assert(crate::text::join(seq![c@], sep) == c@);
        assert(crate::text::join(seq![b@, c@], sep) == b@ + sep + c@);
        assert(crate::text::join(parts, sep) == a@ + sep + (b@ + sep + c@));
        assert(out@ =~= a@ + sep + (b@ + sep + c@));
    }
    out
}

/// Digits are no hyphens.
proof fn lemma_no_hyphen(n: nat)
    ensures
        !crate::text::decimal(n).contains('-'),
        !crate::text::hexadecimal(n).contains('-'),
{
    crate::text::lemma_decimal(n);
    crate::text::lemma_hexadecimal(n);
    let d = crate::text::decimal(n);
    let h = crate::text::hexadecimal(n);
    if d.contains('-') {
        let i = choose|i: int| 0 <= i < d.len() && d[i] == '-';
        assert(crate::text::is_digit(d[i]));
    }
    if h.contains('-') {
        let i = choose|i: int| 0 <= i < h.len() && h[i] == '-';
        assert(crate::text::hex_digit(h[i]) < 16);
    }
}

/// Commands that were made at different times, by different processes or one after the
/// other have different marks.
pub proof fn nonces_differ(n1: u128, p1: u32, c1: u64, n2: u128, p2: u32, c2: u64)
    requires
        nonce_of(n1, p1, c1) == nonce_of(n2, p2, c2),
    ensures
        n1 == n2,
        p1 == p2,
        c1 == c2,
{
    let x = seq![
        crate::text::hexadecimal(n1 as nat),
        crate::text::decimal(p1 as nat),
        crate::text::decimal(c1 as nat),
    ];
    let y = seq![
        crate::text::hexadecimal(n2 as nat),
        crate::text::decimal(p2 as nat),
        crate::text::decimal(c2 as nat),
    ];
    lemma_no_hyphen(n1 as nat);
    lemma_no_hyphen(p1 as nat);
    lemma_no_hyphen(c1 as nat);
    lemma_no_hyphen(n2 as nat);
    lemma_no_hyphen(p2 as nat);
    lemma_no_hyphen(c2 as nat);
    crate::text::lemma_split_join(x, '-');
    crate::text::lemma_split_join(y, '-');
    assert(x == y);
    assert(x[0] == y[0] && x[1] == y[1] && x[2] == y[2]);
    crate::text::lemma_hexadecimal(n1 as nat);
    crate::text::lemma_hexadecimal(n2 as nat);
    crate::text::lemma_decimal(p1 as nat);
    crate::text::lemma_decimal(p2 as nat);
    crate::text::lemma_decimal(c1 as nat);
    crate::text::lemma_decimal(c2 as nat);
}

/// The name of the file for a script that is run as administrator.
pub fn temp_script_name(pid: u32, counter: u64) -> (r: String)
    ensures
        r@ == "mhost-dns-"@ + crate::text::decimal(pid as nat) + "-"@ + crate::text::decimal(
            counter as nat,
        ) + ".sh"@,
{
    let mut out: String = "mhost-dns-".to_owned();
    out.append(decimal_text(pid as u64).as_str());
    out.append("-");
    out.append(decimal_text(counter).as_str());
    out.append(".sh");
    out
}

// ---------------------------------------------------------------------------
// Scripts
// ---------------------------------------------------------------------------
/// What the script that enables the DNS mode is made for.
#[derive(Debug, Clone, PartialEq, Eq)]
pub struct EnableScriptInputs {
    pub proxy_path: String,
    pub dns_port: u16,
    pub pid_file: String,
    pub log_path: String,
    pub interface: String,
}

/// What the script that restores the settings is made for. Without the name of its
/// program, a process is stopped whatever it runs.
#[derive(Debug, Clone, PartialEq, Eq)]
pub struct DisableScriptInputs {
    pub interface: String,
    pub target: String,
    pub proxy_pid: Option<u32>,
    pub expected_basename: Option<String>,
}

/// The part of the enabling script before the proxy is started: until the settings have
/// been changed, whatever fails stops the proxy again and removes its file. A proxy that
/// is left over is stopped; only where no file names it, or an old one does, all
/// processes with its name are.
pub const ENABLE_SCRIPT_PREPARE: &'static str = r#"
PROXY_PID=""

# EXIT trap 在 networksetup 成功之前
# 把 disowned root proxy 杀掉 + 删 PID 文件。否则 bind 成功 + networksetup
# 失败会让 53 端口被占着、找不到 PID 来 kill，恢复不到原状。
cleanup() {
    rc=$?
    if [ -n "$PROXY_PID" ] && kill -0 "$PROXY_PID" 2>/dev/null; then
        kill "$PROXY_PID" 2>/dev/null || true
    fi
    rm -f "$PID_FILE"
    exit "$rc"
}
trap cleanup EXIT

# ---- fix A: inline sudo-level orphan cleanup (already-elevated shell) ----
# **fix (issue #152 hardening, Step 2)**：避免盲扫 `pgrep -x mhost-dns-proxy`。
# 上一轮的 expected proxy 正在 self-restore（disable 中途发起的
# restore_dns_and_exit 调用 networksetup 还没返回）时，如果 disable→re-enable
# 在 ~1s 内发生，broad pgrep 会 TERM 掉还在跑 networksetup 的 proxy →
# 系统 DNS 卡在 127.0.0.1。所以这里改成 PID-targeted kill：只对 pid_file
# 里记录的 expected PID 做 TERM，且先用 `ps -o comm=` 精确匹配 basename
# 防 PID 重用误杀（与 Rust 端 `cleanup_stale_proxy` 同样的语义）。
# 只有 pid_file 缺失或陈旧（>30s）才退回 broad pgrep 兜底（针对真正的孤儿，
# 不是 expected proxy）。
if [ -f "$PID_FILE" ]; then
    pid=$(awk '{print $1}' "$PID_FILE")
    expected=$(awk '{ $1 = ""; sub(/^ /, ""); print }' "$PID_FILE")
    expected_bn=$(basename "$expected" 2>/dev/null || echo "$expected")
    if [ -n "$pid" ] && [ -n "$expected_bn" ]; then
        current=$(ps -p "$pid" -o comm= 2>/dev/null | xargs -I{} basename {} 2>/dev/null || echo "")
        if [ "$current" = "$expected_bn" ]; then
            kill -TERM "$pid" 2>/dev/null || true
        fi
    fi
fi
sleep 1
# Broad sweep 只在 pid_file 缺失或陈旧（>30s）时才跑 —— 保护 expected proxy
# 不被「快速 re-enable」误杀，但真正的孤儿（pid_file 已经被自己的 cleanup
# 清掉、或者 30s 前就死掉的）会被清理。
pid_file_age=999
if [ -f "$PID_FILE" ]; then
    pid_file_mtime=$(stat -f %m "$PID_FILE" 2>/dev/null || echo "0")
    now=$(date +%s)
    pid_file_age=$((now - pid_file_mtime))
fi
if [ "$pid_file_age" -gt 30 ]; then
    for pid in $(pgrep -x mhost-dns-proxy); do
        kill -KILL "$pid" 2>/dev/null || true
    done
fi

# Layer 1：显式可执行校验（提权后是另一 uid 上下文，再防一层）
if [ ! -x "$PROXY" ]; then
    echo "mhost-dns-proxy not executable at $PROXY" >&2
    exit 127
fi

# 后台启动 proxy，stdout/stderr 重定向到 log 文件
"$PROXY" --listen 53 --target "#;

/// The part of the enabling script after the proxy is started: the settings are changed
/// only if it still runs after a second.
pub const ENABLE_SCRIPT_FINISH: &'static str = r#" >"$LOG_FILE" 2>&1 &
PROXY_PID=$!
echo "$PROXY_PID $PROXY" > "$PID_FILE"
disown

# Layer 2：等 1 秒确认 proxy 还活着。`set -e + &` 不监测 async list
# 退出码，必须靠 `kill -0` 探测。proxy 启动失败 / bind 53 失败 /
# 早期 panic 都会被这里捕获。
sleep 1
if ! kill -0 "$PROXY_PID" 2>/dev/null; then
    echo "mhost-dns-proxy (pid $PROXY_PID) exited within 1s of launch; log:" >&2
    cat "$LOG_FILE" >&2 || true
    exit 1
fi

# 仅在 proxy 真 alive + 可执行 + bind 后才把系统 DNS 切到 127.0.0.1
networksetup -setdnsservers "$IFACE" 127.0.0.1

# 成功：解除 trap，proxy + PID 文件保留供 disable 路径使用
trap - EXIT
"#;

/// The script that enables the DNS mode. Every text goes in as one quoted word.
pub open spec fn enable_script(i: EnableScriptInputs) -> Seq<char> {
    "#!/bin/sh\nset -e\n\nPROXY="@ + quoted(i.proxy_path@) + "\nPID_FILE="@ + quoted(i.pid_file@)
        + "\nLOG_FILE="@ + quoted(i.log_path@) + "\nIFACE="@ + quoted(i.interface@) + "\n"@
        + ENABLE_SCRIPT_PREPARE@ + crate::text::decimal(i.dns_port as nat) + ENABLE_SCRIPT_FINISH@
}

/// The script that enables the DNS mode.
pub fn build_enable_script(inputs: &EnableScriptInputs) -> (r: String)
    ensures
        r@ == enable_script(*inputs),
{
    let mut out: String = "#!/bin/sh\nset -e\n\nPROXY=".to_owned();
    out.append(shell_single_quote(inputs.proxy_path.as_str()).as_str());
    out.append("\nPID_FILE=");
    out.append(shell_single_quote(inputs.pid_file.as_str()).as_str());
    out.append("\nLOG_FILE=");
    out.append(shell_single_quote(inputs.log_path.as_str()).as_str());
    out.append("\nIFACE=");
    out.append(shell_single_quote(inputs.interface.as_str()).as_str());
    out.append("\n");
    out.append(ENABLE_SCRIPT_PREPARE);
    out.append(decimal_text(inputs.dns_port as u64).as_str());
    out.append(ENABLE_SCRIPT_FINISH);
    out
}

/// The part of the restoring script that stops the proxy: only if its process runs the
/// program that is expected, where one is, and never so that the rest fails.
pub open spec fn stop_lines(pid: Option<u32>, program: Option<Seq<char>>) -> Seq<char> {
    match pid {
        None => seq![],
        Some(p) => {
            let n = crate::text::decimal(p as nat);
            match program {
                Some(name) => "EXPECTED="@ + quoted(name) + "\nACTUAL=$(ps -p "@ + quoted(n)
                    + " -o comm= 2>/dev/null | xargs -I{} basename {} 2>/dev/null)\nif [ \"$ACTUAL\" = \"$EXPECTED\" ]; then kill -9 "@
                    + n + " 2>/dev/null; fi\ntrue\n"@,
                None => "echo \"WARNING: skipping #81 comm check for legacy PID file "@ + n
                    + "\" >&2\nkill -9 "@ + n + " 2>/dev/null\ntrue\n"@,
            }
        },
    }
}

/// The script that restores the settings.
pub open spec fn disable_script(i: DisableScriptInputs) -> Seq<char> {
    stop_lines(i.proxy_pid, crate::models::text_of(i.expected_basename))
        + "networksetup -setdnsservers "@ + quoted(i.interface@) + " "@ + quoted(i.target@)
}

/// The script that stops the proxy, where there is one, and restores the settings.
pub fn build_disable_script(inputs: &DisableScriptInputs) -> (r: String)
    ensures
        r@ == disable_script(*inputs),
{
    let mut out: String = String::new();
    match inputs.proxy_pid {
        Some(pid) => {
            let n = decimal_text(pid as u64);
            match &inputs.expected_basename {
                Some(name) => {
                    out.append("EXPECTED=");
                    out.append(shell_single_quote(name.as_str()).as_str());
                    out.append("\nACTUAL=$(ps -p ");
                    out.append(shell_single_quote(n.as_str()).as_str());
                    out.append(
                        " -o comm= 2>/dev/null | xargs -I{} basename {} 2>/dev/null)\nif [ \"$ACTUAL\" = \"$EXPECTED\" ]; then kill -9 ",
                    );
                    out.append(n.as_str());
                    out.append(" 2>/dev/null; fi\ntrue\n");
                },
                None => {
                    out.append("echo \"WARNING: skipping #81 comm check for legacy PID file ");
                    out.append(n.as_str());
                    out.append("\" >&2\nkill -9 ");
                    out.append(n.as_str());
                    out.append(" 2>/dev/null\ntrue\n");
                },
            }
        },
        None => {},
    }
    assert(out@ =~= stop_lines(
        inputs.proxy_pid,
        crate::models::text_of(inputs.expected_basename),
    ));
    out.append("networksetup -setdnsservers ");
    out.append(shell_single_quote(inputs.interface.as_str()).as_str());
    out.append(" ");
    out.append(shell_single_quote(inputs.target.as_str()).as_str());
    out
}

/// The script that restores the settings that the user had, on an interface.
pub fn restore_script(
    original: &OriginalDns,
    interface: &str,
    proxy_pid: Option<u32>,
    expected_basename: &Option<String>,
) -> (r: String)
    ensures
        r@ == stop_lines(proxy_pid, crate::models::text_of(*expected_basename))
            + "networksetup -setdnsservers "@ + quoted(interface@) + " "@ + quoted(
            crate::text::join(original.restored(), " "@),
        ),
{
    let argv = original.restore_argv();
    let target = join_texts(&argv, " ");
    let name = match expected_basename {
        Some(n) => Some(n.clone()),
        None => None,
    };
    build_disable_script(
        &DisableScriptInputs {
            interface: interface.to_owned(),
            target,
            proxy_pid,
            expected_basename: name,
        },
    )
}

/// The script that makes the system use the servers of its lease again.
pub fn force_restore_script(interface: &str) -> (r: String)
    ensures
        r@ == "networksetup -setdnsservers "@ + quoted(interface@) + " Empty"@,
{
    let mut out: String = "networksetup -setdnsservers ".to_owned();
    out.append(shell_single_quote(interface).as_str());
    out.append(" Empty");
    out
}

} // verus!
