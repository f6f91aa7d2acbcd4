//! What differs between operating systems: where the hosts file is, and how a file
//! is moved there with the rights of an administrator.
use vstd::prelude::*;
use vstd::string::*;

use crate::error::{ApplyError, MhostError};
use crate::text::{char_is_alnum, to_chars};

verus! {

broadcast use vstd::string::group_string_axioms;

/// macOS: files are moved by an AppleScript that asks for the password.
#[derive(Debug, Clone, Copy, PartialEq, Eq, Structural)]
pub struct MacOsAdapter;

/// Windows: only the place of the hosts file is known.
#[derive(Debug, Clone, Copy, PartialEq, Eq, Structural)]
pub struct WindowsAdapter;

impl MacOsAdapter {
    /// The path of the hosts file.
    pub fn hosts_file(&self) -> (r: String)
        ensures
            r@ == "/etc/hosts"@,
    {
        "/etc/hosts".to_owned()
    }

    /// The name of the platform.
    pub fn name(&self) -> (r: String)
        ensures
            r@ == "macos"@,
    {
        "macos".to_owned()
    }
}

impl WindowsAdapter {
    /// The path of the hosts file.
    pub fn hosts_file(&self) -> (r: String)
        ensures
            r@ == "C:\\Windows\\System32\\drivers\\etc\\hosts"@,
    {
        "C:\\Windows\\System32\\drivers\\etc\\hosts".to_owned()
    }

    /// The name of the platform.
    pub fn name(&self) -> (r: String)
        ensures
            r@ == "windows"@,
    {
        "windows".to_owned()
    }
}

/// A character that a path may hold: letters, digits, and `/ . _ - \ "`.
pub open spec fn is_path_char(c: char) -> bool {
    crate::text::is_alnum(c) || c == '/' || c == '.' || c == '_' || c == '-' || c == '\\' || c
        == '"'
}

/// The first character of a text that a path may not hold.
pub open spec fn first_illegal(s: Seq<char>) -> Option<char>
    decreases s.len(),
{
    if s.len() == 0 {
        None
    } else if is_path_char(s[0]) {
        first_illegal(s.skip(1))
    } else {
        Some(s[0])
    }
}

/// The message about a character that a path may not hold.
pub open spec fn illegal_message(c: char) -> Seq<char> {
    "Path contains illegal character: '"@.push(c).push('\'')
}

/// A text with a backslash before each backslash and each double quote.
pub open spec fn escaped(s: Seq<char>) -> Seq<char>
    decreases s.len(),
{
    if s.len() == 0 {
        seq![]
    } else if s.last() == '\\' || s.last() == '"' {
        escaped(s.drop_last()).push('\\').push(s.last())
    } else {
        escaped(s.drop_last()).push(s.last())
    }
}

/// What an escaped text stands for: a backslash makes the character behind it count
/// as itself.
pub open spec fn unescaped(s: Seq<char>) -> Seq<char>
    decreases s.len(),
{
    if s.len() == 0 {
        seq![]
    } else if s[0] == '\\' && s.len() > 1 {
        seq![s[1]] + unescaped(s.skip(2))
    } else {
        seq![s[0]] + unescaped(s.skip(1))
    }
}

/// The script that moves a file.
pub open spec fn move_command(from: Seq<char>, to: Seq<char>) -> Seq<char> {
    "do shell script \"mv "@ + escaped(from) + " "@ + escaped(to)
        + "\" with administrator privileges"@
}

/// Accepts a path that holds letters, digits and `/ . _ - \ "` only. Otherwise the
/// error names the first other character.
pub fn validate_path_characters(path: &str) -> (r: Result<(), MhostError>)
    ensures
        match first_illegal(path@) {
            None => r is Ok,
            Some(c) => r matches Err(MhostError::InvalidInput(m)) && m@ == illegal_message(c),
        },
{
    let v = to_chars(path);
    let mut i: usize = 0;
    assert(v@.skip(0) =~= v@);
    while i < v.len()
        invariant
            i <= v@.len(),
            v@ == path@,
            first_illegal(v@) == first_illegal(v@.skip(i as int)),
        decreases v.len() - i,
    {
        let c = v[i];
        let ghost rest = v@.skip(i as int);
        assert(rest[0] == c);
        assert(rest.skip(1) =~= v@.skip(i + 1));
        if !(char_is_alnum(c) || c == '/' || c == '.' || c == '_' || c == '-' || c == '\\' || c
            == '"') {
            let mut m: String = "Path contains illegal character: '".to_owned();
            m.push(c);
            m.push('\'');
            return Err(MhostError::InvalidInput(m));
        }
        i = i + 1;
    }
    Ok(())
}

/// A text with a backslash before each backslash and each double quote.
pub fn escape_text(s: &str) -> (r: String)
    ensures
        r@ == escaped(s@),
{
    let v = to_chars(s);
    let mut out: String = String::new();
    let mut i: usize = 0;
    while i < v.len()
        invariant
            i <= v@.len(),
            out@ == escaped(v@.take(i as int)),
        decreases v.len() - i,
    {
        assert(v@.take(i + 1).drop_last() =~= v@.take(i as int));
        if v[i] == '\\' || v[i] == '"' {
            out.push('\\');
        }
        out.push(v[i]);
        i = i + 1;
    }
    assert(v@.take(i as int) =~= v@);
    out
}

/// A path as it stands inside an AppleScript string: backslashes and double quotes
/// are escaped. A path with a character that paths may not hold is refused.
pub fn escape_applescript_path(path: &str) -> (r: Result<String, MhostError>)
    ensures
        match first_illegal(path@) {
            None => r matches Ok(t) && t@ == escaped(path@),
            Some(c) => r matches Err(MhostError::InvalidInput(m)) && m@ == illegal_message(c),
        },
{
    match validate_path_characters(path) {
        Ok(()) => Ok(escape_text(path)),
        Err(e) => Err(e),
    }
}

/// The AppleScript that moves `from` to `to` with the rights of an administrator.
/// A path that may not stand in it is refused, `from` first.
pub fn move_script(from: &str, to: &str) -> (r: Result<String, MhostError>)
    ensures
        match (first_illegal(from@), first_illegal(to@)) {
            (Some(c), _) => r matches Err(MhostError::InvalidInput(m)) && m@ == illegal_message(c),
            (None, Some(c)) => r matches Err(MhostError::InvalidInput(m)) && m@
                == illegal_message(c),
            (None, None) => r matches Ok(t) && t@ == move_command(from@, to@),
        },
{
    let a = match escape_applescript_path(from) {
        Ok(t) => t,
        Err(e) => {
            return Err(e);
        },
    };
    let b = match escape_applescript_path(to) {
        Ok(t) => t,
        Err(e) => {
            return Err(e);
        },
    };
    let mut s: String = "do shell script \"mv ".to_owned();
    s.append(a.as_str());
    s.append(" ");
    s.append(b.as_str());
    s.append("\" with administrator privileges");
    Ok(s)
}

/// What a finished move comes to: without success it was not permitted, for the
/// reason that was printed.
pub fn move_outcome(success: bool, stderr: &str) -> (r: Result<(), MhostError>)
    ensures
        if success {
            r is Ok
        } else {
            r matches Err(MhostError::Apply(ApplyError::PermissionDenied(m))) && m@ == stderr@
        },
{
    if success {
        Ok(())
    } else {
        Err(MhostError::Apply(ApplyError::PermissionDenied(stderr.to_owned())))
    }
}

/// Escaping one character more.
proof fn lemma_escaped_first(s: Seq<char>)
    requires
        s.len() > 0,
    ensures
        escaped(s) == (if s[0] == '\\' || s[0] == '"' {
            seq!['\\', s[0]]
        } else {
            seq![s[0]]
        }) + escaped(s.skip(1)),
    decreases s.len(),
{
    if s.len() == 1 {
        assert(s.drop_last() =~= seq![]);
        assert(s.skip(1) =~= seq![]);
        assert(escaped(seq![]) =~= seq![]);
        assert(escaped(s) =~= (if s[0] == '\\' || s[0] == '"' {
            seq!['\\', s[0]]
        } else {
            seq![s[0]]
        }) + escaped(s.skip(1)));
    } else {
        let t = s.drop_last();
        lemma_escaped_first(t);
        assert(t.skip(1) =~= s.skip(1).drop_last());
        assert(t[0] == s[0]);
        assert(s.skip(1).last() == s.last());
        assert(escaped(s) =~= (if s[0] == '\\' || s[0] == '"' {
            seq!['\\', s[0]]
        } else {
            seq![s[0]]
        }) + escaped(s.skip(1)));
    }
}

/// An escaped text stands for the text that was escaped.
pub proof fn escaping_can_be_undone(s: Seq<char>)
    ensures
        unescaped(escaped(s)) == s,
    decreases s.len(),
{
    if s.len() > 0 {
        let rest = s.skip(1);
        lemma_escaped_first(s);
        escaping_can_be_undone(rest);
        let e = escaped(s);
        if s[0] == '\\' || s[0] == '"' {
            assert(e[0] == '\\' && e[1] == s[0]);
            assert(e.skip(2) =~= escaped(rest));
        } else {
            assert(e[0] == s[0]);
            assert(e.skip(1) =~= escaped(rest));
        }
        assert(seq![s[0]] + rest =~= s);
    } else {
        assert(escaped(s) =~= seq![]);
        assert(s =~= seq![]);
    }
}

} // verus!
