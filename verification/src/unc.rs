//! UNC network paths (`\\server\share\...`): recognising them, extracting
//! the share root, and the connection errors reported for them.
use vstd::prelude::*;
use crate::text::{chars_of, decimal, decimal_string, push_chars, push_str, trim, trim_spec};

verus! {

/// The path starts with `\\` or `//`.
pub open spec fn unc_spec(s: Seq<char>) -> bool {
    s.len() >= 2 && ((s[0] == '\\' && s[1] == '\\') || (s[0] == '/' && s[1] == '/'))
}

/// A path separator of either kind.
pub open spec fn is_sep(c: char) -> bool {
    c == '\\' || c == '/'
}

/// Number of leading characters before the first separator.
pub open spec fn field_len(s: Seq<char>) -> nat
    decreases s.len(),
{
    if s.len() == 0 || is_sep(s[0]) {
        0
    } else {
        1 + field_len(s.drop_first())
    }
}

/// `\\server\share` of a UNC path: the first two separator-delimited
/// components after the leading pair, both non-empty; `None` otherwise.
pub open spec fn share_root_spec(s: Seq<char>) -> Option<Seq<char>> {
    if !unc_spec(s) {
        None
    } else {
        let a = s.skip(2);
        let n1 = field_len(a);
        if n1 >= a.len() {
            None
        } else {
            let server = a.take(n1 as int);
            let rest = a.skip(n1 + 1int);
            let share = rest.take(field_len(rest) as int);
            if server.len() == 0 || share.len() == 0 {
                None
            } else {
                Some(seq!['\\', '\\'] + server + seq!['\\'] + share)
            }
        }
    }
}

/// Whether `path` is a UNC path (`\\server\...` or `//server/...`).
pub fn is_unc_path(path: &str) -> (r: bool)
    ensures
        r == unc_spec(path@),
{
    let v = chars_of(path);
    v.len() >= 2 && ((v[0] == '\\' && v[1] == '\\') || (v[0] == '/' && v[1] == '/'))
}

proof fn lemma_field_len(s: Seq<char>)
    ensures
        field_len(s) <= s.len(),
        forall|k: int| 0 <= k < field_len(s) ==> !is_sep(#[trigger] s[k]),
        field_len(s) < s.len() ==> is_sep(s[field_len(s) as int]),
    decreases s.len(),
{
    if s.len() > 0 && !is_sep(s[0]) {
        lemma_field_len(s.drop_first());
        assert forall|k: int| 0 <= k < field_len(s) implies !is_sep(#[trigger] s[k]) by {
            if k > 0 {
                assert(s[k] == s.drop_first()[k - 1]);
            }
        }
    }
}

proof fn lemma_field_len_is(s: Seq<char>, n: nat)
    requires
        n <= s.len(),
        forall|k: int| 0 <= k < n ==> !is_sep(#[trigger] s[k]),
        n < s.len() ==> is_sep(s[n as int]),
    ensures
        field_len(s) == n,
    decreases s.len(),
{
    if n > 0 {
        assert(!is_sep(s[0]));
        assert forall|k: int| 0 <= k < n - 1 implies !is_sep(#[trigger] s.drop_first()[k]) by {
            assert(s.drop_first()[k] == s[k + 1]);
        }
        lemma_field_len_is(s.drop_first(), (n - 1) as nat);
    }
}

/// Index of the first separator at or after `from` (or `v.len()`).
fn next_sep(v: &Vec<char>, from: usize) -> (r: usize)
    requires
        from <= v.len(),
    ensures
        from <= r <= v.len(),
        r - from == field_len(v@.skip(from as int)),
{
    let mut i: usize = from;
    while i < v.len() && !(v[i] == '\\' || v[i] == '/')
        invariant
            from <= i <= v.len(),
            forall|k: int| from <= k < i ==> !is_sep(#[trigger] v@[k]),
        decreases v.len() - i,
    {
        i += 1;
    }
    proof {
        let t = v@.skip(from as int);
        assert forall|k: int| 0 <= k < (i - from) as nat implies !is_sep(#[trigger] t[k]) by {
            assert(t[k] == v@[from + k]);
        }
        if i < v.len() {
            assert(t[i - from] == v@[i as int]);
        }
        lemma_field_len_is(t, (i - from) as nat);
    }
    i
}

/// The share root `\\server\share` of a UNC path; `None` for a path that is
/// not UNC or lacks a server or share component.
pub fn unc_share_root(path: &str) -> (r: Option<String>)
    ensures
        match r {
            Some(s) => share_root_spec(path@) == Some(s@),
            None => share_root_spec(path@) is None,
        },
{
    let v = chars_of(path);
    if !(v.len() >= 2 && ((v[0] == '\\' && v[1] == '\\') || (v[0] == '/' && v[1] == '/'))) {
        return None;
    }
    let ghost a = v@.skip(2);
    let e1 = next_sep(&v, 2);
    assert(v@.skip(2) == a);
    if e1 >= v.len() {
        return None;
    }
    let e2 = next_sep(&v, e1 + 1);
    proof {
        assert(a.skip(e1 - 2 + 1) =~= v@.skip(e1 + 1));
        assert(a.take(e1 - 2) =~= v@.subrange(2, e1 as int));
        assert(a.skip(e1 - 1).take(e2 - e1 - 1) =~= v@.subrange(e1 + 1, e2 as int));
    }
    if e1 == 2 || e2 == e1 + 1 {
        return None;
    }
    let mut s = String::new();
    s.push('\\');
    s.push('\\');
    let server = crate::text::slice_vec(&v, 2, e1);
    push_chars(&mut s, &server);
    s.push('\\');
    let share = crate::text::slice_vec(&v, e1 + 1, e2);
    push_chars(&mut s, &share);
    assert(s@ =~= seq!['\\', '\\'] + a.take(e1 - 2) + seq!['\\'] + a.skip(e1 - 1).take(e2 - e1 - 1));
    Some(s)
}

/// Error from connecting to or disconnecting from a network share.
#[derive(Debug, Clone)]
pub enum UncAuthError {
    /// The network API returned an error code.
    ApiError { code: u32, message: String },
    /// Not available on this platform.
    NotSupported,
}

/// Display text of an error: the trimmed message when it is not blank, else
/// the code.
pub open spec fn unc_error_text(e: UncAuthError) -> Seq<char> {
    match e {
        UncAuthError::ApiError { code, message } => if trim_spec(message@).len() > 0 {
            trim_spec(message@)
        } else {
            "Network error (code "@ + decimal(code as nat) + ")"@
        },
        UncAuthError::NotSupported => "Network credential authentication is only supported on Windows"@,
    }
}

impl UncAuthError {
    /// The text shown to the user.
    pub fn to_text(&self) -> (r: String)
        ensures
            r@ == unc_error_text(*self),
    {
        match self {
            UncAuthError::ApiError { code, message } => {
                let t = trim(message.as_str());
                if !t.as_str().is_empty() {
                    t
                } else {
                    let mut s = String::new();
                    push_str(&mut s, "Network error (code ");
                    let d = decimal_string(*code as u64);
                    push_str(&mut s, d.as_str());
                    push_str(&mut s, ")");
                    proof {
                        reveal_strlit("Network error (code ");
                        reveal_strlit(")");
                    }
                    assert(s@ =~= unc_error_text(*self));
                    s
                }
            },
            UncAuthError::NotSupported => "Network credential authentication is only supported on Windows".to_owned(),
        }
    }
}

/// The message for a network API error code that has a fixed text.
pub open spec fn known_win32_message(code: u32) -> Option<Seq<char>> {
    if code == 0 {
        Some("Success"@)
    } else if code == 5 {
        Some("Access denied. Check that the username and password are correct."@)
    } else if code == 53 {
        Some("Network path not found. Verify the server name and share."@)
    } else if code == 86 {
        Some("Invalid password."@)
    } else if code == 1219 {
        Some("A connection already exists under different credentials. Try disconnecting first."@)
    } else if code == 1326 {
        Some("Logon failure: incorrect username or password."@)
    } else if code == 1327 {
        Some("Account restriction prevents logon."@)
    } else if code == 1330 {
        Some("Password has expired; please change it and try again."@)
    } else {
        None
    }
}

/// The text for a network API error code: the fixed text of a well-known
/// code, else the system's description of it (`system_text`, trimmed), else
/// `Error code N` when the system has none.
pub open spec fn win32_message_spec(code: u32, system_text: Option<Seq<char>>) -> Seq<char> {
    match known_win32_message(code) {
        Some(m) => m,
        None => match system_text {
            Some(t) => trim_spec(t),
            None => "Error code "@ + decimal(code as nat),
        },
    }
}

/// The text for a network API error code (see `win32_message_spec`); the
/// system's description is looked up by the caller only for other codes.
pub fn win32_error_message(code: u32, system_text: Option<&str>) -> (r: String)
    ensures
        r@ == win32_message_spec(code, match system_text {
            Some(t) => Some(t@),
            None => None,
        }),
{
    proof {
        reveal_strlit("Success");
        reveal_strlit("Access denied. Check that the username and password are correct.");
        reveal_strlit("Network path not found. Verify the server name and share.");
        reveal_strlit("Invalid password.");
        reveal_strlit("A connection already exists under different credentials. Try disconnecting first.");
        reveal_strlit("Logon failure: incorrect username or password.");
        reveal_strlit("Account restriction prevents logon.");
        reveal_strlit("Password has expired; please change it and try again.");
        reveal_strlit("Error code ");
    }
    if code == 0 {
        "Success".to_owned()
    } else if code == 5 {
        "Access denied. Check that the username and password are correct.".to_owned()
    } else if code == 53 {
        "Network path not found. Verify the server name and share.".to_owned()
    } else if code == 86 {
        "Invalid password.".to_owned()
    } else if code == 1219 {
        "A connection already exists under different credentials. Try disconnecting first.".to_owned()
    } else if code == 1326 {
        "Logon failure: incorrect username or password.".to_owned()
    } else if code == 1327 {
        "Account restriction prevents logon.".to_owned()
    } else if code == 1330 {
        "Password has expired; please change it and try again.".to_owned()
    } else {
        match system_text {
            Some(t) => trim(t),
            None => {
                let mut m = String::new();
                push_str(&mut m, "Error code ");
                let d = decimal_string(code as u64);
                push_str(&mut m, d.as_str());
                m
            },
        }
    }
}

/// Whether the code has a fixed text, so the system's description of it is
/// not needed.
pub fn has_fixed_message(code: u32) -> (r: bool)
    ensures
        r == known_win32_message(code) is Some,
{
    code == 0 || code == 5 || code == 53 || code == 86 || code == 1219 || code == 1326 || code == 1327 || code == 1330
}

/// What a connection attempt's return code means: zero is success; any
/// other code is an `ApiError` carrying it and its text (see
/// `win32_error_message`).
pub fn connect_result(rc: u32, system_text: Option<&str>) -> (r: Result<(), UncAuthError>)
    ensures
        rc == 0 ==> r is Ok,
        rc != 0 ==> (r matches Err(UncAuthError::ApiError { code, message }) && code == rc
            && message@ == win32_message_spec(rc, match system_text {
                Some(t) => Some(t@),
                None => None,
            })),
{
    if rc == 0 {
        Ok(())
    } else {
        Err(UncAuthError::ApiError { code: rc, message: win32_error_message(rc, system_text) })
    }
}

/// Connect to a network share with credentials where the platform has no
/// Windows network API: the answer is always `NotSupported`.  (Where it has
/// one, the caller makes the call and reads its code with `connect_result`.)
pub fn connect_unc(share: &str, username: &str, password: &str) -> (r: Result<(), UncAuthError>)
    ensures
        r == Err::<(), UncAuthError>(UncAuthError::NotSupported),
{
    Err(UncAuthError::NotSupported)
}

/// Disconnect from a network share where the platform has no Windows
/// network API: there is nothing to disconnect.
pub fn disconnect_unc(share: &str) {
}

} // verus!
