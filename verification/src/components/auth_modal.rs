//! The sign-in form: its two modes, what it checks, and the request it
//! sends.

use vstd::prelude::*;
use crate::services::api_client::{LoginRequest, RegisterRequest};
use crate::text::{chars_of, contains, eq_chars, has_match, string_views, utf8_len, utf8_prefix_len};

verus! {

/// Whether the form logs in or registers.
#[derive(Clone, Copy, Debug, PartialEq, Eq, Structural)]
pub enum AuthMode {
    Login,
    Register,
}

impl AuthMode {
    /// The other mode.
    pub fn toggled(&self) -> (r: AuthMode)
        ensures
            r != *self,
    {
        match self {
            AuthMode::Login => AuthMode::Register,
            AuthMode::Register => AuthMode::Login,
        }
    }
}

/// The problem with the e-mail address, if any: missing, or without `@`.
pub open spec fn email_errors(email: Seq<char>) -> Seq<Seq<char>> {
    if email.len() == 0 {
        seq!["请输入邮箱地址"@]
    } else if !has_match(email, seq!['@']) {
        seq!["请输入有效的邮箱地址"@]
    } else {
        seq![]
    }
}

/// The problem with the password, if any: missing, or under 8 bytes.
pub open spec fn password_errors(password: Seq<char>) -> Seq<Seq<char>> {
    if password.len() == 0 {
        seq!["请输入密码"@]
    } else if utf8_len(password) < 8 {
        seq!["密码长度至少为8位"@]
    } else {
        seq![]
    }
}

/// The problem with the user name, if any: missing, or under 3 bytes.
pub open spec fn username_errors(username: Seq<char>) -> Seq<Seq<char>> {
    if username.len() == 0 {
        seq!["请输入用户名"@]
    } else if utf8_len(username) < 3 {
        seq!["用户名长度至少为3位"@]
    } else {
        seq![]
    }
}

/// The problems of the form, in order: the e-mail address, the password,
/// and when registering the user name and the repeated password.
pub open spec fn auth_form_errors(
    mode: AuthMode,
    email: Seq<char>,
    password: Seq<char>,
    username: Seq<char>,
    confirm_password: Seq<char>,
) -> Seq<Seq<char>> {
    email_errors(email) + password_errors(password) + if mode is Register {
        username_errors(username) + if confirm_password != password {
            seq!["两次输入的密码不一致"@]
        } else {
            seq![]
        }
    } else {
        seq![]
    }
}

fn one(m: &str) -> (r: Vec<String>)
    ensures
        string_views(r@) == seq![m@],
{
    let mut v: Vec<String> = Vec::new();
    v.push(m.to_owned());
    assert(string_views(v@) =~= seq![m@]);
    v
}

fn none() -> (r: Vec<String>)
    ensures
        string_views(r@) == Seq::<Seq<char>>::empty(),
{
    let v: Vec<String> = Vec::new();
    assert(string_views(v@) =~= Seq::<Seq<char>>::empty());
    v
}

fn append_all(a: &mut Vec<String>, b: Vec<String>)
    ensures
        string_views(final(a)@) == string_views(old(a)@) + string_views(b@),
{
    let mut b = b;
    let ghost a0 = string_views(a@);
    let ghost b0 = string_views(b@);
    a.append(&mut b);
    assert(string_views(a@) =~= a0 + b0);
}

/// Whether the text is shorter than `n` bytes.
fn shorter_than(s: &[char], n: u128) -> (r: bool)
    ensures
        r == (utf8_len(s@) < n),
{
    assert(s@.take(s@.len() as int) =~= s@);
    utf8_prefix_len(s, s.len()) < n
}

/// The problems of the form (`auth_form_errors`); none where it can be
/// sent.
pub fn validate_auth_form(
    mode: AuthMode,
    email: &str,
    password: &str,
    username: &str,
    confirm_password: &str,
) -> (r: Vec<String>)
    ensures
        string_views(r@) == auth_form_errors(mode, email@, password@, username@, confirm_password@),
{
    proof {
        reveal_strlit("@");
    }
    let e = chars_of(email);
    let p = chars_of(password);
    assert("@"@ =~= seq!['@']);
    let mut errors = if e.len() == 0 {
        one("请输入邮箱地址")
    } else if !contains(&e, &chars_of("@")) {
        one("请输入有效的邮箱地址")
    } else {
        none()
    };
    assert(string_views(errors@) == email_errors(email@));
    let perr = if p.len() == 0 {
        one("请输入密码")
    } else if shorter_than(&p, 8) {
        one("密码长度至少为8位")
    } else {
        none()
    };
    assert(string_views(perr@) == password_errors(password@));
    append_all(&mut errors, perr);
    let ghost ep = email_errors(email@) + password_errors(password@);
    assert(string_views(errors@) == ep);
    if mode == AuthMode::Register {
        let u = chars_of(username);
        let uerr = if u.len() == 0 {
            one("请输入用户名")
        } else if shorter_than(&u, 3) {
            one("用户名长度至少为3位")
        } else {
            none()
        };
        assert(string_views(uerr@) == username_errors(username@));
        append_all(&mut errors, uerr);
        let cerr = if !eq_chars(&chars_of(confirm_password), &p) {
            one("两次输入的密码不一致")
        } else {
            none()
        };
        let ghost c: Seq<Seq<char>> = if confirm_password@ != password@ { seq!["两次输入的密码不一致"@] } else { seq![] };
        assert(string_views(cerr@) == c);
        append_all(&mut errors, cerr);
        assert(string_views(errors@) =~= ep + (username_errors(username@) + c));
    } else {
        append_all(&mut errors, none());
        assert(string_views(errors@) =~= ep + Seq::<Seq<char>>::empty());
    }
    errors
}

/// What the form sends.
#[derive(Debug, Clone)]
pub enum AuthSubmission {
    Login(LoginRequest),
    Register(RegisterRequest),
}

/// What submitting the form does: with no problem, the login or the
/// registration request made of the fields as typed; otherwise the
/// problems (`auth_form_errors`).
pub fn submit_auth_form(
    mode: AuthMode,
    email: &str,
    password: &str,
    username: &str,
    confirm_password: &str,
) -> (r: Result<AuthSubmission, Vec<String>>)
    ensures
        auth_form_errors(mode, email@, password@, username@, confirm_password@).len() == 0 <==> r is Ok,
        r matches Err(es) ==> string_views(es@) == auth_form_errors(mode, email@, password@, username@, confirm_password@),
        r matches Ok(AuthSubmission::Login(q)) ==> mode is Login && q.email@ == email@ && q.password@ == password@,
        r matches Ok(AuthSubmission::Register(q)) ==> mode is Register && q.username@ == username@
            && q.email@ == email@ && q.password@ == password@,
{
    let errors = validate_auth_form(mode, email, password, username, confirm_password);
    if errors.len() > 0 {
        return Err(errors);
    }
    match mode {
        AuthMode::Login => Ok(AuthSubmission::Login(LoginRequest { email: email.to_owned(), password: password.to_owned() })),
        AuthMode::Register => Ok(AuthSubmission::Register(RegisterRequest {
            username: username.to_owned(),
            email: email.to_owned(),
            password: password.to_owned(),
        })),
    }
}

} // verus!
