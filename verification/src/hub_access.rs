//! Access to Hugging Face: the tokens a request carries, the download URL of
//! a file, and what is answered about access to a repository.

use vstd::prelude::*;
use vstd::utf8::encode_utf8;
use crate::model::opt_view;
use crate::paths::{lemma_pieces_nonempty, pieces, split_pieces};
use crate::text::{
    chars_of, decimal, decimal_string, push_str, space_trim, starts_with, starts_with_chars,
    string_from, string_of, string_of_range, trim, trim_string, Strip,
};

verus! {

broadcast use vstd::string::group_string_axioms;

// ---------------------------------------------------------------------------
// Download URLs
// ---------------------------------------------------------------------------

/// A byte that percent-encoding keeps: ASCII letters, digits, `-`, `.`,
/// `_` and `~`.
pub open spec fn is_unreserved(b: u8) -> bool {
    (0x30 <= b && b <= 0x39) || (0x41 <= b && b <= 0x5a) || (0x61 <= b && b <= 0x7a) || b == 0x2d
        || b == 0x2e || b == 0x5f || b == 0x7e
}

/// An upper-case hexadecimal digit.
pub open spec fn hex_digit(d: u8) -> char {
    if d < 10 {
        (0x30 + d) as char
    } else {
        (0x41 - 10 + d) as char
    }
}

/// Percent-encoding: every byte but the unreserved ones becomes `%XX`.
pub open spec fn percent_encoded(bytes: Seq<u8>) -> Seq<char>
    decreases bytes.len(),
{
    if bytes.len() == 0 {
        Seq::empty()
    } else {
        let b = bytes[0];
        let head = if is_unreserved(b) {
            seq![b as char]
        } else {
            seq!['%', hex_digit(b / 16), hex_digit(b % 16)]
        };
        head + percent_encoded(bytes.drop_first())
    }
}

/// `urlencoding::encode`: percent-encodes the UTF-8 bytes of `s`, keeping
/// ASCII letters, digits and `-`, `.`, `_`, `~`.
#[verifier::external_body]
fn url_encode(s: &str) -> (r: String)
    ensures
        r@ == percent_encoded(encode_utf8(s@)),
{
    urlencoding::encode(s).into_owned()
}

/// The pieces joined with `/` between them.
pub open spec fn joined_by_slash(ps: Seq<Seq<char>>) -> Seq<char>
    decreases ps.len(),
{
    if ps.len() == 0 {
        Seq::empty()
    } else if ps.len() == 1 {
        ps[0]
    } else {
        joined_by_slash(ps.drop_last()) + seq!['/'] + ps.last()
    }
}

pub open spec fn encoded_pieces(ps: Seq<Seq<char>>) -> Seq<Seq<char>> {
    Seq::new(ps.len(), |i: int| percent_encoded(encode_utf8(ps[i])))
}

/// The download URL of `filename` in `repo`: each part of the file's path is
/// percent-encoded, the `/` between them kept.
pub open spec fn resolve_url(repo: Seq<char>, filename: Seq<char>) -> Seq<char> {
    "https://huggingface.co/"@ + repo + "/resolve/main/"@ + joined_by_slash(
        encoded_pieces(pieces(filename)),
    )
}

pub fn huggingface_resolve_url(repo: &str, filename: &str) -> (r: String)
    ensures
        r@ == resolve_url(repo@, filename@),
{
    let fv = chars_of(filename);
    let ps = split_pieces(fv.as_slice());
    proof {
        lemma_pieces_nonempty(filename@);
    }
    let mut path = String::new();
    let mut i: usize = 0;
    let ghost es = encoded_pieces(pieces(filename@));
    while i < ps.len()
        invariant
            i <= ps@.len(),
            ps.deep_view() == pieces(filename@),
            es == encoded_pieces(pieces(filename@)),
            path@ == joined_by_slash(es.take(i as int)),
        decreases ps@.len() - i,
    {
        let piece = string_of(ps[i].as_slice());
        assert(piece@ == ps.deep_view()[i as int]);
        let enc = url_encode(piece.as_str());
        if i > 0 {
            push_str(&mut path, "/");
            proof {
                reveal_strlit("/");
            }
        }
        push_str(&mut path, enc.as_str());
        proof {
            assert(es.take(i + 1).drop_last() =~= es.take(i as int));
            if i == 0 {
                assert(path@ =~= es.take(1)[0]);
            } else {
                assert(path@ =~= joined_by_slash(es.take(i as int)) + seq!['/'] + es[i as int]);
            }
        }
        i += 1;
    }
    assert(es.take(i as int) =~= es);
    let mut r = string_from("https://huggingface.co/");
    push_str(&mut r, repo);
    push_str(&mut r, "/resolve/main/");
    push_str(&mut r, path.as_str());
    r
}

// ---------------------------------------------------------------------------
// Tokens
// ---------------------------------------------------------------------------

pub open spec fn bearer_upper() -> Seq<char> {
    "Bearer "@
}

pub open spec fn bearer_lower() -> Seq<char> {
    "bearer "@
}

/// A token as it is used: trimmed, unquoted, without a `Bearer ` prefix.
pub open spec fn token_form(raw: Seq<char>) -> Seq<char> {
    let t = space_trim(trim(trim(space_trim(raw), Strip::Char('"')), Strip::Char('\'')));
    let u = if starts_with(t, bearer_upper()) {
        t.skip(7)
    } else if starts_with(t, bearer_lower()) {
        t.skip(7)
    } else {
        t
    };
    space_trim(u)
}

pub open spec fn normalized_token_of(token: Option<Seq<char>>) -> Option<Seq<char>> {
    match token {
        Some(raw) => if token_form(raw).len() > 0 {
            Some(token_form(raw))
        } else {
            None
        },
        None => None,
    }
}

/// The token in a request field or header, if it holds one.
pub fn normalized_token(token: Option<String>) -> (r: Option<String>)
    ensures
        opt_view(r) == normalized_token_of(opt_view(token)),
{
    match token {
        None => None,
        Some(raw) => {
            let a = trim_string(raw.as_str(), &Strip::Space);
            let b = trim_string(a.as_str(), &Strip::Char('"'));
            let c = trim_string(b.as_str(), &Strip::Char('\''));
            let t = trim_string(c.as_str(), &Strip::Space);
            let tv = chars_of(t.as_str());
            let upper = chars_of("Bearer ");
            let lower = chars_of("bearer ");
            proof {
                reveal_strlit("Bearer ");
                reveal_strlit("bearer ");
            }
            let u = if starts_with_chars(tv.as_slice(), upper.as_slice())
                || starts_with_chars(tv.as_slice(), lower.as_slice()) {
                assert(tv@.subrange(7, tv@.len() as int) =~= tv@.skip(7));
                string_of_range(tv.as_slice(), 7, tv.len())
            } else {
                t
            };
            let token = trim_string(u.as_str(), &Strip::Space);
            if token.as_str().is_empty() {
                None
            } else {
                Some(token)
            }
        },
    }
}

/// The token from the environment: `HF_TOKEN` when it is set, else
/// `HUGGINGFACE_TOKEN`; either only when it holds a token.
pub fn env_huggingface_token(hf_token: Option<String>, huggingface_token: Option<String>) -> (r:
    Option<String>)
    ensures
        opt_view(r) == normalized_token_of(
            if hf_token is Some {
                opt_view(hf_token)
            } else {
                opt_view(huggingface_token)
            },
        ),
{
    match hf_token {
        Some(t) => normalized_token(Some(t)),
        None => normalized_token(huggingface_token),
    }
}

/// The token of a download or access check: the one in the request, else,
/// when the request allows it, the environment's.
pub fn request_huggingface_token(
    token: Option<String>,
    use_env_token: bool,
    env_token: Option<String>,
) -> (r: Option<String>)
    ensures
        normalized_token_of(opt_view(token)) is Some ==> opt_view(r) == normalized_token_of(
            opt_view(token),
        ),
        normalized_token_of(opt_view(token)) is None ==> opt_view(r) == (if use_env_token {
            opt_view(env_token)
        } else {
            None
        }),
{
    match normalized_token(token) {
        Some(t) => Some(t),
        None => if use_env_token {
            env_token
        } else {
            None
        },
    }
}

/// The token of a search: the `x-huggingface-token` header's, else the
/// environment's.
pub fn huggingface_token_from_headers(header: Option<String>, env_token: Option<String>) -> (r:
    Option<String>)
    ensures
        normalized_token_of(opt_view(header)) is Some ==> opt_view(r) == normalized_token_of(
            opt_view(header),
        ),
        normalized_token_of(opt_view(header)) is None ==> opt_view(r) == opt_view(env_token),
{
    match normalized_token(header) {
        Some(t) => Some(t),
        None => env_token,
    }
}

pub open spec fn bearer_of(token: Option<&str>) -> Option<Seq<char>> {
    match token {
        Some(t) => if space_trim(t@).len() > 0 {
            Some(space_trim(t@))
        } else {
            None
        },
        None => None,
    }
}

/// The bearer token a request is sent with: the trimmed token, when it is not
/// blank.
pub fn bearer_token(token: Option<&str>) -> (r: Option<String>)
    ensures
        opt_view(r) == bearer_of(token),
{
    match token {
        Some(t) => {
            let s = trim_string(t, &Strip::Space);
            if s.as_str().is_empty() {
                None
            } else {
                Some(s)
            }
        },
        None => None,
    }
}

pub fn default_use_env_token() -> (r: bool)
    ensures
        r,
{
    true
}

// ---------------------------------------------------------------------------
// Access messages
// ---------------------------------------------------------------------------

/// The reason phrase `http::StatusCode` gives a status code
/// (`canonical_reason`, or `<unknown status code>`).
pub uninterp spec fn status_reason(code: u16) -> Seq<char>;

/// An HTTP status as `http::StatusCode`'s `Display` writes it: the code, a
/// space, and its reason phrase.
pub open spec fn status_text(code: u16) -> Seq<char> {
    decimal(code as nat) + seq![' '] + status_reason(code)
}

/// `http::StatusCode::from_u16` and its `Display`: the code's digits, a
/// space and the reason phrase of the status table.
#[verifier::external_body]
fn status_display(code: u16) -> (r: String)
    requires
        100 <= code <= 999,
    ensures
        r@ == decimal(code as nat) + seq![' '] + status_reason(code),
{
    match reqwest::StatusCode::from_u16(code) {
        Ok(status) => status.to_string(),
        Err(_) => String::new(),
    }
}

/// What is said when Hugging Face refuses access to `repo` with `status`,
/// given the status's text.
pub open spec fn access_message(status: u16, text: Seq<char>, repo: Seq<char>) -> Seq<char> {
    if status == 401 {
        "Hugging Face rejected access to "@ + repo
            + ". Add a valid Hugging Face token with read access and try again."@
    } else if status == 403 {
        "Hugging Face blocked access to "@ + repo
            + ". Open the repository on Hugging Face, accept its license or access terms, then retry with a token that has read access."@
    } else {
        "Hugging Face returned "@ + text + " for "@ + repo
            + ". Check repository access and try again."@
    }
}

/// The access message for `status`, whose text `status_text` is given.
pub fn access_message_with_text(status: u16, status_text: &str, repo: &str) -> (m: String)
    ensures
        m@ == access_message(status, status_text@, repo@),
{
    if status == 401 {
        let mut m = string_from("Hugging Face rejected access to ");
        push_str(&mut m, repo);
        push_str(&mut m, ". Add a valid Hugging Face token with read access and try again.");
        m
    } else if status == 403 {
        let mut m = string_from("Hugging Face blocked access to ");
        push_str(&mut m, repo);
        push_str(
            &mut m,
            ". Open the repository on Hugging Face, accept its license or access terms, then retry with a token that has read access.",
        );
        m
    } else {
        let mut m = string_from("Hugging Face returned ");
        push_str(&mut m, status_text);
        push_str(&mut m, " for ");
        push_str(&mut m, repo);
        push_str(&mut m, ". Check repository access and try again.");
        m
    }
}

/// What is said when Hugging Face answers a request for `repo` with the HTTP
/// status `status`.
pub fn huggingface_access_message(status: u16, repo: &str) -> (m: String)
    requires
        100 <= status <= 999,
    ensures
        m@ == access_message(status, status_text(status), repo@),
{
    if status == 401 || status == 403 {
        access_message_with_text(status, "", repo)
    } else {
        let text = status_display(status);
        access_message_with_text(status, text.as_str(), repo)
    }
}

/// The answer about anonymous access to a file.
pub struct AnonymousAccess {
    pub status: &'static str,
    pub message: &'static str,
}

/// The answer for the status of an anonymous request (`None`: the request
/// failed).
pub open spec fn anonymous_access_for(status: Option<u16>) -> (Seq<char>, Seq<char>) {
    match status {
        Some(code) => if 200 <= code <= 299 {
            ("public"@, "Anonymous download available."@)
        } else if code == 401 {
            (
                "authentication_required"@,
                "Authentication required. Sign in to Hugging Face and check repository access."@,
            )
        } else if code == 403 {
            (
                "restricted"@,
                "Access restricted. Check the repository license and access requirements on Hugging Face."@,
            )
        } else if code == 404 {
            ("not_found"@, "File not found or repository is private."@)
        } else {
            ("unknown"@, "Could not determine access. Try again later."@)
        },
        None => ("unknown"@, "Access check failed. Check your connection and try again."@),
    }
}

pub fn anonymous_access(status: Option<u16>) -> (r: AnonymousAccess)
    ensures
        (r.status@, r.message@) == anonymous_access_for(status),
{
    match status {
        Some(code) => if 200 <= code && code <= 299 {
            AnonymousAccess { status: "public", message: "Anonymous download available." }
        } else if code == 401 {
            AnonymousAccess {
                status: "authentication_required",
                message: "Authentication required. Sign in to Hugging Face and check repository access.",
            }
        } else if code == 403 {
            AnonymousAccess {
                status: "restricted",
                message: "Access restricted. Check the repository license and access requirements on Hugging Face.",
            }
        } else if code == 404 {
            AnonymousAccess {
                status: "not_found",
                message: "File not found or repository is private.",
            }
        } else {
            AnonymousAccess {
                status: "unknown",
                message: "Could not determine access. Try again later.",
            }
        },
        None => AnonymousAccess {
            status: "unknown",
            message: "Access check failed. Check your connection and try again.",
        },
    }
}

// ---------------------------------------------------------------------------
// Token checks
// ---------------------------------------------------------------------------

/// The fields of Hugging Face's `whoami` answer that are read: `name`,
/// `fullname` (outer `None`: the key is absent; inner `None`: it is not
/// text), `fullName`, and `type`.
pub struct WhoamiFields {
    pub name: Option<String>,
    pub fullname: Option<Option<String>>,
    pub full_name: Option<String>,
    pub account_type: Option<String>,
}

/// The content of a `WhoamiSummary`.
pub struct WhoamiSummaryView {
    pub name: Option<Seq<char>>,
    pub display_name: Option<Seq<char>>,
    pub account_type: Option<Seq<char>>,
}

/// What is passed on of the account a token belongs to: nothing secret.
pub struct WhoamiSummary {
    pub name: Option<String>,
    pub display_name: Option<String>,
    pub account_type: Option<String>,
}

impl View for WhoamiSummary {
    type V = WhoamiSummaryView;

    open spec fn view(&self) -> WhoamiSummaryView {
        WhoamiSummaryView {
            name: opt_view(self.name),
            display_name: opt_view(self.display_name),
            account_type: opt_view(self.account_type),
        }
    }
}

pub open spec fn summary_of(w: WhoamiFields) -> WhoamiSummaryView {
    WhoamiSummaryView {
        name: opt_view(w.name),
        display_name: match w.fullname {
            Some(f) => opt_view(f),
            None => opt_view(w.full_name),
        },
        account_type: opt_view(w.account_type),
    }
}

pub open spec fn opt_summary(w: Option<WhoamiSummary>) -> Option<WhoamiSummaryView> {
    match w {
        Some(x) => Some(x@),
        None => None,
    }
}

/// The account's name, display name and type, and nothing else.
pub fn sanitize_huggingface_whoami(whoami: Option<WhoamiFields>) -> (r: Option<WhoamiSummary>)
    ensures
        whoami matches Some(w) ==> opt_summary(r) == Some(summary_of(w)),
        whoami is None ==> r is None,
{
    match whoami {
        None => None,
        Some(w) => {
            let display_name = match w.fullname {
                Some(f) => f,
                None => w.full_name,
            };
            Some(WhoamiSummary { name: w.name, display_name, account_type: w.account_type })
        },
    }
}

/// The answer to a token check.
pub struct AuthCheckReport {
    pub ok: bool,
    pub authenticated: bool,
    pub token_valid: bool,
    pub repository_checked: bool,
    pub repository_access: Option<bool>,
    pub repo: Option<String>,
    pub filename: Option<String>,
    pub user: Option<WhoamiSummary>,
    pub message: String,
}

/// How Hugging Face answered the `whoami` request.
pub enum WhoamiOutcome {
    /// A success status, with the answer's fields when it could be read.
    Accepted(Option<WhoamiFields>),
    /// Another status.
    Rejected(u16),
    /// The request failed; the error's text.
    Failed(String),
}

/// How Hugging Face answered the request for the file.
pub enum FileAccessOutcome {
    /// A success status.
    Allowed,
    /// Another status.
    Refused(u16),
    /// The request failed; the error's text.
    Failed(String),
}

/// What comes after the `whoami` answer.
pub enum AuthCheckStep {
    /// The check is over.
    Report(AuthCheckReport),
    /// The token is valid; its access to a file is checked next.
    CheckFile { repo: String, filename: String, user: Option<WhoamiSummary> },
}

/// The report when there is no token to check.
pub fn auth_check_missing_token() -> (r: AuthCheckReport)
    ensures
        !r.ok && !r.authenticated && !r.token_valid && !r.repository_checked,
        r.repository_access is None && r.repo is None && r.filename is None && r.user is None,
        r.message@ == "No Hugging Face token was provided."@,
{
    AuthCheckReport {
        ok: false,
        authenticated: false,
        token_valid: false,
        repository_checked: false,
        repository_access: None,
        repo: None,
        filename: None,
        user: None,
        message: string_from("No Hugging Face token was provided."),
    }
}

fn failed_report(message: String) -> (r: AuthCheckReport)
    ensures
        !r.ok && !r.authenticated && !r.token_valid && !r.repository_checked,
        r.repository_access is None && r.repo is None && r.filename is None && r.user is None,
        r.message == message,
{
    AuthCheckReport {
        ok: false,
        authenticated: false,
        token_valid: false,
        repository_checked: false,
        repository_access: None,
        repo: None,
        filename: None,
        user: None,
        message,
    }
}

/// The next step after the `whoami` answer: a rejected or failed request
/// ends the check; an accepted one checks the file when both `repo` and
/// `filename` are given, and otherwise reports a valid token.
pub fn auth_check_after_whoami(
    outcome: WhoamiOutcome,
    repo: Option<String>,
    filename: Option<String>,
) -> (r: AuthCheckStep)
    requires
        outcome matches WhoamiOutcome::Rejected(c) ==> 100 <= c <= 999,
    ensures
        outcome matches WhoamiOutcome::Rejected(c) ==> r matches AuthCheckStep::Report(rep) && !rep.ok
            && !rep.authenticated && !rep.token_valid && !rep.repository_checked
            && rep.repository_access is None && rep.repo is None && rep.filename is None
            && rep.user is None && rep.message@ == "Token rejected by Hugging Face: "@
            + status_text(c),
        outcome matches WhoamiOutcome::Failed(e) ==> r matches AuthCheckStep::Report(rep) && !rep.ok
            && !rep.authenticated && !rep.token_valid && !rep.repository_checked
            && rep.repository_access is None && rep.repo is None && rep.filename is None
            && rep.user is None && rep.message == e,
        outcome matches WhoamiOutcome::Accepted(w) ==> (if repo is Some && filename is Some {
            r matches AuthCheckStep::CheckFile { repo: rr, filename: ff, user: u } && rr@ == repo->0@
                && ff@ == filename->0@ && opt_summary(u) == (match w {
                Some(f) => Some(summary_of(f)),
                None => None,
            })
        } else {
            r matches AuthCheckStep::Report(rep) && rep.ok && rep.authenticated && rep.token_valid
                && !rep.repository_checked && rep.repository_access is None && rep.repo is None
                && rep.filename is None && opt_summary(rep.user) == (match w {
                Some(f) => Some(summary_of(f)),
                None => None,
            }) && rep.message@ == "Token is valid."@
        }),
{
    match outcome {
        WhoamiOutcome::Rejected(code) => {
            let mut m = string_from("Token rejected by Hugging Face: ");
            let text = status_display(code);
            push_str(&mut m, text.as_str());
            AuthCheckStep::Report(failed_report(m))
        },
        WhoamiOutcome::Failed(e) => AuthCheckStep::Report(failed_report(e)),
        WhoamiOutcome::Accepted(w) => {
            let user = sanitize_huggingface_whoami(w);
            match (repo, filename) {
                (Some(repo), Some(filename)) => AuthCheckStep::CheckFile { repo, filename, user },
                _ => AuthCheckStep::Report(
                    AuthCheckReport {
                        ok: true,
                        authenticated: true,
                        token_valid: true,
                        repository_checked: false,
                        repository_access: None,
                        repo: None,
                        filename: None,
                        user,
                        message: string_from("Token is valid."),
                    },
                ),
            }
        },
    }
}

/// The report once the token's access to `filename` in `repo` is known.
pub fn auth_check_after_file(
    repo: String,
    filename: String,
    user: Option<WhoamiSummary>,
    outcome: FileAccessOutcome,
) -> (r: AuthCheckReport)
    requires
        outcome matches FileAccessOutcome::Refused(c) ==> 100 <= c <= 999,
    ensures
        r.authenticated && r.token_valid && r.repository_checked,
        r.ok == (outcome is Allowed),
        r.repository_access == Some(outcome is Allowed),
        opt_view(r.repo) == Some(repo@) && opt_view(r.filename) == Some(filename@),
        opt_summary(r.user) == opt_summary(user),
        outcome is Allowed ==> r.message@ == "Token can access this file."@,
        outcome matches FileAccessOutcome::Refused(c) ==> r.message@ == access_message(
            c,
            status_text(c),
            repo@,
        ),
        outcome matches FileAccessOutcome::Failed(e) ==> r.message == e,
{
    let (ok, message) = match outcome {
        FileAccessOutcome::Allowed => (true, string_from("Token can access this file.")),
        FileAccessOutcome::Refused(code) => (false, huggingface_access_message(code, repo.as_str())),
        FileAccessOutcome::Failed(e) => (false, e),
    };
    AuthCheckReport {
        ok,
        authenticated: true,
        token_valid: true,
        repository_checked: true,
        repository_access: Some(ok),
        repo: Some(repo),
        filename: Some(filename),
        user,
        message,
    }
}

} // verus!
