//! Where downloads come from and where they go, what to do for each, and
//! the steps of an FTP retrieval. The transfer itself (HTTP, FTP, or a
//! copy of a local file) is done by the caller; the hash check is in
//! [`crate::hash`].

use vstd::prelude::*;

use crate::error::{LastError, LastErrorV};
use crate::manifest::{download_file_name, ResolvedDownload};
use crate::path;
use crate::text;

verus! {

/// Where an `ftp://` download is fetched from, and how to log in.
pub struct FtpTarget {
    pub host: String,
    pub port: u16,
    pub user: String,
    pub password: String,
    /// The path to retrieve, starting with `/`.
    pub path: String,
}

/// How a download is fetched.
pub enum Source {
    /// Copy a local or UNC file, its path written with `\`.
    Local(String),
    /// Fetch over HTTP or HTTPS.
    Http,
    /// Fetch over FTP.
    Ftp(FtpTarget),
}

/// The mathematical form of an [`FtpTarget`]: host, port, user,
/// password, path.
pub type FtpTargetV = (Seq<char>, nat, Seq<char>, Seq<char>, Seq<char>);

impl FtpTarget {
    pub open spec fn view_parts(&self) -> FtpTargetV {
        (self.host@, self.port as nat, self.user@, self.password@, self.path@)
    }
}

/// The mathematical form of a [`Source`].
pub enum SourceV {
    Local(Seq<char>),
    Http,
    Ftp(FtpTargetV),
}

impl Source {
    pub open spec fn view_source(&self) -> SourceV {
        match self {
            Source::Local(p) => SourceV::Local(p@),
            Source::Http => SourceV::Http,
            Source::Ftp(t) => SourceV::Ftp(t.view_parts()),
        }
    }
}

/// The user name and password of an `ftp://` URL's `user:password@`
/// part; an anonymous login when there is none.
pub open spec fn ftp_login(authority: Seq<char>) -> (Seq<char>, Seq<char>, Seq<char>) {
    match text::split_once(authority, '@') {
        Some((u, h)) => match text::split_once(u, ':') {
            Some((name, pw)) => (name, pw, h),
            None => (u, Seq::empty(), h),
        },
        None => ("anonymous"@, "anonymous@"@, authority),
    }
}

/// What an `ftp://` URL names: `ftp://[user[:password]@]host[:port][/path]`.
/// The port is 21 when none is given; the path is `/` when none is given.
/// None when the host is empty or the port is not a number from 1 to
/// 65535.
pub open spec fn ftp_target_of(url: Seq<char>) -> Option<FtpTargetV> {
    let rest = url.subrange(6, url.len() as int);
    let (authority, path) = match text::split_once(rest, '/') {
        Some((a, p)) => (a, seq!['/'] + p),
        None => (rest, seq!['/']),
    };
    let (user, password, hostport) = ftp_login(authority);
    let (host, port) = match text::split_once(hostport, ':') {
        Some((h, p)) => (h, text::number_upto(p, 65535)),
        None => (hostport, Some(21nat)),
    };
    match port {
        Some(n) => if host.len() > 0 && n > 0 {
            Some((host, n, user, password, path))
        } else {
            None
        },
        None => None,
    }
}

/// How `url` is fetched: a local path is copied (with `/` written as
/// `\`), `http://` and `https://` are fetched over HTTP, `ftp://` over
/// FTP (refused when the URL has no host or a bad port); every other
/// scheme is refused, naming the URL.
pub open spec fn source_of(url: Seq<char>) -> Result<SourceV, LastErrorV> {
    if path::local(url) {
        Ok(SourceV::Local(text::replace_char(url, '/', seq!['\\'])))
    } else if text::starts_with(url, "http://"@) || text::starts_with(url, "https://"@) {
        Ok(SourceV::Http)
    } else if text::starts_with(url, "ftp://"@) {
        match ftp_target_of(url) {
            Some(t) => Ok(SourceV::Ftp(t)),
            None => Err(LastErrorV::InvalidFtpUrl(url)),
        }
    } else {
        Err(LastErrorV::UnsupportedUrlScheme(url))
    }
}

/// Reads an `ftp://` URL.
pub fn ftp_target(url: &str) -> (r: Option<FtpTarget>)
    requires
        text::starts_with(url@, "ftp://"@),
    ensures
        match r {
            Some(t) => ftp_target_of(url@) == Some(t.view_parts()),
            None => ftp_target_of(url@) is None,
        },
{
    proof {
        reveal_strlit("ftp://");
    }
    let v = text::to_chars(url);
    let rest = text::string_of_range(&v, 6, v.len());
    let (authority, path) = match text::split_once_exec(rest.as_str(), '/') {
        Some((a, p)) => {
            let mut q = String::from_str("/");
            q.append(p.as_str());
            proof {
                reveal_strlit("/");
                assert(q@ =~= seq!['/'] + p@);
            }
            (a, q)
        },
        None => {
            let q = String::from_str("/");
            proof {
                reveal_strlit("/");
                assert(q@ =~= seq!['/']);
            }
            (rest, q)
        },
    };
    let (user, password, hostport) = match text::split_once_exec(authority.as_str(), '@') {
        Some((u, h)) => match text::split_once_exec(u.as_str(), ':') {
            Some((name, pw)) => (name, pw, h),
            None => (u, String::new(), h),
        },
        None => (String::from_str("anonymous"), String::from_str("anonymous@"), authority),
    };
    let (host, port) = match text::split_once_exec(hostport.as_str(), ':') {
        Some((h, p)) => (h, text::parse_number(p.as_str(), 65535)),
        None => (hostport, Some(21u32)),
    };
    match port {
        Some(n) => if host.unicode_len() > 0 && n > 0 {
            Some(FtpTarget { host, port: n as u16, user, password, path })
        } else {
            None
        },
        None => None,
    }
}

/// How the download at `url` is fetched.
pub fn classify_source(url: &str) -> (r: Result<Source, LastError>)
    ensures
        match r {
            Ok(s) => source_of(url@) == Ok::<SourceV, LastErrorV>(s.view_source()),
            Err(e) => source_of(url@) == Err::<SourceV, LastErrorV>(e.deep_view()),
        },
{
    if path::is_local_path(url) {
        let p = text::replace_char_exec(url, '/', "\\");
        proof {
            reveal_strlit("\\");
            assert("\\"@ =~= seq!['\\']);
        }
        Ok(Source::Local(p))
    } else if text::starts_with_exec(url, "http://") || text::starts_with_exec(url, "https://") {
        Ok(Source::Http)
    } else if text::starts_with_exec(url, "ftp://") {
        match ftp_target(url) {
            Some(t) => Ok(Source::Ftp(t)),
            None => Err(LastError::InvalidFtpUrl(String::from_str(url))),
        }
    } else {
        Err(LastError::UnsupportedUrlScheme(String::from_str(url)))
    }
}

/// What to do for a download.
pub enum FetchStep {
    /// The file already in place has the expected hash: use it.
    UseCached,
    /// A dry run: say what would be downloaded, and fetch nothing.
    WouldDownload,
    /// Fetch the file this way, then check its hash.
    Fetch(Source),
}

/// The mathematical form of a [`FetchStep`].
pub enum FetchStepV {
    UseCached,
    WouldDownload,
    Fetch(SourceV),
}

impl FetchStep {
    pub open spec fn view_step(&self) -> FetchStepV {
        match self {
            FetchStep::UseCached => FetchStepV::UseCached,
            FetchStep::WouldDownload => FetchStepV::WouldDownload,
            FetchStep::Fetch(s) => FetchStepV::Fetch(s.view_source()),
        }
    }
}

/// What to do for the download at `url`. Hash verification is mandatory:
/// a download without an expected hash is refused. A file already in
/// place whose hash checks (`cached_ok`) is used as it is; a dry run
/// fetches nothing; otherwise the file is fetched as [`source_of`] says.
pub open spec fn fetch_step_of(url: Seq<char>, has_hash: bool, cached_ok: bool, dry_run: bool) -> Result<
    FetchStepV,
    LastErrorV,
> {
    if !has_hash {
        Err(LastErrorV::MissingHash(url))
    } else if cached_ok {
        Ok(FetchStepV::UseCached)
    } else if dry_run {
        Ok(FetchStepV::WouldDownload)
    } else {
        match source_of(url) {
            Ok(s) => Ok(FetchStepV::Fetch(s)),
            Err(e) => Err(e),
        }
    }
}

/// Decides what to do for the download at `url`.
pub fn fetch_step(url: &str, has_hash: bool, cached_ok: bool, dry_run: bool) -> (r: Result<FetchStep, LastError>)
    ensures
        match r {
            Ok(s) => fetch_step_of(url@, has_hash, cached_ok, dry_run) == Ok::<FetchStepV, LastErrorV>(s.view_step()),
            Err(e) => fetch_step_of(url@, has_hash, cached_ok, dry_run) == Err::<FetchStepV, LastErrorV>(
                e.deep_view(),
            ),
        },
{
    if !has_hash {
        Err(LastError::MissingHash(String::from_str(url)))
    } else if cached_ok {
        Ok(FetchStep::UseCached)
    } else if dry_run {
        Ok(FetchStep::WouldDownload)
    } else {
        match classify_source(url) {
            Ok(s) => Ok(FetchStep::Fetch(s)),
            Err(e) => Err(e),
        }
    }
}

/// The kind of an FTP reply, by the first digit of its code.
#[derive(Clone, Copy, PartialEq, Eq, Structural)]
pub enum FtpReply {
    /// `1xx`: the command was accepted and more replies follow.
    Preliminary,
    /// `2xx`: the command was carried out.
    Completed,
    /// `3xx`: the command was accepted and waits for another.
    Intermediate,
    /// Anything else: the command was refused.
    Refused,
}

/// The kind of the FTP reply `line`.
pub open spec fn reply_kind_of(line: Seq<char>) -> FtpReply {
    if line.len() == 0 {
        FtpReply::Refused
    } else if line[0] == '1' {
        FtpReply::Preliminary
    } else if line[0] == '2' {
        FtpReply::Completed
    } else if line[0] == '3' {
        FtpReply::Intermediate
    } else {
        FtpReply::Refused
    }
}

/// Reads the kind of an FTP reply.
pub fn ftp_reply_kind(line: &str) -> (r: FtpReply)
    ensures
        r == reply_kind_of(line@),
{
    let v = text::to_chars(line);
    if v.len() == 0 {
        FtpReply::Refused
    } else if v[0] == '1' {
        FtpReply::Preliminary
    } else if v[0] == '2' {
        FtpReply::Completed
    } else if v[0] == '3' {
        FtpReply::Intermediate
    } else {
        FtpReply::Refused
    }
}

/// How far an FTP retrieval has come: the reply awaited is the one to
/// the connection (`Connected`) or to the last command sent.
#[derive(Clone, Copy, PartialEq, Eq, Structural)]
pub enum FtpStage {
    Connected,
    User,
    Pass,
    Type,
    Pasv,
    Retr,
    Transfer,
}

/// What to do next in an FTP retrieval.
pub enum FtpAction {
    /// Send this command on the control connection.
    Send(String),
    /// Open the data connection at the address of the last reply, then
    /// send this command.
    OpenDataThenSend(String),
    /// Read the file from the data connection and close it.
    ReadData,
    /// The file has been received.
    Finish,
}

/// The mathematical form of an [`FtpAction`].
pub enum FtpActionV {
    Send(Seq<char>),
    OpenDataThenSend(Seq<char>),
    ReadData,
    Finish,
}

impl FtpAction {
    pub open spec fn view_action(&self) -> FtpActionV {
        match self {
            FtpAction::Send(c) => FtpActionV::Send(c@),
            FtpAction::OpenDataThenSend(c) => FtpActionV::OpenDataThenSend(c@),
            FtpAction::ReadData => FtpActionV::ReadData,
            FtpAction::Finish => FtpActionV::Finish,
        }
    }
}

/// The next stage and action of an FTP retrieval of `t` after a reply of
/// kind `k` in `stage`: log in (`USER`, then `PASS` when the server asks
/// for it), switch to binary (`TYPE I`), ask for passive mode (`PASV`),
/// retrieve the path (`RETR`), read the data, and finish when the server
/// confirms the transfer. None when the server refuses.
pub open spec fn ftp_next(stage: FtpStage, k: FtpReply, t: FtpTargetV) -> Option<(FtpStage, FtpActionV)> {
    match (stage, k) {
        (FtpStage::Connected, FtpReply::Completed) => Some((FtpStage::User, FtpActionV::Send("USER "@ + t.2))),
        (FtpStage::User, FtpReply::Completed) => Some((FtpStage::Type, FtpActionV::Send("TYPE I"@))),
        (FtpStage::User, FtpReply::Intermediate) => Some((FtpStage::Pass, FtpActionV::Send("PASS "@ + t.3))),
        (FtpStage::Pass, FtpReply::Completed) => Some((FtpStage::Type, FtpActionV::Send("TYPE I"@))),
        (FtpStage::Type, FtpReply::Completed) => Some((FtpStage::Pasv, FtpActionV::Send("PASV"@))),
        (FtpStage::Pasv, FtpReply::Completed) => Some((FtpStage::Retr, FtpActionV::OpenDataThenSend("RETR "@ + t.4))),
        (FtpStage::Retr, FtpReply::Preliminary) => Some((FtpStage::Transfer, FtpActionV::ReadData)),
        (FtpStage::Transfer, FtpReply::Completed) => Some((FtpStage::Transfer, FtpActionV::Finish)),
        _ => None,
    }
}

/// The next step of an FTP retrieval of `target`, given the reply `line`
/// in `stage`; refused, naming the reply, when the server refuses.
pub fn ftp_step(stage: FtpStage, line: &str, target: &FtpTarget) -> (r: Result<(FtpStage, FtpAction), LastError>)
    ensures
        match r {
            Ok((st, a)) => ftp_next(stage, reply_kind_of(line@), target.view_parts()) == Some((st, a.view_action())),
            Err(e) => ftp_next(stage, reply_kind_of(line@), target.view_parts()) is None
                && e.deep_view() == LastErrorV::FtpRefused(line@),
        },
{
    let k = ftp_reply_kind(line);
    match (stage, k) {
        (FtpStage::Connected, FtpReply::Completed) => {
            let mut c = String::from_str("USER ");
            c.append(target.user.as_str());
            Ok((FtpStage::User, FtpAction::Send(c)))
        },
        (FtpStage::User, FtpReply::Completed) => Ok((FtpStage::Type, FtpAction::Send(String::from_str("TYPE I")))),
        (FtpStage::User, FtpReply::Intermediate) => {
            let mut c = String::from_str("PASS ");
            c.append(target.password.as_str());
            Ok((FtpStage::Pass, FtpAction::Send(c)))
        },
        (FtpStage::Pass, FtpReply::Completed) => Ok((FtpStage::Type, FtpAction::Send(String::from_str("TYPE I")))),
        (FtpStage::Type, FtpReply::Completed) => Ok((FtpStage::Pasv, FtpAction::Send(String::from_str("PASV")))),
        (FtpStage::Pasv, FtpReply::Completed) => {
            let mut c = String::from_str("RETR ");
            c.append(target.path.as_str());
            Ok((FtpStage::Retr, FtpAction::OpenDataThenSend(c)))
        },
        (FtpStage::Retr, FtpReply::Preliminary) => Ok((FtpStage::Transfer, FtpAction::ReadData)),
        (FtpStage::Transfer, FtpReply::Completed) => Ok((FtpStage::Transfer, FtpAction::Finish)),
        _ => Err(LastError::FtpRefused(String::from_str(line))),
    }
}

/// The data address of a passive-mode reply: the six numbers `h1,h2,h3,
/// h4,p1,p2` between its first `(` and the next `)`, each from 0 to 255,
/// give host `h1.h2.h3.h4` (as written) and port `p1 * 256 + p2`.
pub open spec fn passive_address_of(reply: Seq<char>) -> Option<(Seq<char>, nat)> {
    match text::split_once(reply, '(') {
        Some((_, after)) => match text::split_once(after, ')') {
            Some((inner, _)) => address_of_numbers(text::split(inner, ',')),
            None => None,
        },
        None => None,
    }
}

/// The address written by the six numbers `parts` of a passive-mode
/// reply.
pub open spec fn address_of_numbers(parts: Seq<Seq<char>>) -> Option<(Seq<char>, nat)> {
    if parts.len() == 6 && (forall|i: int| 0 <= i < 6 ==> (#[trigger] text::number_upto(parts[i], 255)) is Some) {
        Some((text::join(parts.take(4), "."@), text::digits_value(parts[4]) * 256 + text::digits_value(parts[5])))
    } else {
        None
    }
}

/// Reads the data address of a passive-mode reply.
pub fn passive_address(reply: &str) -> (r: Option<(String, u16)>)
    ensures
        match r {
            Some((h, p)) => passive_address_of(reply@) == Some((h@, p as nat)),
            None => passive_address_of(reply@) is None,
        },
{
    let open = text::split_once_exec(reply, '(');
    let after = match open {
        Some((_, a)) => a,
        None => {
            return None;
        },
    };
    assert(text::split_once(reply@, '(') matches Some((_, a)) && a == after@);
    let close = text::split_once_exec(after.as_str(), ')');
    let inner = match close {
        Some((i, _)) => i,
        None => {
            return None;
        },
    };
    assert(text::split_once(after@, ')') matches Some((i, _)) && i == inner@);
    let parts = text::split_exec(inner.as_str(), ',');
    if parts.len() != 6 {
        return None;
    }
    let mut nums: Vec<u32> = Vec::new();
    let mut i: usize = 0;
    assert(passive_address_of(reply@) == address_of_numbers(text::split(inner@, ',')));
    while i < 6
        invariant
            passive_address_of(reply@) == address_of_numbers(text::split(inner@, ',')),
            parts@.len() == 6,
            text::views(parts@) == text::split(inner@, ','),
            i <= 6,
            nums@.len() == i,
            forall|j: int| 0 <= j < i ==> text::number_upto(text::views(parts@)[j], 255) == Some(#[trigger] nums@[j] as nat),
        decreases 6 - i,
    {
        match text::parse_number(parts[i].as_str(), 255) {
            Some(n) => nums.push(n),
            None => {
                proof {
                    assert(text::views(parts@)[i as int] == parts@[i as int]@);
                    let ps = text::split(inner@, ',');
                    assert(!(text::number_upto(ps[i as int], 255) is Some));
                    assert(ps.len() == 6);
                    assert(!(forall|j: int| 0 <= j < 6 ==> (#[trigger] text::number_upto(ps[j], 255)) is Some));
                    assert(address_of_numbers(ps) is None);
                }
                return None;
            },
        }
        i = i + 1;
    }
    let mut head: Vec<String> = Vec::new();
    head.push(parts[0].clone());
    head.push(parts[1].clone());
    head.push(parts[2].clone());
    head.push(parts[3].clone());
    let host = text::join_exec(&head, ".");
    let port = nums[4] * 256 + nums[5];
    proof {
        let ps = text::split(inner@, ',');
        assert(text::views(head@) =~= ps.take(4));
        assert forall|j: int| 0 <= j < 6 implies (#[trigger] text::number_upto(ps[j], 255)) is Some by {
            assert(text::number_upto(text::views(parts@)[j], 255) == Some(nums@[j] as nat));
        }
        assert(text::number_upto(ps[4], 255) == Some(nums@[4] as nat));
        assert(text::number_upto(ps[5], 255) == Some(nums@[5] as nat));
    }
    Some((host, port as u16))
}

/// Where a download is stored in `dest_dir`: under its file name.
pub fn download_path(dest_dir: &str, download: &ResolvedDownload) -> (r: String)
    ensures
        r@ == path::join(dest_dir@, download_file_name(download.download.deep_view())),
{
    let name = download.download.file_name();
    path::join_exec(dest_dir, name.as_str())
}

/// The proxy for downloads: the configured one, else the `LAST_PROXY`
/// value; none when that is absent or empty.
pub open spec fn proxy_of(configured: Seq<char>, env: Option<Seq<char>>) -> Option<Seq<char>> {
    let p = if configured.len() == 0 {
        env
    } else {
        Some(configured)
    };
    match p {
        Some(x) => if x.len() > 0 {
            Some(x)
        } else {
            None
        },
        None => None,
    }
}

/// The proxy to route downloads through.
pub fn effective_proxy(configured: &str, env: Option<&str>) -> (r: Option<String>)
    ensures
        r.deep_view() == proxy_of(
            configured@,
            match env {
                Some(e) => Some(e@),
                None => None,
            },
        ),
{
    let p: Option<&str> = if configured.unicode_len() == 0 {
        env
    } else {
        Some(configured)
    };
    match p {
        Some(x) => if x.unicode_len() > 0 {
            Some(String::from_str(x))
        } else {
            None
        },
        None => None,
    }
}

} // verus!
