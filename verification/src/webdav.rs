//! Keeping rules in step with a WebDAV server.

use crate::fault::{refusal, Fault, FaultKind, FaultView};
use crate::outside::address::{
    address, join_address, joined_address, parse_address, Address, AddressView,
};
use crate::outside::digest::{sha256, sha256_hex};
use crate::outside::std_text::from_utf8;
use crate::text::{
    chars_of, duplicate_option, opt_view, same, trim, trim_start, trimmed, trimmed_start, Class,
    Duplicate,
};
use vstd::prelude::*;
use vstd::utf8::*;

verus! {

/// The server that rules are kept on. Checking it needs no network.
#[derive(Clone, Debug)]
pub struct WebDavSettings {
    pub enabled: bool,
    pub url: String,
    pub remote_path: String,
    pub username: String,
}

/// What a `WebDavSettings` holds.
#[verifier::ext_equal]
pub ghost struct WebDavSettingsView {
    pub enabled: bool,
    pub url: Seq<char>,
    pub remote_path: Seq<char>,
    pub username: Seq<char>,
}

impl View for WebDavSettings {
    type V = WebDavSettingsView;

    open spec fn view(&self) -> WebDavSettingsView {
        WebDavSettingsView {
            enabled: self.enabled,
            url: self.url@,
            remote_path: self.remote_path@,
            username: self.username@,
        }
    }
}

impl Duplicate for WebDavSettings {
    fn duplicate(&self) -> (r: Self) {
        WebDavSettings {
            enabled: self.enabled,
            url: self.url.clone(),
            remote_path: self.remote_path.clone(),
            username: self.username.clone(),
        }
    }
}

/// The hashes of both sides when they were last the same.
#[derive(Clone, Debug)]
pub struct SyncMetadata {
    pub local_hash: String,
    pub remote_hash: String,
    pub etag: Option<String>,
}

/// What a `SyncMetadata` holds.
#[verifier::ext_equal]
pub ghost struct SyncMetadataView {
    pub local_hash: Seq<char>,
    pub remote_hash: Seq<char>,
    pub etag: Option<Seq<char>>,
}

impl View for SyncMetadata {
    type V = SyncMetadataView;

    open spec fn view(&self) -> SyncMetadataView {
        SyncMetadataView {
            local_hash: self.local_hash@,
            remote_hash: self.remote_hash@,
            etag: opt_view(self.etag),
        }
    }
}

impl Duplicate for SyncMetadata {
    fn duplicate(&self) -> (r: Self) {
        SyncMetadata {
            local_hash: self.local_hash.clone(),
            remote_hash: self.remote_hash.clone(),
            etag: duplicate_option(&self.etag),
        }
    }
}

impl Default for WebDavSettings {
    fn default() -> (r: Self)
        ensures
            !r.enabled,
            r@.url.len() == 0,
            r@.remote_path.len() == 0,
            r@.username.len() == 0,
    {
        WebDavSettings {
            enabled: false,
            url: String::new(),
            remote_path: String::new(),
            username: String::new(),
        }
    }
}

impl Default for SyncMetadata {
    fn default() -> (r: Self)
        ensures
            r@.local_hash.len() == 0,
            r@.remote_hash.len() == 0,
            r@.etag is None,
    {
        SyncMetadata { local_hash: String::new(), remote_hash: String::new(), etag: None }
    }
}

/// The server that an address names: scheme, host and port.
#[derive(Debug)]
pub struct Origin {
    pub scheme: String,
    pub host: String,
    pub port: u16,
}

/// What an `Origin` holds.
#[verifier::ext_equal]
pub ghost struct OriginView {
    pub scheme: Seq<char>,
    pub host: Seq<char>,
    pub port: u16,
}

impl View for Origin {
    type V = OriginView;

    open spec fn view(&self) -> OriginView {
        OriginView { scheme: self.scheme@, host: self.host@, port: self.port }
    }
}

/// Whether addresses of the scheme name a server.
pub open spec fn has_server(scheme: Seq<char>) -> bool {
    scheme == "ftp"@ || scheme == "http"@ || scheme == "https"@ || scheme == "ws"@ || scheme
        == "wss"@
}

/// The server that an address names, where it names one; an address of the scheme
/// `blob` names that of the address which is its path.
pub open spec fn origin(a: AddressView) -> Option<OriginView>
    decreases
            (if a.scheme == "blob"@ {
                1int
            } else {
                0int
            }),
            a.path.len(),
{
    if a.scheme == "blob"@ {
        match address(a.path) {
            Some(b) => if b.scheme == "blob"@ && b.path.len() >= a.path.len() {
                None
            } else {
                origin(b)
            },
            None => None,
        }
    } else if has_server(a.scheme) {
        match (a.host, a.port) {
            (Some(host), Some(port)) => Some(OriginView { scheme: a.scheme, host, port }),
            _ => None,
        }
    } else {
        None
    }
}

pub open spec fn opt_origin(a: Option<AddressView>) -> Option<OriginView> {
    match a {
        Some(a) => origin(a),
        None => None,
    }
}

/// The server that an address names, where it names one.
pub fn origin_of(a: Option<Address>) -> (r: Option<Origin>)
    ensures
        opt_view(r) == opt_origin(opt_view(a)),
{
    let ghost start = opt_view(a);
    let mut at = match a {
        Some(a) => a,
        None => {
            return None;
        },
    };
    while same(at.scheme.as_str(), "blob")
        invariant
            start == opt_view(a),
            opt_origin(start) == origin(at@),
        decreases at@.path.len(),
    {
        match parse_address(at.path.as_str()) {
            Some(inner) => {
                if !same(inner.scheme.as_str(), "blob") {
                    return plain_origin(&inner);
                }
                if text_len(inner.path.as_str()) >= text_len(at.path.as_str()) {
                    return None;
                }
                at = inner;
            },
            None => {
                return None;
            },
        }
    }
    plain_origin(&at)
}

fn plain_origin(a: &Address) -> (r: Option<Origin>)
    requires
        a.scheme@ != "blob"@,
    ensures
        opt_view(r) == origin(a@),
{
    let scheme = a.scheme.as_str();
    if !(same(scheme, "ftp") || same(scheme, "http") || same(scheme, "https") || same(scheme, "ws")
        || same(scheme, "wss")) {
        return None;
    }
    match (&a.host, a.port) {
        (Some(host), Some(port)) => Some(
            Origin { scheme: a.scheme.clone(), host: host.clone(), port },
        ),
        _ => None,
    }
}

fn text_len(s: &str) -> (r: usize)
    ensures
        r == s@.len(),
{
    chars_of(s).len()
}

/// Whether two addresses name one server; an address without one names none.
pub open spec fn same_server(a: Option<OriginView>, b: Option<OriginView>) -> bool {
    a is Some && a == b
}

/// Why an address of a server is refused, with the server that it names, a path
/// on it, and the server of the file that the two give: the address is none, does
/// not name a web server, or the file is missing, cannot be given or lies on
/// another server.
pub open spec fn server_fault(
    base: Option<AddressView>,
    own: Option<OriginView>,
    path: Seq<char>,
    file: Option<Option<OriginView>>,
) -> Option<FaultView> {
    match base {
        None => Some(refusal(FaultKind::AddressFormat, Seq::empty())),
        Some(a) => if !(a.scheme == "http"@ || a.scheme == "https"@) || a.host is None {
            Some(refusal(FaultKind::AddressScheme, Seq::empty()))
        } else if trim(trim(path, Class::White), Class::One('/')).len() == 0 {
            Some(refusal(FaultKind::RemotePathMissing, Seq::empty()))
        } else {
            match file {
                None => Some(refusal(FaultKind::RemotePathInvalid, Seq::empty())),
                Some(f) => if same_server(f, own) {
                    None
                } else {
                    Some(refusal(FaultKind::RemotePathElsewhere, Seq::empty()))
                },
            }
        },
    }
}

pub open spec fn file_origin(o: Option<Option<Origin>>) -> Option<Option<OriginView>> {
    match o {
        Some(f) => Some(opt_view(f)),
        None => None,
    }
}

/// Checks an address of a server, given the server that it names, a path on it,
/// and the server of the file that the two give.
pub fn check_server(
    base: &Option<Address>,
    own: &Option<Origin>,
    path: &str,
    file: &Option<Option<Origin>>,
) -> (r: Result<(), Fault>)
    ensures
        ({
            let fault = server_fault(opt_view(*base), opt_view(*own), path@, file_origin(*file));
            match r {
                Ok(_) => fault is None,
                Err(f) => fault == Some(f@),
            }
        }),
{
    let base = match base {
        Some(a) => a,
        None => {
            return Err(Fault::plain(FaultKind::AddressFormat));
        },
    };
    if !(same(base.scheme.as_str(), "http") || same(base.scheme.as_str(), "https"))
        || base.host.is_none() {
        return Err(Fault::plain(FaultKind::AddressScheme));
    }
    let named = trimmed(path, Class::White);
    let named = trimmed(named.as_str(), Class::One('/'));
    if named.as_str().is_empty() {
        return Err(Fault::plain(FaultKind::RemotePathMissing));
    }
    let file = match file {
        Some(f) => f,
        None => {
            return Err(Fault::plain(FaultKind::RemotePathInvalid));
        },
    };
    let one = match (file, own) {
        (Some(x), Some(y)) => {
            let one = same(x.scheme.as_str(), y.scheme.as_str()) && same(
                x.host.as_str(),
                y.host.as_str(),
            ) && x.port == y.port;
            proof {
                assert(one == (x@ =~= y@));
            }
            one
        },
        _ => false,
    };
    if one {
        Ok(())
    } else {
        Err(Fault::plain(FaultKind::RemotePathElsewhere))
    }
}

impl WebDavSettingsView {
    /// Why the settings are refused.
    pub open spec fn fault(self) -> Option<FaultView> {
        server_fault(
            address(self.url),
            opt_origin(address(self.url)),
            self.remote_path,
            match joined_address(self.url, trim_start(self.remote_path, Class::One('/'))) {
                Some(f) => Some(origin(f)),
                None => None,
            },
        )
    }
}

impl WebDavSettings {
    /// Checks the settings.
    pub fn validate(&self) -> (r: Result<(), Fault>)
        ensures
            (match r {
                Ok(_) => self@.fault() is None,
                Err(f) => self@.fault() == Some(f@),
            }),
    {
        let base = parse_address(self.url.as_str());
        let own = origin_of(parse_address(self.url.as_str()));
        let path = trimmed_start(self.remote_path.as_str(), Class::One('/'));
        let file = match join_address(self.url.as_str(), path.as_str()) {
            Some(f) => Some(origin_of(Some(f))),
            None => None,
        };
        check_server(&base, &own, self.remote_path.as_str(), &file)
    }
}

/// What is sent to a server: where its files lie, the file, and who asks.
#[derive(Clone, Debug)]
pub struct WebDavClient {
    pub base: String,
    pub path: String,
    pub username: String,
    pub password: String,
}

impl WebDavClient {
    /// A client for valid settings; the path is taken relative to the server's
    /// address.
    pub fn new(settings: &WebDavSettings, password: &str) -> (r: Result<Self, Fault>)
        ensures
            (match r {
                Ok(c) => settings@.fault() is None && c.base@ == settings@.url && c.path@
                    == trim_start(settings@.remote_path, Class::One('/')) && c.username@
                    == settings@.username && c.password@ == password@,
                Err(f) => settings@.fault() == Some(f@),
            }),
    {
        if let Err(f) = settings.validate() {
            return Err(f);
        }
        Ok(
            WebDavClient {
                base: settings.url.clone(),
                path: trimmed_start(settings.remote_path.as_str(), Class::One('/')),
                username: settings.username.clone(),
                password: password.to_owned(),
            },
        )
    }

    /// Whether a request names a user; without one nothing secret is sent.
    pub fn identifies(&self) -> (r: bool)
        ensures
            r == (self.username@.len() > 0),
    {
        !self.username.as_str().is_empty()
    }
}

/// What was asked of a server.
#[derive(Clone, Copy, Debug, PartialEq, Eq, Structural)]
pub enum Request {
    Test,
    Download,
    Upload,
}

pub open spec fn request_fault(request: Request) -> FaultKind {
    match request {
        Request::Test => FaultKind::ServerStatus,
        Request::Download => FaultKind::DownloadStatus,
        Request::Upload => FaultKind::UploadStatus,
    }
}

/// Whether a server did what was asked; `shown` is its status in words.
pub fn check_status(request: Request, status: u16, shown: &str) -> (r: Result<(), Fault>)
    ensures
        (match r {
            Ok(_) => 200 <= status < 300,
            Err(f) => !(200 <= status < 300) && f@ == refusal(request_fault(request), shown@),
        }),
{
    if 200 <= status && status < 300 {
        return Ok(());
    }
    let kind = match request {
        Request::Test => FaultKind::ServerStatus,
        Request::Download => FaultKind::DownloadStatus,
        Request::Upload => FaultKind::UploadStatus,
    };
    Err(Fault::new(kind, shown))
}

/// The text of rules that a server sent.
pub fn downloaded_text(bytes: &[u8]) -> (r: Result<String, Fault>)
    ensures
        (match r {
            Ok(s) => valid_utf8(bytes@) && s@ == decode_utf8(bytes@),
            Err(f) => !valid_utf8(bytes@) && f@ == refusal(FaultKind::RemoteText, Seq::empty()),
        }),
{
    match from_utf8(bytes) {
        Some(s) => Ok(s),
        None => Err(Fault::plain(FaultKind::RemoteText)),
    }
}

/// The password that is kept for a server; `read` looks it up.
pub fn load_webdav_password<R: FnOnce(&str) -> Result<Option<String>, String>>(
    target: &str,
    read: R,
) -> (r: Result<String, Fault>)
    requires
        call_requires(read, (target,)),
    ensures
        exists|looked: Result<Option<String>, String>|
            #[trigger] call_ensures(read, (target,), looked) && match looked {
                Ok(Some(p)) => r == Ok::<String, Fault>(p),
                Ok(None) => r is Err && r->Err_0@ == refusal(
                    FaultKind::NoCredential,
                    Seq::empty(),
                ),
                Err(e) => r is Err && r->Err_0@ == refusal(FaultKind::System, e@),
            },
{
    match read(target) {
        Ok(Some(p)) => Ok(p),
        Ok(None) => Err(Fault::plain(FaultKind::NoCredential)),
        Err(e) => Err(Fault::new(FaultKind::System, e.as_str())),
    }
}

/// Which sides changed since they were last the same.
#[derive(Clone, Copy, Debug, PartialEq, Eq, Structural)]
pub enum Conflict {
    UpToDate,
    LocalOnly,
    RemoteOnly,
    BothChanged,
}

/// The hash of a rule file.
pub fn content_hash(bytes: &[u8]) -> (r: String)
    ensures
        r@ == sha256_hex(bytes@),
{
    sha256(bytes)
}

impl SyncMetadataView {
    /// What is remembered once both sides hold the same bytes.
    pub open spec fn in_step(content: Seq<u8>, etag: Option<Seq<char>>) -> SyncMetadataView {
        SyncMetadataView {
            local_hash: sha256_hex(content),
            remote_hash: sha256_hex(content),
            etag,
        }
    }
}

impl SyncMetadata {
    /// What is remembered once both sides hold the same rule file.
    pub fn in_step(content: &[u8], etag: Option<String>) -> (r: Self)
        ensures
            r@ == SyncMetadataView::in_step(content@, opt_view(etag)),
    {
        let hash = content_hash(content);
        SyncMetadata { local_hash: hash.clone(), remote_hash: hash, etag }
    }
}

/// Which sides changed.
pub open spec fn conflict(meta: SyncMetadataView, local: Seq<char>, remote: Seq<char>) -> Conflict {
    if local == meta.local_hash {
        if remote == meta.remote_hash {
            Conflict::UpToDate
        } else {
            Conflict::RemoteOnly
        }
    } else if remote == meta.remote_hash {
        Conflict::LocalOnly
    } else {
        Conflict::BothChanged
    }
}

pub fn detect_conflict(meta: &SyncMetadata, local: &str, remote: &str) -> (r: Conflict)
    ensures
        r == conflict(meta@, local@, remote@),
{
    let l = !same(local, meta.local_hash.as_str());
    let r = !same(remote, meta.remote_hash.as_str());
    match (l, r) {
        (false, false) => Conflict::UpToDate,
        (true, false) => Conflict::LocalOnly,
        (false, true) => Conflict::RemoteOnly,
        (true, true) => Conflict::BothChanged,
    }
}

/// Once both sides were the same, nothing is to be done until one of them
/// changes, and a change of one side is never taken for one of the other.
pub proof fn law_only_changed_sides_count(
    content: Seq<u8>,
    etag: Option<Seq<char>>,
    local: Seq<char>,
    remote: Seq<char>,
)
    ensures
        ({
            let hash = sha256_hex(content);
            let c = conflict(SyncMetadataView::in_step(content, etag), local, remote);
            &&& c == Conflict::UpToDate <==> local == hash && remote == hash
            &&& c == Conflict::LocalOnly <==> local != hash && remote == hash
            &&& c == Conflict::RemoteOnly <==> local == hash && remote != hash
            &&& c == Conflict::BothChanged <==> local != hash && remote != hash
        }),
{
}

} // verus!
