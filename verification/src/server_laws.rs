//! Which servers are accepted, and what a change on either side means.

use crate::fault::{refusal, FaultKind};
use crate::outside::address::AddressView;
use crate::text::{trim, Class};
use crate::webdav::{
    conflict, origin, request_fault, same_server, server_fault, Conflict, OriginView, Request,
    SyncMetadataView,
};
use vstd::prelude::*;

verus! {

/// Where an address is that of a web server with a host, a path is named and the file
/// of the two lies on that same server, the settings are accepted, and only there.
pub proof fn law_files_lie_on_the_named_server(
    base: Option<AddressView>,
    own: Option<OriginView>,
    path: Seq<char>,
    file: Option<Option<OriginView>>,
)
    ensures
        server_fault(base, own, path, file) is None <==> {
            &&& base matches Some(a) && (a.scheme == "http"@ || a.scheme == "https"@) && a.host
                is Some
            &&& trim(trim(path, Class::White), Class::One('/')).len() > 0
            &&& file matches Some(Some(f)) && own == Some(f)
        },
        base is None ==> server_fault(base, own, path, file) == Some(
            refusal(FaultKind::AddressFormat, Seq::empty()),
        ),
        base matches Some(a) ==> (a.scheme != "http"@ && a.scheme != "https"@ || a.host is None)
            ==> server_fault(base, own, path, file) == Some(
            refusal(FaultKind::AddressScheme, Seq::empty()),
        ),
{
}

/// An address names the server of its scheme, host and port; one without a host or
/// without a port, or of a scheme without servers, names none.
pub proof fn law_addresses_name_their_server(a: AddressView, host: Seq<char>, port: u16)
    requires
        a.scheme == "http"@ || a.scheme == "https"@,
    ensures
        a.host == Some(host) && a.port == Some(port) ==> origin(a) == Some(
            OriginView { scheme: a.scheme, host, port },
        ),
        a.host is None || a.port is None ==> origin(a) is None,
{
    reveal_strlit("http");
    reveal_strlit("https");
    reveal_strlit("blob");
    assert("http"@[0] == 'h' && "https"@[0] == 'h' && "blob"@[0] == 'b');
}

/// Two addresses are of one server exactly where scheme, host and port agree; the
/// one that names no server is of none, not even of its own.
pub proof fn law_servers_agree_in_all_parts(a: Option<OriginView>, b: Option<OriginView>)
    ensures
        same_server(a, b) <==> a is Some && b is Some && a->0.scheme == b->0.scheme && a->0.host
            == b->0.host && a->0.port == b->0.port,
        same_server(a, b) == same_server(b, a),
        !same_server(None, None),
{
}

/// What changed is told of each side by itself: exchanging the sides exchanges the
/// answer.
pub proof fn law_sides_are_told_apart(meta: SyncMetadataView, local: Seq<char>, remote: Seq<char>)
    ensures
        ({
            let turned = SyncMetadataView {
                local_hash: meta.remote_hash,
                remote_hash: meta.local_hash,
                ..meta
            };
            let c = conflict(meta, local, remote);
            let d = conflict(turned, remote, local);
            &&& c == Conflict::UpToDate <==> local == meta.local_hash && remote == meta.remote_hash
            &&& c == Conflict::LocalOnly <==> local != meta.local_hash && remote
                == meta.remote_hash
            &&& c == Conflict::RemoteOnly <==> d == Conflict::LocalOnly
            &&& c == Conflict::LocalOnly <==> d == Conflict::RemoteOnly
            &&& c == Conflict::BothChanged <==> local != meta.local_hash && remote
                != meta.remote_hash
        }),
{
}

/// An answer that is no success is told as the fault of what was asked.
pub proof fn law_faults_tell_what_was_asked(r: Request)
    ensures
        request_fault(r) == FaultKind::ServerStatus <==> r == Request::Test,
        request_fault(r) == FaultKind::DownloadStatus <==> r == Request::Download,
        request_fault(r) == FaultKind::UploadStatus <==> r == Request::Upload,
{
}

} // verus!
