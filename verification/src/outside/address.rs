//! Addresses of the `url` crate.

use crate::text::opt_view;
use vstd::prelude::*;

verus! {

/// An address as far as the library reads it.
#[derive(Debug)]
pub struct Address {
    pub scheme: String,
    pub host: Option<String>,
    /// The port that is written, else the usual one of the scheme.
    pub port: Option<u16>,
    pub path: String,
}

#[verifier::ext_equal]
pub ghost struct AddressView {
    pub scheme: Seq<char>,
    pub host: Option<Seq<char>>,
    pub port: Option<u16>,
    pub path: Seq<char>,
}

impl View for Address {
    type V = AddressView;

    open spec fn view(&self) -> AddressView {
        AddressView {
            scheme: self.scheme@,
            host: opt_view(self.host),
            port: self.port,
            path: self.path@,
        }
    }
}

/// The address that a text gives (`url::Url::parse`).
pub uninterp spec fn address(text: Seq<char>) -> Option<AddressView>;

/// The address of a path that is taken relative to a base (`url::Url::join`);
/// none where the base is no address or the path cannot be joined to it.
pub uninterp spec fn joined_address(base: Seq<char>, path: Seq<char>) -> Option<AddressView>;

/// The value of `url`, which `read_address` reads.
#[verifier::external_type_specification]
#[verifier::external_body]
pub struct ExUrl(url::Url);

/// The fields of an address: `url::Url::scheme`, `host_str`,
/// `port_or_known_default` and `path`. Part of the two functions below, which
/// state what comes out.
#[verifier::external_body]
fn read_address(url: &url::Url) -> (r: Address) {
    Address {
        scheme: url.scheme().to_owned(),
        host: url.host_str().map(|h| h.to_owned()),
        port: url.port_or_known_default(),
        path: url.path().to_owned(),
    }
}

/// `url::Url::parse` reads an address; its scheme, host, port and path are given.
#[verifier::external_body]
pub(crate) fn parse_address(text: &str) -> (r: Option<Address>)
    ensures
        opt_view(r) == address(text@),
{
    url::Url::parse(text).ok().map(|u| read_address(&u))
}

/// `url::Url::join` resolves a path against an address.
#[verifier::external_body]
pub(crate) fn join_address(base: &str, path: &str) -> (r: Option<Address>)
    ensures
        opt_view(r) == joined_address(base@, path@),
{
    url::Url::parse(base).ok()?.join(path).ok().map(|u| read_address(&u))
}

} // verus!
