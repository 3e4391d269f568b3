//! Configuration of an ingress.
//!
//! The types that describe an endpoint (`E`) and remote attestation (`R`) belong
//! to the surrounding configuration, so they are parameters here.

use cidr::Ipv4Cidr;
use vstd::prelude::*;

verus! {

/// An IPv4 network, `cidr::Ipv4Cidr`. It is only carried along.
#[verifier::external_type_specification]
#[verifier::external_body]
pub struct ExIpv4Cidr(Ipv4Cidr);

/// One ingress: where it takes traffic from, and what it does with it.
#[derive(Debug, Clone, PartialEq)]
pub struct AddIngressArgs<E, R> {
    pub ingress_mode: IngressMode<E>,
    pub common: CommonArgs<R>,
}

/// What the modes of an ingress have in common.
#[derive(Debug, Clone, PartialEq)]
pub struct CommonArgs<R> {
    pub ohttp: Option<OHttpArgs>,
    pub web_page_inject: bool,
    pub ra_args: R,
}

/// How an ingress takes traffic.
#[derive(Debug, Clone, PartialEq)]
pub enum IngressMode<E> {
    Mapping(IngressMappingArgs<E>),
    HttpProxy(IngressHttpProxyArgs<E>),
    Netfilter(IngressNetfilterArgs),
    Socks5(IngressSocks5Args<E>),
}

/// One port, mapped to one destination.
#[derive(Debug, Clone, PartialEq)]
pub struct IngressMappingArgs<E> {
    pub in_: E,
    pub out: E,
}

/// An HTTP proxy.
#[derive(Debug, Clone, PartialEq)]
pub struct IngressHttpProxyArgs<E> {
    pub proxy_listen: E,
    pub dst_filters: Vec<EndpointFilter>,
}

/// A transparent proxy.
#[derive(Debug, Clone, PartialEq)]
pub struct IngressNetfilterArgs {
    pub capture_dst: Vec<IngressNetfilterCaptureDstArgs>,
    pub capture_cgroup: Vec<String>,
    pub nocapture_cgroup: Vec<String>,
    pub listen_port: Option<u16>,
    pub so_mark: Option<u32>,
}

/// A destination to capture, as it is written in a configuration. It is checked by
/// turning it into an [`IngressNetfilterCaptureDst`].
#[derive(Debug, Clone, PartialEq)]
pub struct IngressNetfilterCaptureDstArgs {
    pub host: Option<Ipv4Cidr>,
    pub ipset: Option<String>,
    pub port: Option<u16>,
}

/// A destination to capture.
#[derive(Debug)]
pub enum IngressNetfilterCaptureDst {
    HostOnly { host: Ipv4Cidr },
    IpSetOnly { ipset: String },
    PortOnly { port: u16 },
    HostAndPort { host: Ipv4Cidr, port: u16 },
    IpSetAndPort { ipset: String, port: u16 },
}

/// Why a destination cannot be captured.
#[derive(Debug, Clone, Copy, PartialEq, Eq, Structural)]
pub enum CaptureDstError {
    /// Neither host, ipset nor port is given.
    NothingSpecified,
    /// Both host and ipset are given.
    HostAndIpSet,
}

/// A SOCKS5 proxy.
#[derive(Debug, Clone, PartialEq)]
pub struct IngressSocks5Args<E> {
    pub proxy_listen: E,
    pub dst_filters: Vec<EndpointFilter>,
    pub auth: Option<Socks5AuthArgs>,
}

/// Who may use a SOCKS5 proxy.
#[derive(Debug, Clone, PartialEq)]
pub struct Socks5AuthArgs {
    pub username: String,
    pub password: String,
}

/// Settings of the oblivious HTTP layer.
#[derive(Debug, Clone, PartialEq)]
pub struct OHttpArgs {
    pub path_rewrites: Vec<PathRewrite>,
    /// Names of the request headers that the clients forward.
    pub forward_headers: Vec<String>,
}

/// One rule for rewriting a path.
#[derive(Debug, Clone, PartialEq)]
pub struct PathRewrite {
    pub match_regex: String,
    pub substitution: String,
}

/// A filter on destinations.
#[derive(Debug, Clone, PartialEq)]
pub struct EndpointFilter {
    /// Host name to match. Only some kinds of wildcards are supported.
    pub domain: Option<String>,
    pub domain_regex: Option<String>,
    pub port: Option<u16>,
}

impl Default for OHttpArgs {
    fn default() -> (args: OHttpArgs)
        ensures
            args.path_rewrites@.len() == 0,
            args.forward_headers@.len() == 0,
    {
        OHttpArgs { path_rewrites: Vec::new(), forward_headers: Vec::new() }
    }
}

impl Default for PathRewrite {
    fn default() -> (rewrite: PathRewrite)
        ensures
            rewrite.match_regex@.len() == 0,
            rewrite.substitution@.len() == 0,
    {
        PathRewrite { match_regex: String::new(), substitution: String::new() }
    }
}

impl CaptureDstError {
    /// The message of the error.
    pub fn message(self) -> (message: &'static str)
        ensures
            self == CaptureDstError::NothingSpecified ==> message@
                == "one of host, ipset, port must be specified"@,
            self == CaptureDstError::HostAndIpSet ==> message@
                == "Only one of host or ipset can be specified"@,
    {
        match self {
            CaptureDstError::NothingSpecified => "one of host, ipset, port must be specified",
            CaptureDstError::HostAndIpSet => "Only one of host or ipset can be specified",
        }
    }
}

impl IngressNetfilterCaptureDst {
    /// The destination as it is written in a configuration.
    pub open spec fn written(self) -> IngressNetfilterCaptureDstArgs {
        match self {
            IngressNetfilterCaptureDst::HostOnly { host } => IngressNetfilterCaptureDstArgs {
                host: Some(host),
                ipset: None,
                port: None,
            },
            IngressNetfilterCaptureDst::IpSetOnly { ipset } => IngressNetfilterCaptureDstArgs {
                host: None,
                ipset: Some(ipset),
                port: None,
            },
            IngressNetfilterCaptureDst::PortOnly { port } => IngressNetfilterCaptureDstArgs {
                host: None,
                ipset: None,
                port: Some(port),
            },
            IngressNetfilterCaptureDst::HostAndPort { host, port } => {
                IngressNetfilterCaptureDstArgs { host: Some(host), ipset: None, port: Some(port) }
            },
            IngressNetfilterCaptureDst::IpSetAndPort { ipset, port } => {
                IngressNetfilterCaptureDstArgs { host: None, ipset: Some(ipset), port: Some(port) }
            },
        }
    }
}

/// The destination that some settings describe, or why they describe none.
pub open spec fn capture_dst(args: IngressNetfilterCaptureDstArgs) -> Result<
    IngressNetfilterCaptureDst,
    CaptureDstError,
> {
    match (args.host, args.ipset, args.port) {
        (Some(_), Some(_), _) => Err(CaptureDstError::HostAndIpSet),
        (Some(host), None, Some(port)) => Ok(IngressNetfilterCaptureDst::HostAndPort { host, port }),
        (Some(host), None, None) => Ok(IngressNetfilterCaptureDst::HostOnly { host }),
        (None, Some(ipset), Some(port)) => Ok(
            IngressNetfilterCaptureDst::IpSetAndPort { ipset, port },
        ),
        (None, Some(ipset), None) => Ok(IngressNetfilterCaptureDst::IpSetOnly { ipset }),
        (None, None, Some(port)) => Ok(IngressNetfilterCaptureDst::PortOnly { port }),
        (None, None, None) => Err(CaptureDstError::NothingSpecified),
    }
}

impl TryFrom<IngressNetfilterCaptureDstArgs> for IngressNetfilterCaptureDst {
    type Error = CaptureDstError;

    fn try_from(value: IngressNetfilterCaptureDstArgs) -> (dst: Result<
        IngressNetfilterCaptureDst,
        CaptureDstError,
    >)
        ensures
            dst == capture_dst(value),
    {
        match (value.host, value.ipset, value.port) {
            (None, None, None) => Err(CaptureDstError::NothingSpecified),
            (None, None, Some(port)) => Ok(IngressNetfilterCaptureDst::PortOnly { port }),
            (None, Some(ipset), None) => Ok(IngressNetfilterCaptureDst::IpSetOnly { ipset }),
            (None, Some(ipset), Some(port)) => Ok(
                IngressNetfilterCaptureDst::IpSetAndPort { ipset, port },
            ),
            (Some(host), None, None) => Ok(IngressNetfilterCaptureDst::HostOnly { host }),
            (Some(host), None, Some(port)) => Ok(
                IngressNetfilterCaptureDst::HostAndPort { host, port },
            ),
            (Some(_), Some(_), _) => Err(CaptureDstError::HostAndIpSet),
        }
    }
}

impl vstd::std_specs::convert::TryFromSpecImpl<IngressNetfilterCaptureDstArgs>
    for IngressNetfilterCaptureDst {
    open spec fn obeys_try_from_spec() -> bool {
        true
    }

    open spec fn try_from_spec(value: IngressNetfilterCaptureDstArgs) -> Result<
        IngressNetfilterCaptureDst,
        CaptureDstError,
    > {
        capture_dst(value)
    }
}

/// Settings are accepted exactly when they give a host, an ipset or a port, and not
/// both a host and an ipset.
pub proof fn accepted_settings(args: IngressNetfilterCaptureDstArgs)
    ensures
        capture_dst(args) is Ok <==> (args.host is Some || args.ipset is Some || args.port is Some)
            && !(args.host is Some && args.ipset is Some),
        capture_dst(args) == Err::<IngressNetfilterCaptureDst, _>(
            CaptureDstError::HostAndIpSet,
        ) <==> args.host is Some && args.ipset is Some,
        capture_dst(args) == Err::<IngressNetfilterCaptureDst, _>(
            CaptureDstError::NothingSpecified,
        ) <==> args.host is None && args.ipset is None && args.port is None,
{
}

/// Nothing is lost or made up: the destinations are, one for one, the settings that
/// are accepted.
pub proof fn destinations_match_settings(
    args: IngressNetfilterCaptureDstArgs,
    dst: IngressNetfilterCaptureDst,
)
    ensures
        capture_dst(args) == Ok::<_, CaptureDstError>(dst) <==> dst.written() == args,
{
}

/// The destination holds the host, the ipset and the port of the settings, each where it is
/// given, and nothing where it is not.
pub proof fn destination_holds_what_is_given(args: IngressNetfilterCaptureDstArgs)
    ensures
        capture_dst(args) matches Ok(dst) ==> match dst {
            IngressNetfilterCaptureDst::HostOnly { host } => args.host == Some(host)
                && args.ipset is None && args.port is None,
            IngressNetfilterCaptureDst::IpSetOnly { ipset } => args.host is None && args.ipset
                == Some(ipset) && args.port is None,
            IngressNetfilterCaptureDst::PortOnly { port } => args.host is None
                && args.ipset is None && args.port == Some(port),
            IngressNetfilterCaptureDst::HostAndPort { host, port } => args.host == Some(host)
                && args.ipset is None && args.port == Some(port),
            IngressNetfilterCaptureDst::IpSetAndPort { ipset, port } => args.host is None
                && args.ipset == Some(ipset) && args.port == Some(port),
        },
{
}

} // verus!
