//! The decisions of the oblivious HTTP layer on a request.

use crate::headers;
use crate::ingress::OHttpArgs;
use crate::ohttp::base_url;
use crate::ohttp::base_url::{BaseUrlError, TngEndpoint};
use crate::ohttp::client_cache::{CacheKeyView, OHttpClientCacheKey};
use crate::ohttp::forward_headers;
use crate::ohttp::forward_headers::InvalidForwardHeader;
use crate::text;
use crate::urls;
use http::header::{HeaderName, HeaderValue, MaxSizeReached};
use http::HeaderMap;
use url::Url;
use vstd::prelude::*;

verus! {

/// The oblivious HTTP layer, as far as it decides: it knows which request headers
/// are forwarded.
#[derive(Debug)]
pub struct OHttpSecurityLayer {
    forward_header_names: Vec<HeaderName>,
}

/// A request that is ready to be forwarded: the headers that are forwarded, and
/// the key of the client that forwards it. The key holds the base URL.
#[derive(Debug)]
pub struct PreparedForward {
    pub forward_headers: HeaderMap<HeaderValue>,
    pub cache_key: OHttpClientCacheKey,
}

/// Why a request cannot be forwarded.
#[derive(Debug)]
pub enum ForwardError {
    /// The base URL is none.
    BaseUrl(BaseUrlError),
    /// The headers to forward are too many for one map.
    TooManyHeaders(MaxSizeReached),
}

impl View for OHttpSecurityLayer {
    type V = Seq<Seq<char>>;

    /// The names of the headers to forward.
    closed spec fn view(&self) -> Seq<Seq<char>> {
        headers::name_texts(self.forward_header_names@)
    }
}

impl OHttpSecurityLayer {
    #[verifier::type_invariant]
    spec fn names_are_ordered(self) -> bool {
        text::strictly_ordered(self@)
    }

    /// Makes the layer from its settings. The names of the headers to forward are
    /// put in order, each once.
    pub fn new(ohttp_args: &OHttpArgs) -> (layer: Result<OHttpSecurityLayer, InvalidForwardHeader>)
        ensures
            layer is Ok <==> forall|i: int|
                0 <= i < ohttp_args.forward_headers@.len() ==> headers::header_name_of(
                    #[trigger] ohttp_args.forward_headers@[i]@,
                ) is Some,
            layer matches Ok(l) ==> forward_headers::are_names_of(
                l@,
                ohttp_args.forward_headers@,
            ),
            layer matches Err(e) ==> exists|i: int| #[trigger]
                forward_headers::is_first_invalid(ohttp_args.forward_headers@, i) && e.entry@
                    == ohttp_args.forward_headers@[i]@,
    {
        match forward_headers::parse_forward_headers(ohttp_args.forward_headers.as_slice()) {
            Ok(forward_header_names) => Ok(OHttpSecurityLayer { forward_header_names }),
            Err(invalid) => Err(invalid),
        }
    }

    /// Constructs the base URL of a request to an endpoint, given what rewriting the
    /// path of the request gave.
    pub fn construct_base_url(endpoint: &TngEndpoint, rewritten: Option<String>) -> (outcome:
        Result<Url, BaseUrlError>)
        ensures
            base_url::is_base_url(
                outcome,
                base_url::base_url_text(*endpoint, text::optional_string_text(rewritten)),
                urls::parsed_url(
                    base_url::base_url_text(*endpoint, text::optional_string_text(rewritten)),
                ),
            ),
    {
        let url = base_url::write_base_url(endpoint, rewritten);
        let parsed = Url::parse(url.as_str());
        base_url::accept_base_url(url, parsed)
    }

    /// Prepares a request to be forwarded.
    pub fn prepare_forward(
        &self,
        endpoint: &TngEndpoint,
        rewritten: Option<String>,
        request_headers: &HeaderMap<HeaderValue>,
    ) -> (prepared: Result<PreparedForward, ForwardError>)
        ensures
            text::strictly_ordered(self@),
            ({
                let url = base_url::base_url_text(
                    *endpoint,
                    text::optional_string_text(rewritten),
                );
                let fields = headers::header_fields(*request_headers);
                match urls::parsed_url(url) {
                    Err(e) => prepared matches Err(ForwardError::BaseUrl(b)) && b.url@ == url
                        && b.cause == e,
                    Ok(serialized) => match prepared {
                        Ok(p) => {
                            &&& headers::header_fields(p.forward_headers)
                                == forward_headers::forwarded_fields(fields, self@)
                            &&& headers::header_marks(p.forward_headers)
                                == forward_headers::forwarded_marks(
                                fields,
                                headers::header_marks(*request_headers),
                                self@,
                            )
                            &&& p.cache_key@ == request_key(serialized, fields, self@)
                        },
                        Err(error) => {
                            &&& error is TooManyHeaders
                            &&& forward_headers::forwarded_fields(fields, self@).dom().len()
                                > headers::ALWAYS_ROOM
                        },
                    },
                }
            }),
    {
        proof {
            use_type_invariant(self);
        }
        let base_url = match OHttpSecurityLayer::construct_base_url(endpoint, rewritten) {
            Ok(base_url) => base_url,
            Err(error) => return Err(ForwardError::BaseUrl(error)),
        };
        match OHttpSecurityLayer::extract_forward_headers(
            request_headers,
            self.forward_header_names.as_slice(),
        ) {
            Ok((forward_headers, forwarded_headers)) => {
                let cache_key = OHttpClientCacheKey { base_url, forwarded_headers };
                Ok(PreparedForward { forward_headers, cache_key })
            },
            Err(full) => Err(ForwardError::TooManyHeaders(full)),
        }
    }
}

/// The key of the client that forwards a request.
pub open spec fn request_key(
    base_url: Seq<char>,
    fields: Map<Seq<char>, Seq<Seq<u8>>>,
    names: Seq<Seq<char>>,
) -> CacheKeyView {
    CacheKeyView { base_url, forwarded_headers: forward_headers::key_headers(fields, names) }
}

/// Requests that go to the same base URL and forward the same headers share a client.
pub proof fn same_url_and_headers_share_client(
    base_url: Seq<char>,
    fields: Map<Seq<char>, Seq<Seq<u8>>>,
    other_fields: Map<Seq<char>, Seq<Seq<u8>>>,
    names: Seq<Seq<char>>,
)
    requires
        forward_headers::forwarded_fields(fields, names) == forward_headers::forwarded_fields(
            other_fields,
            names,
        ),
    ensures
        request_key(base_url, fields, names) == request_key(base_url, other_fields, names),
{
    forward_headers::same_forwarded_headers_same_key(fields, other_fields, names);
}

/// Requests that go to different base URLs never share a client. Those that forward
/// different headers do not either, where the forwarded values are UTF-8.
pub proof fn clients_are_separated(
    base_url: Seq<char>,
    fields: Map<Seq<char>, Seq<Seq<u8>>>,
    other_url: Seq<char>,
    other_fields: Map<Seq<char>, Seq<Seq<u8>>>,
    names: Seq<Seq<char>>,
)
    requires
        base_url != other_url || {
            &&& forward_headers::forwards_text(fields, names)
            &&& forward_headers::forwards_text(other_fields, names)
            &&& forward_headers::forwarded_fields(fields, names)
                != forward_headers::forwarded_fields(other_fields, names)
        },
    ensures
        request_key(base_url, fields, names) != request_key(other_url, other_fields, names),
{
    if base_url == other_url {
        forward_headers::key_depends_on_forwarded_headers(fields, other_fields, names);
    }
}

/// The key of a request is its base URL, as it is, and the headers that it forwards.
pub proof fn key_holds_url_and_headers(
    base_url: Seq<char>,
    fields: Map<Seq<char>, Seq<Seq<u8>>>,
    names: Seq<Seq<char>>,
)
    ensures
        request_key(base_url, fields, names).base_url == base_url,
        request_key(base_url, fields, names).forwarded_headers == forward_headers::key_headers(
            fields,
            names,
        ),
{
}

} // verus!
