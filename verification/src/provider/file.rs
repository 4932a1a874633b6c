//! Strict file-provider document and normalization.

use vstd::prelude::*;
use crate::net::SocketAddress;
use crate::schema::EndpointConfig;
use crate::text::{utf8, utf8_text, str_eq};
use crate::web::opt_view;
use super::{FileProviderConfig, ProviderError, MAX_FILE_BYTES, endpoint, endpoint_matches};
use crate::web::url_from_str;
use super::endpoint_url_text;

verus! {

/// Strict provider file document.
#[derive(Clone, Debug)]
pub struct FileProviderDocument {
    /// Provider document schema version.
    pub schema_version: u32,
    /// Must equal configured provider ID.
    pub provider_id: String,
    /// Complete replacement endpoint set.
    pub endpoints: Vec<FileEndpoint>,
}

/// Untrusted endpoint record. Transport/TLS policy comes from base config.
#[derive(Clone, Debug)]
pub struct FileEndpoint {
    /// Stable endpoint ID within target group.
    pub id: String,
    /// Literal IP and explicit port; DNS names are not accepted here.
    pub address: SocketAddress,
    /// Balancer weight.
    pub weight: u32,
}

/// The text of provider bytes: `Limit` when empty or over the byte bound,
/// `Invalid` when not UTF-8.
pub fn document_text(bytes: &[u8]) -> (r: Result<&str, ProviderError>)
    ensures
        (bytes@.len() == 0 || bytes@.len() > MAX_FILE_BYTES) <==> r == Err::<
            &str,
            ProviderError,
        >(ProviderError::Limit),
        r matches Err(e) ==> e == ProviderError::Limit || (e == ProviderError::Invalid
            && !vstd::utf8::valid_utf8(bytes@)),
        r matches Ok(t) ==> utf8(t@) == bytes@,
        (0 < bytes@.len() <= MAX_FILE_BYTES && vstd::utf8::valid_utf8(bytes@)) ==> r is Ok,
{
    if bytes.len() == 0 || bytes.len() > MAX_FILE_BYTES {
        return Err(ProviderError::Limit);
    }
    match utf8_text(bytes) {
        Some(t) => Ok(t),
        None => Err(ProviderError::Invalid),
    }
}

/// A record whose URL the provider template cannot produce.
pub open spec fn unparsable_record(provider: FileProviderConfig, records: Seq<FileEndpoint>) -> bool {
    exists|i: int|
        0 <= i < records.len() && url_from_str(
            endpoint_url_text(provider.scheme, (#[trigger] records[i]).address.ip, records[i].address.port),
        ) is None
}

/// Normalizes untrusted file records through the trusted provider
/// template: the document must name this provider under schema 1 and hold
/// between one and `max_endpoints` records; each keeps its ID, address and
/// weight, and takes scheme and TLS policy from the provider.
pub fn endpoints(provider: &FileProviderConfig, document: &FileProviderDocument) -> (r: Result<
    Vec<EndpointConfig>,
    ProviderError,
>)
    ensures
        (document.schema_version != 1 || document.provider_id@ != provider.id@) <==> r == Err::<
            Vec<EndpointConfig>,
            ProviderError,
        >(ProviderError::Identity),
        (r == Err::<Vec<EndpointConfig>, ProviderError>(ProviderError::Limit)) <==> (
        document.schema_version == 1 && document.provider_id@ == provider.id@ && (
        document.endpoints@.len() == 0 || document.endpoints@.len() > provider.max_endpoints)),
        (r == Err::<Vec<EndpointConfig>, ProviderError>(ProviderError::Invalid)) <==> (
        document.schema_version == 1 && document.provider_id@ == provider.id@ && 0
            < document.endpoints@.len() <= provider.max_endpoints && unparsable_record(
            *provider,
            document.endpoints@,
        )),
        r matches Ok(v) ==> v@.len() == document.endpoints@.len() && forall|i: int|
            0 <= i < v@.len() ==> #[trigger] endpoint_matches(
                v@[i],
                document.endpoints@[i].id@,
                document.endpoints@[i].address,
                document.endpoints@[i].weight,
                provider.scheme,
                opt_view(provider.server_name),
                opt_view(provider.ca_bundle),
            ),
{
    if document.schema_version != 1 || !str_eq(document.provider_id.as_str(), provider.id.as_str()) {
        return Err(ProviderError::Identity);
    }
    if document.endpoints.len() == 0 || document.endpoints.len() > provider.max_endpoints {
        return Err(ProviderError::Limit);
    }
    let mut out: Vec<EndpointConfig> = Vec::new();
    let mut i: usize = 0;
    while i < document.endpoints.len()
        invariant
            i <= document.endpoints@.len(),
            out@.len() == i,
            document.schema_version == 1,
            document.provider_id@ == provider.id@,
            0 < document.endpoints@.len() <= provider.max_endpoints,
            forall|k: int|
                0 <= k < i ==> url_from_str(
                    endpoint_url_text(
                        provider.scheme,
                        (#[trigger] document.endpoints@[k]).address.ip,
                        document.endpoints@[k].address.port,
                    ),
                ) is Some,
            forall|k: int|
                0 <= k < i ==> #[trigger] endpoint_matches(
                    out@[k],
                    document.endpoints@[k].id@,
                    document.endpoints@[k].address,
                    document.endpoints@[k].weight,
                    provider.scheme,
                    opt_view(provider.server_name),
                    opt_view(provider.ca_bundle),
                ),
        decreases document.endpoints@.len() - i,
    {
        let record = &document.endpoints[i];
        match endpoint(
            String::from_str(record.id.as_str()),
            record.address,
            record.weight,
            provider.scheme,
            &provider.server_name,
            &provider.ca_bundle,
        ) {
            Ok(e) => out.push(e),
            Err(e) => {
                proof {
                    assert(url_from_str(
                        endpoint_url_text(
                            provider.scheme,
                            document.endpoints@[i as int].address.ip,
                            document.endpoints@[i as int].address.port,
                        ),
                    ) is None);
                }
                return Err(e);
            },
        }
        i += 1;
    }
    proof {
        assert(!unparsable_record(*provider, document.endpoints@));
    }
    Ok(out)
}

} // verus!
