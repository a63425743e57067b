//! Values exchanged with Microsoft's download API, and the per-session
//! configuration scraped from the download page.
use vstd::prelude::*;

verus! {

/// One language of a product edition, as listed by the SKU endpoint.
#[derive(Debug, Clone)]
pub struct Sku {
    pub id: String,
    pub language: String,
    pub localized_language: String,
    pub friendly_file_names: Vec<String>,
}

/// The answer of the download-links endpoint.
#[derive(Debug)]
pub struct DownloadResponse {
    pub product_download_options: Vec<DownloadOption>,
    pub download_expiration_datetime: Option<String>,
}

/// One downloadable file of a SKU.
#[derive(Debug, Clone)]
pub struct DownloadOption {
    pub name: String,
    pub uri: String,
    pub language: String,
    pub download_type: i32,
}

/// One entry of the `Errors` list that the API may answer with.
#[derive(Debug, Clone)]
pub struct ApiError {
    pub key: String,
    pub value: String,
    pub error_type: i32,
}

/// Endpoint and fingerprinting identifiers of a download session.
#[derive(Debug, Clone)]
pub struct PageConfig {
    pub api_base: String,
    pub profile: String,
    pub instance_id: String,
    pub org_id: String,
}

pub open spec fn default_api_base() -> Seq<char> {
    "https://www.microsoft.com/software-download-connector/api"@
}

pub open spec fn default_profile() -> Seq<char> {
    "606624d44113"@
}

pub open spec fn default_instance_id() -> Seq<char> {
    "560dc9f3-1aa5-4a2f-b63c-9e18f8d0e175"@
}

pub open spec fn default_org_id() -> Seq<char> {
    "y6jn8c31"@
}

impl PageConfig {
    /// The identifiers used when the page does not publish its own.
    pub open spec fn is_default(&self) -> bool {
        &&& self.api_base@ == default_api_base()
        &&& self.profile@ == default_profile()
        &&& self.instance_id@ == default_instance_id()
        &&& self.org_id@ == default_org_id()
    }
}

impl Default for PageConfig {
    fn default() -> (cfg: Self)
        ensures
            cfg.is_default(),
    {
        PageConfig {
            api_base: String::from_str("https://www.microsoft.com/software-download-connector/api"),
            profile: String::from_str("606624d44113"),
            instance_id: String::from_str("560dc9f3-1aa5-4a2f-b63c-9e18f8d0e175"),
            org_id: String::from_str("y6jn8c31"),
        }
    }
}

/// The user interrupted a download.
#[derive(Debug, Clone, Copy)]
pub struct Cancelled;

pub open spec fn cancelled_text() -> Seq<char> {
    "cancelled by user"@
}

impl Cancelled {
    /// The text a user sees for the interruption.
    pub fn message(&self) -> (r: String)
        ensures
            r@ == cancelled_text(),
    {
        String::from_str("cancelled by user")
    }
}

} // verus!
