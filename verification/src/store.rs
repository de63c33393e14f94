//! Configuration records for the spreadsheet-backed store and its
//! service-account credentials. The store itself performs network I/O
//! and lives outside this crate; these are the plain values it is
//! configured with.

use vstd::prelude::*;

verus! {

/// Where the backing spreadsheet lives and how to authenticate to it.
#[derive(Clone)]
pub struct SheetsConfig {
    pub spreadsheet_id: String,
    pub service_account_json_path: String,
}

/// Names of the three sheets that hold the cache snapshot and the two
/// series tables.
pub struct SheetNames {
    pub market_cache: &'static str,
    pub quarterly_data: &'static str,
    pub historical_data: &'static str,
}

impl Default for SheetNames {
    fn default() -> (names: SheetNames)
        ensures
            names.market_cache@ == "MarketCache"@,
            names.quarterly_data@ == "QuarterlyData"@,
            names.historical_data@ == "HistoricalData"@,
    {
        SheetNames {
            market_cache: "MarketCache",
            quarterly_data: "QuarterlyData",
            historical_data: "HistoricalData",
        }
    }
}

/// The fields of a Google service-account key file.
#[derive(Debug, Clone)]
pub struct ServiceAccountKey {
    pub key_type: String,
    pub project_id: String,
    pub private_key_id: String,
    pub private_key: String,
    pub client_email: String,
    pub client_id: String,
    pub auth_uri: String,
    pub token_uri: String,
    pub auth_provider_x509_cert_url: String,
    pub client_x509_cert_url: String,
}

} // verus!
