use vstd::prelude::*;

verus! {

/// The address of the financial-statement symbol list for an API key: the
/// fixed endpoint followed directly by the key.
pub fn cash_flow_url(api_key: &str) -> (url: String)
    ensures
        url@ == "https://financialmodelingprep.com/api/v3/financial-statement-symbol-lists?apikey="@
            + api_key@,
{
    let mut url = String::from_str(
        "https://financialmodelingprep.com/api/v3/financial-statement-symbol-lists?apikey=",
    );
    url.append(api_key);
    url
}

} // verus!
