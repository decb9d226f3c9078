//! Application settings: where mihomo is, its working directory, the
//! controller address and secret, and the subscription URL. (Loading and
//! saving them as JSON is the application's part.)

use vstd::prelude::*;

verus! {

#[derive(Debug, Clone, PartialEq)]
pub struct AppConfig {
    /// The mihomo executable; empty means the binary managed by this app.
    pub mihomo_path: String,
    /// mihomo's working directory (`-d`), which holds `config.yaml`.
    pub work_dir: String,
    /// The External Controller address.
    pub controller_url: String,
    /// The controller secret (may be empty).
    pub secret: String,
    /// The subscription URL, downloaded as `config.yaml` on first run and on
    /// "update subscription".
    pub subscription_url: String,
}

impl Default for AppConfig {
    fn default() -> (c: Self)
        ensures
            c.mihomo_path@ == Seq::<char>::empty(),
            c.work_dir@ == Seq::<char>::empty(),
            c.controller_url@ == "http://127.0.0.1:9091"@,
            c.secret@ == Seq::<char>::empty(),
            c.subscription_url@ == Seq::<char>::empty(),
    {
        AppConfig {
            mihomo_path: String::new(),
            work_dir: String::new(),
            controller_url: String::from_str("http://127.0.0.1:9091"),
            secret: String::new(),
            subscription_url: String::new(),
        }
    }
}

} // verus!
