//! The persisted configuration record.
//!
//! Percentages and amounts are scaled fixed-point values: a field holding
//! `25_000_000_000` billionths means `25.0`.  The allocation keeps three
//! independently entered risk weights and a derived cash weight.

use crate::num::HUNDRED;
use crate::text::{chars_of, spec_trim, string_from_chars, trim_chars};
use vstd::prelude::*;

verus! {

/// Target portfolio weights, in billionths of a percent.
#[derive(Clone, Copy, Debug, PartialEq, Eq, Structural)]
pub struct PortfolioAllocation {
    pub btc_usdt: u64,
    pub eth_usdt: u64,
    pub ltc_usdt: u64,
    pub usdt: u64,
}

impl PortfolioAllocation {
    /// The risk weights stay within one hundred percent and the cash weight
    /// is exactly the remainder.
    pub open spec fn wf(self) -> bool {
        &&& self.btc_usdt + self.eth_usdt + self.ltc_usdt <= HUNDRED
        &&& self.usdt == HUNDRED - (self.btc_usdt + self.eth_usdt + self.ltc_usdt)
    }
}

/// The allocation a fresh installation starts from: 25/15/10/50.
pub open spec fn default_allocation() -> PortfolioAllocation {
    PortfolioAllocation {
        btc_usdt: 25_000_000_000,
        eth_usdt: 15_000_000_000,
        ltc_usdt: 10_000_000_000,
        usdt: 50_000_000_000,
    }
}

impl Default for PortfolioAllocation {
    fn default() -> (r: Self)
        ensures
            r == default_allocation(),
            r.wf(),
    {
        PortfolioAllocation {
            btc_usdt: 25_000_000_000,
            eth_usdt: 15_000_000_000,
            ltc_usdt: 10_000_000_000,
            usdt: 50_000_000_000,
        }
    }
}

/// The persisted user settings.
#[derive(Clone, Debug)]
pub struct Config {
    pub api_key: String,
    pub api_secret: String,
    pub portfolio_allocation: PortfolioAllocation,
    pub rebalance_threshold: u64,
    pub min_usdt_inflow: u64,
}

/// The mathematical content of a [`Config`]: credential text as character
/// sequences, numbers as scaled values.
pub struct ConfigV {
    pub api_key: Seq<char>,
    pub api_secret: Seq<char>,
    pub portfolio_allocation: PortfolioAllocation,
    pub rebalance_threshold: u64,
    pub min_usdt_inflow: u64,
}

impl View for Config {
    type V = ConfigV;

    open spec fn view(&self) -> ConfigV {
        ConfigV {
            api_key: self.api_key@,
            api_secret: self.api_secret@,
            portfolio_allocation: self.portfolio_allocation,
            rebalance_threshold: self.rebalance_threshold,
            min_usdt_inflow: self.min_usdt_inflow,
        }
    }
}

/// The configuration a fresh installation starts from: the default
/// allocation, a five percent threshold, a minimum inflow of five, and
/// empty credentials.
pub open spec fn default_config() -> ConfigV {
    ConfigV {
        api_key: Seq::empty(),
        api_secret: Seq::empty(),
        portfolio_allocation: default_allocation(),
        rebalance_threshold: 5_000_000_000,
        min_usdt_inflow: 5_000_000_000,
    }
}

impl Default for Config {
    fn default() -> (r: Self)
        ensures
            r@ == default_config(),
    {
        Config {
            api_key: String::new(),
            api_secret: String::new(),
            portfolio_allocation: PortfolioAllocation::default(),
            rebalance_threshold: 5_000_000_000,
            min_usdt_inflow: 5_000_000_000,
        }
    }
}

/// Why a credential update was rejected.
#[derive(Clone, Copy, Debug, PartialEq, Eq, Structural)]
pub enum ApiSettingsError {
    /// A credential was empty once surrounding whitespace was stripped.
    EmptyCredentials,
}

impl Config {
    /// Stores the entered credentials, stripped of surrounding whitespace;
    /// an empty key or secret is rejected and changes nothing.
    pub fn update_api_settings(&mut self, api_key: &str, api_secret: &str) -> (r: Result<
        (),
        ApiSettingsError,
    >)
        ensures
            ({
                let k = spec_trim(api_key@);
                let sct = spec_trim(api_secret@);
                if k.len() == 0 || sct.len() == 0 {
                    &&& r == Err::<(), ApiSettingsError>(ApiSettingsError::EmptyCredentials)
                    &&& final(self)@ == old(self)@
                } else {
                    &&& r == Ok::<(), ApiSettingsError>(())
                    &&& final(self)@ == (ConfigV { api_key: k, api_secret: sct, ..old(self)@ })
                }
            }),
    {
        let k = trim_chars(&chars_of(api_key));
        let sct = trim_chars(&chars_of(api_secret));
        if k.len() == 0 || sct.len() == 0 {
            return Err(ApiSettingsError::EmptyCredentials);
        }
        self.api_key = string_from_chars(&k);
        self.api_secret = string_from_chars(&sct);
        Ok(())
    }
}

impl PartialEq for Config {
    fn eq(&self, other: &Config) -> (r: bool) {
        self.api_key == other.api_key && self.api_secret == other.api_secret
            && self.portfolio_allocation == other.portfolio_allocation
            && self.rebalance_threshold == other.rebalance_threshold && self.min_usdt_inflow
            == other.min_usdt_inflow
    }
}

impl vstd::std_specs::cmp::PartialEqSpecImpl for Config {
    open spec fn obeys_eq_spec() -> bool {
        true
    }

    open spec fn eq_spec(&self, other: &Config) -> bool {
        self@ == other@
    }
}

} // verus!
