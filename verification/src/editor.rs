//! The allocation editor: raw text fields for each numeric setting, their
//! validation, and the derived cash display.

use crate::config::{Config, ConfigV, PortfolioAllocation};
use crate::num::{
    format_one_decimal, format_scaled_min, push_one_decimal, push_scaled_min, spec_parse_field,
    parse_field, HUNDRED,
};
use crate::text::{chars_of, string_from_chars};
use vstd::prelude::*;

verus! {

/// A numeric entry field of the editor, named as the validation errors
/// report it.
#[derive(Clone, Copy, Debug, PartialEq, Eq, Structural)]
pub enum Field {
    BtcUsdt,
    EthUsdt,
    LtcUsdt,
    RebalanceThreshold,
    MinUsdtInflow,
}

/// Why a set of raw editor fields was rejected.
#[derive(Clone, Copy, Debug, PartialEq, Eq, Structural)]
pub enum ValidationError {
    /// The named field does not parse as a decimal number.
    Invalid(Field),
    /// The named field parses to a negative value.
    Negative(Field),
    /// The three risk allocations sum past one hundred percent; the scaled
    /// sum is carried for the message.
    SumExceedsHundred(u128),
}

/// Raw text being edited, one string per numeric setting.  The cash field
/// is display-only: it is derived, never entered.
pub struct PortfolioAllocationEditor {
    pub btc_usdt_allocation: String,
    pub eth_usdt_allocation: String,
    pub ltc_usdt_allocation: String,
    pub usdt_allocation: String,
    pub rebalance_threshold: String,
    pub min_usdt_inflow: String,
}

/// The editor's text as character sequences.
pub struct EditorV {
    pub btc_usdt_allocation: Seq<char>,
    pub eth_usdt_allocation: Seq<char>,
    pub ltc_usdt_allocation: Seq<char>,
    pub usdt_allocation: Seq<char>,
    pub rebalance_threshold: Seq<char>,
    pub min_usdt_inflow: Seq<char>,
}

impl View for PortfolioAllocationEditor {
    type V = EditorV;

    open spec fn view(&self) -> EditorV {
        EditorV {
            btc_usdt_allocation: self.btc_usdt_allocation@,
            eth_usdt_allocation: self.eth_usdt_allocation@,
            ltc_usdt_allocation: self.ltc_usdt_allocation@,
            usdt_allocation: self.usdt_allocation@,
            rebalance_threshold: self.rebalance_threshold@,
            min_usdt_inflow: self.min_usdt_inflow@,
        }
    }
}

impl Default for PortfolioAllocationEditor {
    /// A fresh editor holds empty text in every field.
    fn default() -> (r: Self)
        ensures
            r@.btc_usdt_allocation.len() == 0,
            r@.eth_usdt_allocation.len() == 0,
            r@.ltc_usdt_allocation.len() == 0,
            r@.usdt_allocation.len() == 0,
            r@.rebalance_threshold.len() == 0,
            r@.min_usdt_inflow.len() == 0,
    {
        PortfolioAllocationEditor {
            btc_usdt_allocation: String::new(),
            eth_usdt_allocation: String::new(),
            ltc_usdt_allocation: String::new(),
            usdt_allocation: String::new(),
            rebalance_threshold: String::new(),
            min_usdt_inflow: String::new(),
        }
    }
}

/// A parsed field is negative when it carries a minus sign and a nonzero
/// magnitude; `-0` counts as zero.
pub open spec fn is_negative(v: (bool, u64)) -> bool {
    v.0 && v.1 > 0
}

/// What validation returns for given editor text over a base configuration:
/// each field must parse and be non-negative, the three risk allocations
/// must sum to at most one hundred percent, and the cash allocation is
/// derived as the exact remainder.  Fields are checked in the order they
/// appear in the editor, so the first offence names the error.
pub open spec fn spec_validate(e: EditorV, base: ConfigV) -> Result<ConfigV, ValidationError> {
    match spec_parse_field(e.btc_usdt_allocation) {
        None => Err(ValidationError::Invalid(Field::BtcUsdt)),
        Some(btc) => match spec_parse_field(e.eth_usdt_allocation) {
            None => Err(ValidationError::Invalid(Field::EthUsdt)),
            Some(eth) => match spec_parse_field(e.ltc_usdt_allocation) {
                None => Err(ValidationError::Invalid(Field::LtcUsdt)),
                Some(ltc) => spec_validate_amounts(e, base, btc, eth, ltc),
            },
        },
    }
}

/// The checks that follow once the three risk allocations have parsed.
pub open spec fn spec_validate_amounts(
    e: EditorV,
    base: ConfigV,
    btc: (bool, u64),
    eth: (bool, u64),
    ltc: (bool, u64),
) -> Result<ConfigV, ValidationError> {
    if is_negative(btc) {
        Err(ValidationError::Negative(Field::BtcUsdt))
    } else if is_negative(eth) {
        Err(ValidationError::Negative(Field::EthUsdt))
    } else if is_negative(ltc) {
        Err(ValidationError::Negative(Field::LtcUsdt))
    } else {
        let total = btc.1 + eth.1 + ltc.1;
        if total > HUNDRED {
            Err(ValidationError::SumExceedsHundred(total as u128))
        } else {
            match spec_parse_field(e.rebalance_threshold) {
                None => Err(ValidationError::Invalid(Field::RebalanceThreshold)),
                Some(th) => if is_negative(th) {
                    Err(ValidationError::Negative(Field::RebalanceThreshold))
                } else {
                    match spec_parse_field(e.min_usdt_inflow) {
                        None => Err(ValidationError::Invalid(Field::MinUsdtInflow)),
                        Some(fl) => if is_negative(fl) {
                            Err(ValidationError::Negative(Field::MinUsdtInflow))
                        } else {
                            Ok(
                                ConfigV {
                                    api_key: base.api_key,
                                    api_secret: base.api_secret,
                                    portfolio_allocation: PortfolioAllocation {
                                        btc_usdt: btc.1,
                                        eth_usdt: eth.1,
                                        ltc_usdt: ltc.1,
                                        usdt: (HUNDRED - total) as u64,
                                    },
                                    rebalance_threshold: th.1,
                                    min_usdt_inflow: fl.1,
                                },
                            )
                        },
                    }
                },
            }
        }
    }
}

/// The signed value a display computation reads from a field: an
/// unparseable field counts as zero.
pub open spec fn signed_value_or_zero(s: Seq<char>) -> int {
    match spec_parse_field(s) {
        Some(v) => if v.0 {
            -(v.1 as int)
        } else {
            v.1 as int
        },
        None => 0,
    }
}

/// The derived cash allocation the editor displays: the remainder to one
/// hundred percent, and zero once the risk total passes one hundred.
pub open spec fn spec_calculate_usdt(e: EditorV) -> int {
    let total = signed_value_or_zero(e.btc_usdt_allocation) + signed_value_or_zero(
        e.eth_usdt_allocation,
    ) + signed_value_or_zero(e.ltc_usdt_allocation);
    if total > HUNDRED {
        0
    } else {
        HUNDRED - total
    }
}

impl PortfolioAllocationEditor {
    /// Checks the raw fields and, when they pass, builds the configuration
    /// they describe over the credentials of `base`.
    pub fn validate(&self, base: &Config) -> (r: Result<Config, ValidationError>)
        ensures
            (r is Ok) == (spec_validate(self@, base@) is Ok),
            r is Ok ==> r->Ok_0@ == spec_validate(self@, base@)->Ok_0,
            r is Err ==> r->Err_0 == spec_validate(self@, base@)->Err_0,
    {
        let btc = match parse_field(&chars_of(self.btc_usdt_allocation.as_str())) {
            Some(v) => v,
            None => {
                return Err(ValidationError::Invalid(Field::BtcUsdt));
            },
        };
        let eth = match parse_field(&chars_of(self.eth_usdt_allocation.as_str())) {
            Some(v) => v,
            None => {
                return Err(ValidationError::Invalid(Field::EthUsdt));
            },
        };
        let ltc = match parse_field(&chars_of(self.ltc_usdt_allocation.as_str())) {
            Some(v) => v,
            None => {
                return Err(ValidationError::Invalid(Field::LtcUsdt));
            },
        };
        if btc.0 && btc.1 > 0 {
            return Err(ValidationError::Negative(Field::BtcUsdt));
        }
        if eth.0 && eth.1 > 0 {
            return Err(ValidationError::Negative(Field::EthUsdt));
        }
        if ltc.0 && ltc.1 > 0 {
            return Err(ValidationError::Negative(Field::LtcUsdt));
        }
        let total: u128 = btc.1 as u128 + eth.1 as u128 + ltc.1 as u128;
        if total > HUNDRED as u128 {
            return Err(ValidationError::SumExceedsHundred(total));
        }
        let th = match parse_field(&chars_of(self.rebalance_threshold.as_str())) {
            Some(v) => v,
            None => {
                return Err(ValidationError::Invalid(Field::RebalanceThreshold));
            },
        };
        if th.0 && th.1 > 0 {
            return Err(ValidationError::Negative(Field::RebalanceThreshold));
        }
        let fl = match parse_field(&chars_of(self.min_usdt_inflow.as_str())) {
            Some(v) => v,
            None => {
                return Err(ValidationError::Invalid(Field::MinUsdtInflow));
            },
        };
        if fl.0 && fl.1 > 0 {
            return Err(ValidationError::Negative(Field::MinUsdtInflow));
        }
        Ok(
            Config {
                api_key: base.api_key.clone(),
                api_secret: base.api_secret.clone(),
                portfolio_allocation: PortfolioAllocation {
                    btc_usdt: btc.1,
                    eth_usdt: eth.1,
                    ltc_usdt: ltc.1,
                    usdt: HUNDRED - (total as u64),
                },
                rebalance_threshold: th.1,
                min_usdt_inflow: fl.1,
            },
        )
    }

    /// The derived cash allocation, scaled; it can pass one hundred percent
    /// when a risk field holds a negative number, so it is carried wide.
    pub fn calculate_usdt(&self) -> (r: u128)
        ensures
            r == spec_calculate_usdt(self@),
    {
        let btc = signed_or_zero(&chars_of(self.btc_usdt_allocation.as_str()));
        let eth = signed_or_zero(&chars_of(self.eth_usdt_allocation.as_str()));
        let ltc = signed_or_zero(&chars_of(self.ltc_usdt_allocation.as_str()));
        let total: i128 = btc + eth + ltc;
        if total > HUNDRED as i128 {
            0
        } else {
            (HUNDRED as i128 - total) as u128
        }
    }

    /// The derived cash allocation as the editor shows it, rounded to one
    /// decimal place.
    pub fn get_usdt_display(&self) -> (r: String)
        ensures
            r@ == format_one_decimal(spec_calculate_usdt(self@) as nat),
    {
        let v = self.calculate_usdt();
        let mut out: Vec<char> = Vec::new();
        push_one_decimal(v, &mut out);
        string_from_chars(&out)
    }
}

/// The editor text that displays an existing configuration: risk weights
/// and amounts in their shortest decimal form, the derived cash weight
/// rounded to one decimal place, as the display always shows it.
pub open spec fn spec_editor_of_config(c: ConfigV) -> EditorV {
    EditorV {
        btc_usdt_allocation: format_scaled_min(c.portfolio_allocation.btc_usdt),
        eth_usdt_allocation: format_scaled_min(c.portfolio_allocation.eth_usdt),
        ltc_usdt_allocation: format_scaled_min(c.portfolio_allocation.ltc_usdt),
        usdt_allocation: format_one_decimal(c.portfolio_allocation.usdt as nat),
        rebalance_threshold: format_scaled_min(c.rebalance_threshold),
        min_usdt_inflow: format_scaled_min(c.min_usdt_inflow),
    }
}

impl PortfolioAllocationEditor {
    /// Fills the editor with the text of an existing configuration.
    pub fn from_config(c: &Config) -> (e: Self)
        ensures
            e@ == spec_editor_of_config(c@),
    {
        let e = PortfolioAllocationEditor {
            btc_usdt_allocation: scaled_min_string(c.portfolio_allocation.btc_usdt),
            eth_usdt_allocation: scaled_min_string(c.portfolio_allocation.eth_usdt),
            ltc_usdt_allocation: scaled_min_string(c.portfolio_allocation.ltc_usdt),
            usdt_allocation: one_decimal_string(c.portfolio_allocation.usdt),
            rebalance_threshold: scaled_min_string(c.rebalance_threshold),
            min_usdt_inflow: scaled_min_string(c.min_usdt_inflow),
        };
        e
    }

    /// Validates the edited fields and, when they pass, stores the result
    /// in `config` and refreshes the derived cash display; a rejected edit
    /// changes nothing.
    pub fn update_config_from_editor(&mut self, config: &mut Config) -> (r: Result<
        (),
        ValidationError,
    >)
        ensures
            (r is Ok) == (spec_validate(old(self)@, old(config)@) is Ok),
            r is Ok ==> final(config)@ == spec_validate(old(self)@, old(config)@)->Ok_0,
            r is Ok ==> final(self)@ == (EditorV {
                usdt_allocation: format_one_decimal(
                    spec_validate(old(self)@, old(config)@)->Ok_0.portfolio_allocation.usdt as nat,
                ),
                ..old(self)@
            }),
            r is Err ==> r->Err_0 == spec_validate(old(self)@, old(config)@)->Err_0,
            r is Err ==> final(config)@ == old(config)@ && final(self)@ == old(self)@,
    {
        match self.validate(config) {
            Ok(c) => {
                let usdt = c.portfolio_allocation.usdt;
                *config = c;
                self.usdt_allocation = one_decimal_string(usdt);
                Ok(())
            },
            Err(e) => Err(e),
        }
    }
}

fn scaled_min_string(v: u64) -> (r: String)
    ensures
        r@ == format_scaled_min(v),
{
    let mut out: Vec<char> = Vec::new();
    push_scaled_min(v, &mut out);
    string_from_chars(&out)
}

fn one_decimal_string(v: u64) -> (r: String)
    ensures
        r@ == format_one_decimal(v as nat),
{
    let mut out: Vec<char> = Vec::new();
    push_one_decimal(v as u128, &mut out);
    string_from_chars(&out)
}

/// Validation accepts every set of fields that parse to non-negative values
/// whose risk total stays within one hundred percent, keeps the entered
/// weights and amounts exactly, keeps the credentials of the base
/// configuration, and derives the cash allocation as the exact remainder.
pub proof fn lemma_validate_in_range_succeeds(
    e: EditorV,
    base: ConfigV,
    btc: (bool, u64),
    eth: (bool, u64),
    ltc: (bool, u64),
    th: (bool, u64),
    fl: (bool, u64),
)
    requires
        spec_parse_field(e.btc_usdt_allocation) == Some(btc),
        spec_parse_field(e.eth_usdt_allocation) == Some(eth),
        spec_parse_field(e.ltc_usdt_allocation) == Some(ltc),
        spec_parse_field(e.rebalance_threshold) == Some(th),
        spec_parse_field(e.min_usdt_inflow) == Some(fl),
        !is_negative(btc),
        !is_negative(eth),
        !is_negative(ltc),
        !is_negative(th),
        !is_negative(fl),
        btc.1 + eth.1 + ltc.1 <= HUNDRED,
    ensures
        spec_validate(e, base) is Ok,
        ({
            let c = spec_validate(e, base)->Ok_0;
            &&& c.portfolio_allocation.btc_usdt == btc.1
            &&& c.portfolio_allocation.eth_usdt == eth.1
            &&& c.portfolio_allocation.ltc_usdt == ltc.1
            &&& c.portfolio_allocation.usdt == HUNDRED - (btc.1 + eth.1 + ltc.1)
            &&& c.portfolio_allocation.wf()
            &&& c.rebalance_threshold == th.1
            &&& c.min_usdt_inflow == fl.1
            &&& c.api_key == base.api_key
            &&& c.api_secret == base.api_secret
        }),
{
}

/// A risk total past one hundred percent is rejected with the sum it
/// reached; `update_config_from_editor` then leaves the configuration
/// unchanged.
pub proof fn lemma_validate_sum_exceeded(
    e: EditorV,
    base: ConfigV,
    btc: (bool, u64),
    eth: (bool, u64),
    ltc: (bool, u64),
)
    requires
        spec_parse_field(e.btc_usdt_allocation) == Some(btc),
        spec_parse_field(e.eth_usdt_allocation) == Some(eth),
        spec_parse_field(e.ltc_usdt_allocation) == Some(ltc),
        !is_negative(btc),
        !is_negative(eth),
        !is_negative(ltc),
        btc.1 + eth.1 + ltc.1 > HUNDRED,
    ensures
        spec_validate(e, base) == Err::<ConfigV, ValidationError>(
            ValidationError::SumExceedsHundred((btc.1 + eth.1 + ltc.1) as u128),
        ),
{
}

/// A negative entry in any numeric field is rejected with an error naming
/// that field: the first offending field in editor order decides, and a
/// negative threshold or inflow is reported once the allocation checks
/// pass.
pub proof fn lemma_validate_negative_field(
    e: EditorV,
    base: ConfigV,
    f: Field,
    btc: (bool, u64),
    eth: (bool, u64),
    ltc: (bool, u64),
    th: (bool, u64),
    fl: (bool, u64),
)
    requires
        spec_parse_field(e.btc_usdt_allocation) == Some(btc),
        spec_parse_field(e.eth_usdt_allocation) == Some(eth),
        spec_parse_field(e.ltc_usdt_allocation) == Some(ltc),
        spec_parse_field(e.rebalance_threshold) == Some(th),
        spec_parse_field(e.min_usdt_inflow) == Some(fl),
        match f {
            Field::BtcUsdt => is_negative(btc),
            Field::EthUsdt => !is_negative(btc) && is_negative(eth),
            Field::LtcUsdt => !is_negative(btc) && !is_negative(eth) && is_negative(ltc),
            Field::RebalanceThreshold => !is_negative(btc) && !is_negative(eth) && !is_negative(
                ltc,
            ) && btc.1 + eth.1 + ltc.1 <= HUNDRED && is_negative(th),
            Field::MinUsdtInflow => !is_negative(btc) && !is_negative(eth) && !is_negative(ltc)
                && btc.1 + eth.1 + ltc.1 <= HUNDRED && !is_negative(th) && is_negative(fl),
        },
    ensures
        spec_validate(e, base) == Err::<ConfigV, ValidationError>(ValidationError::Negative(f)),
{
}

/// The signed value of one field, zero when it does not parse.
fn signed_or_zero(s: &Vec<char>) -> (r: i128)
    ensures
        r == signed_value_or_zero(s@),
        -0xffff_ffff_ffff_ffff_i128 <= r <= 0xffff_ffff_ffff_ffff_i128,
{
    match parse_field(s) {
        Some((neg, mag)) => if neg {
            -(mag as i128)
        } else {
            mag as i128
        },
        None => 0,
    }
}

} // verus!
