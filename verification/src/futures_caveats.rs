//! What a reader of a futures replay must be told before believing its net R.
//!
//! A replay does not size positions, so it is optimistic about entries that a live account could
//! not afford. The report says so, says whether the contract could still have been armed, and
//! counts, for a stated account, the fills that come to no contract at all.
use vstd::prelude::*;
use vstd::arithmetic::power2::pow2;
use vstd::string::*;
use crate::binary64::{difference, magnitude_units, product, quotient, zero_units, Float};
use crate::decimal::{count_text, decimal, fixed, fixed_text};
use crate::economics::{Leg, RISK_FRACTION_BITS};

verus! {

/// The line that every futures replay carries.
pub const SIZING_CAVEAT: &'static str =
    "sizing not simulated — live may reject entries that floor to 0 contracts";

/// A futures contract: its series and its month.
#[derive(Debug, PartialEq, Eq)]
pub struct FuturesContract {
    pub root: String,
    pub contract_month: String,
}

/// Whether a contract can still be armed over the replay's window. Dates are in print.
#[derive(Debug, PartialEq, Eq)]
pub enum CloseOutVerdict {
    NotFutures,
    Armable { contract: FuturesContract, arm_by: String },
    PastArmingWindow {
        contract: FuturesContract,
        arm_by: String,
        close_out: String,
        acts_until: String,
    },
    UnknownContract { contract: FuturesContract },
}

/// What the granularity probe found.
#[derive(Clone, Copy, Debug, PartialEq, Eq)]
pub struct ProbeResult {
    /// The account size that was stated.
    pub account: Float,
    /// Legs of at least one contract.
    pub placeable: usize,
    /// Legs whose budget comes to no contract.
    pub floored_to_zero: usize,
    /// Legs that cannot be judged, because the multiplier is unknown.
    pub unknown_multiplier: usize,
}

/// What the report needs to know of a futures replay before it has legs.
pub struct FuturesContext {
    pub verdict: CloseOutVerdict,
    pub probe_account: Option<Float>,
    pub multiplier: Option<Float>,
}

/// The caveats of a futures replay.
pub struct Caveats {
    pub verdict: CloseOutVerdict,
    pub probe: Option<ProbeResult>,
}

/// A finite number above zero.
pub open spec fn positive(x: Float) -> bool {
    x.finite() && x.units() > 0
}

fn is_positive(x: Float) -> (b: bool)
    ensures
        b == positive(x),
{
    let zero: Float = Float { bits: 0 };
    proof {
        zero_units();
    }
    x.is_finite() && zero.lt(x)
}

/// The contracts that a budget affords at a stop distance, rounded down; none where any of it is
/// not a positive number.
pub open spec fn affordable(budget: Float, stop_distance: Float, multiplier: Float) -> nat {
    let risk = product(stop_distance, multiplier);
    let contracts = quotient(budget, risk);
    if !positive(budget) || !positive(stop_distance) || !positive(risk) || !positive(contracts) {
        0
    } else {
        let whole = magnitude_units(contracts.mag()) / pow2(1074);
        if whole > u32::MAX {
            u32::MAX as nat
        } else {
            whole
        }
    }
}

/// The contracts that a budget affords at a stop distance.
pub fn contracts_for(budget: Float, stop_distance: Float, multiplier: Float) -> (n: u32)
    ensures
        n == affordable(budget, stop_distance, multiplier),
{
    if !is_positive(budget) || !is_positive(stop_distance) {
        return 0;
    }
    let risk: Float = stop_distance.times(multiplier);
    if !is_positive(risk) {
        return 0;
    }
    let contracts: Float = budget.over(risk);
    if !is_positive(contracts) {
        return 0;
    }
    contracts.floor_u32()
}

/// How the probe judges one leg.
pub enum Judgement {
    Placeable,
    Floored,
    Unknown,
}

/// The judgement on a leg: unknown without a usable multiplier, else by whether its share of the
/// account affords a contract.
pub open spec fn judge(leg: Leg, account: Float, multiplier: Option<Float>) -> Judgement {
    match multiplier {
        Some(m) if positive(m) => {
            let budget = product(account, Float { bits: RISK_FRACTION_BITS });
            let distance = difference(leg.entry_price, leg.stop_loss).magnitude();
            if affordable(budget, distance, m) == 0 {
                Judgement::Floored
            } else {
                Judgement::Placeable
            }
        },
        _ => Judgement::Unknown,
    }
}

/// The number of legs with a judgement.
pub open spec fn judged(
    legs: Seq<Leg>,
    account: Float,
    multiplier: Option<Float>,
    as_what: Judgement,
) -> nat
    decreases legs.len(),
{
    if legs.len() == 0 {
        0
    } else {
        judged(legs.drop_last(), account, multiplier, as_what) + if judge(
            legs.last(),
            account,
            multiplier,
        ) == as_what {
            1nat
        } else {
            0nat
        }
    }
}

/// Counts the legs that a stated account could and could not have placed.
pub fn probe(legs: &Vec<Leg>, account: Float, multiplier: Option<Float>) -> (r: ProbeResult)
    ensures
        r.account == account,
        r.placeable == judged(legs@, account, multiplier, Judgement::Placeable),
        r.floored_to_zero == judged(legs@, account, multiplier, Judgement::Floored),
        r.unknown_multiplier == judged(legs@, account, multiplier, Judgement::Unknown),
        r.placeable + r.floored_to_zero + r.unknown_multiplier == legs@.len(),
{
    let budget: Float = account.times(Float { bits: RISK_FRACTION_BITS });
    let mut r: ProbeResult = ProbeResult {
        account,
        placeable: 0,
        floored_to_zero: 0,
        unknown_multiplier: 0,
    };
    let mut i: usize = 0;
    while i < legs.len()
        invariant
            i <= legs@.len(),
            r.account == account,
            budget == product(account, Float { bits: RISK_FRACTION_BITS }),
            r.placeable == judged(
                legs@.take(i as int),
                account,
                multiplier,
                Judgement::Placeable,
            ),
            r.floored_to_zero == judged(
                legs@.take(i as int),
                account,
                multiplier,
                Judgement::Floored,
            ),
            r.unknown_multiplier == judged(
                legs@.take(i as int),
                account,
                multiplier,
                Judgement::Unknown,
            ),
            r.placeable + r.floored_to_zero + r.unknown_multiplier == i,
        decreases legs@.len() - i,
    {
        assert(legs@.take(i + 1).drop_last() =~= legs@.take(i as int));
        let leg: Leg = legs[i];
        let usable: Option<Float> = match multiplier {
            Some(m) => if is_positive(m) {
                Some(m)
            } else {
                None
            },
            None => None,
        };
        match usable {
            None => {
                r.unknown_multiplier = r.unknown_multiplier + 1;
            },
            Some(m) => {
                let distance: Float = leg.entry_price.minus(leg.stop_loss).abs();
                assert(distance == difference(leg.entry_price, leg.stop_loss).magnitude());
                if contracts_for(budget, distance, m) == 0 {
                    r.floored_to_zero = r.floored_to_zero + 1;
                } else {
                    r.placeable = r.placeable + 1;
                }
            },
        }
        i = i + 1;
    }
    assert(legs@.take(i as int) =~= legs@);
    r
}

impl ProbeResult {
    /// The finding in one line.
    pub open spec fn text(self) -> Seq<char> {
        let total = (self.placeable + self.floored_to_zero + self.unknown_multiplier) as nat;
        if self.unknown_multiplier > 0 {
            "granularity probe: CANNOT JUDGE "@ + decimal(self.unknown_multiplier as nat) + " of "@
                + decimal(total) + " fill(s) at $"@ + fixed(self.account, 0, false)
                + " — no contract multiplier for this instrument, so the probe refuses rather than assuming 1.0"@
        } else {
            "granularity probe: "@ + decimal(self.floored_to_zero as nat) + " of "@ + decimal(total)
                + " fill(s) would floor to 0 contracts at a stated $"@ + fixed(
                self.account,
                0,
                false,
            ) + " account ("@ + decimal(self.placeable as nat) + " placeable)"@
        }
    }

    /// The finding in one line.
    pub fn line(&self) -> (s: String)
        requires
            self.placeable + self.floored_to_zero + self.unknown_multiplier <= usize::MAX,
        ensures
            s@ == self.text(),
    {
        let total: usize = self.placeable + self.floored_to_zero + self.unknown_multiplier;
        let account: String = fixed_text(self.account, 0, false);
        if self.unknown_multiplier > 0 {
            return "granularity probe: CANNOT JUDGE ".to_owned().concat(
                count_text(self.unknown_multiplier as u64).as_str(),
            ).concat(" of ").concat(count_text(total as u64).as_str()).concat(
                " fill(s) at $",
            ).concat(account.as_str()).concat(
                " — no contract multiplier for this instrument, so the probe refuses rather than assuming 1.0",
            );
        }
        "granularity probe: ".to_owned().concat(
            count_text(self.floored_to_zero as u64).as_str(),
        ).concat(" of ").concat(count_text(total as u64).as_str()).concat(
            " fill(s) would floor to 0 contracts at a stated $",
        ).concat(account.as_str()).concat(" account (").concat(
            count_text(self.placeable as u64).as_str(),
        ).concat(" placeable)")
    }
}

/// The context of a replay, by the verdict on its instrument. None for what is not a future: such
/// a replay carries no caveats.
pub fn context_for(
    verdict: CloseOutVerdict,
    probe_account: Option<Float>,
    multiplier: Option<Float>,
) -> (context: Option<FuturesContext>)
    ensures
        context == if verdict is NotFutures {
            None
        } else {
            Some(FuturesContext { verdict, probe_account, multiplier })
        },
{
    match verdict {
        CloseOutVerdict::NotFutures => None,
        verdict => Some(FuturesContext { verdict, probe_account, multiplier }),
    }
}

impl FuturesContext {
    /// The caveats, once the legs are booked: with a probe where an account was stated.
    pub fn resolve(self, legs: &Vec<Leg>) -> (caveats: Option<Caveats>)
        ensures
            caveats is None <==> self.verdict is NotFutures,
            caveats matches Some(c) ==> {
                &&& c.verdict == self.verdict
                &&& match self.probe_account {
                    None => c.probe is None,
                    Some(account) => c.probe matches Some(p) && p.account == account && p.placeable
                        == judged(legs@, account, self.multiplier, Judgement::Placeable)
                        && p.floored_to_zero == judged(
                        legs@,
                        account,
                        self.multiplier,
                        Judgement::Floored,
                    ) && p.unknown_multiplier == judged(
                        legs@,
                        account,
                        self.multiplier,
                        Judgement::Unknown,
                    ),
                }
                &&& c.printable()
            },
    {
        let found: Option<ProbeResult> = match self.probe_account {
            Some(account) => Some(probe(legs, account, self.multiplier)),
            None => None,
        };
        let n: usize = legs.len();
        assert(n == legs@.len());
        Caveats::new(self.verdict, found)
    }
}

impl Caveats {
    /// The probe's counts add up to a number that a machine holds.
    pub open spec fn printable(self) -> bool {
        self.probe matches Some(p) ==> p.placeable + p.floored_to_zero + p.unknown_multiplier
            <= usize::MAX
    }

    /// The caveats of a futures plan; none for anything else.
    pub fn new(verdict: CloseOutVerdict, probe: Option<ProbeResult>) -> (c: Option<Caveats>)
        ensures
            c == if verdict is NotFutures {
                None
            } else {
                Some(Caveats { verdict, probe })
            },
    {
        match verdict {
            CloseOutVerdict::NotFutures => None,
            verdict => Some(Caveats { verdict, probe }),
        }
    }

    /// The verdict in one line.
    pub open spec fn close_out_text(self) -> Seq<char> {
        match self.verdict {
            CloseOutVerdict::NotFutures => "not a futures contract"@,
            CloseOutVerdict::Armable { contract, arm_by } => "close-out: OK — "@ + contract.root@
                + " "@ + contract.contract_month@ + " is armable through "@ + arm_by@,
            CloseOutVerdict::PastArmingWindow { contract, arm_by, close_out, acts_until } => {
                "close-out: PAST WINDOW — "@ + contract.root@ + " "@ + contract.contract_month@
                    + " could only be armed through "@ + arm_by@ + ", but this replay runs to "@
                    + acts_until@ + " and IBKR may liquidate without notice from "@ + close_out@
                    + ". Live, this plan would have been refused."@
            },
            CloseOutVerdict::UnknownContract { contract } => "close-out: UNKNOWN — "@
                + contract.root@ + " "@ + contract.contract_month@
                + " is not in the contract calendar, so its deadline cannot be checked. Live, this plan would have been refused."@,
        }
    }

    /// The verdict in one line.
    pub fn close_out_line(&self) -> (s: String)
        ensures
            s@ == self.close_out_text(),
    {
        match &self.verdict {
            CloseOutVerdict::NotFutures => "not a futures contract".to_owned(),
            CloseOutVerdict::Armable { contract, arm_by } => "close-out: OK — ".to_owned().concat(
                contract.root.as_str(),
            ).concat(" ").concat(contract.contract_month.as_str()).concat(
                " is armable through ",
            ).concat(arm_by.as_str()),
            CloseOutVerdict::PastArmingWindow { contract, arm_by, close_out, acts_until } => {
                "close-out: PAST WINDOW — ".to_owned().concat(contract.root.as_str()).concat(
                    " ",
                ).concat(contract.contract_month.as_str()).concat(
                    " could only be armed through ",
                ).concat(arm_by.as_str()).concat(", but this replay runs to ").concat(
                    acts_until.as_str(),
                ).concat(" and IBKR may liquidate without notice from ").concat(
                    close_out.as_str(),
                ).concat(". Live, this plan would have been refused.")
            },
            CloseOutVerdict::UnknownContract { contract } => {
                "close-out: UNKNOWN — ".to_owned().concat(contract.root.as_str()).concat(
                    " ",
                ).concat(contract.contract_month.as_str()).concat(
                    " is not in the contract calendar, so its deadline cannot be checked. Live, this plan would have been refused.",
                )
            },
        }
    }

    /// The block of the report.
    pub open spec fn block(self) -> Seq<char> {
        "\nFUTURES CAVEATS\n  "@ + SIZING_CAVEAT@ + "\n  "@ + self.close_out_text() + "\n"@ + (
        match self.probe {
            Some(p) => "  "@ + p.text() + "\n"@,
            None => ""@,
        })
    }

    /// The block of the report: the sizing caveat, the verdict, and the probe where there is one.
    pub fn render(&self) -> (s: String)
        requires
            self.printable(),
        ensures
            s@ == self.block(),
    {
        let probe: String = match &self.probe {
            Some(p) => "  ".to_owned().concat(p.line().as_str()).concat("\n"),
            None => "".to_owned(),
        };
        "\nFUTURES CAVEATS\n  ".to_owned().concat(SIZING_CAVEAT).concat("\n  ").concat(
            self.close_out_line().as_str(),
        ).concat("\n").concat(probe.as_str())
    }
}

/// Legs without a usable multiplier are never counted as placeable, nor as floored.
pub proof fn an_unknown_multiplier_places_nothing(
    legs: Seq<Leg>,
    account: Float,
    multiplier: Option<Float>,
)
    requires
        !(multiplier matches Some(m) && positive(m)),
    ensures
        judged(legs, account, multiplier, Judgement::Placeable) == 0,
        judged(legs, account, multiplier, Judgement::Floored) == 0,
        judged(legs, account, multiplier, Judgement::Unknown) == legs.len(),
    decreases legs.len(),
{
    if legs.len() > 0 {
        an_unknown_multiplier_places_nothing(legs.drop_last(), account, multiplier);
    }
}

/// The contracts that a budget affords are the whole ones in the budget over the risk of one, never
/// more; none where the budget, the distance or the risk is not a positive number.
pub proof fn contracts_are_rounded_down(budget: Float, stop_distance: Float, multiplier: Float)
    ensures
        ({
            let n = affordable(budget, stop_distance, multiplier);
            let risk = product(stop_distance, multiplier);
            let q = quotient(budget, risk);
            let good = |x: Float| x.finite() && x.units() > 0;
            let counts = good(budget) && good(stop_distance) && good(risk) && good(q);
            &&& !counts ==> n == 0
            &&& counts && n < u32::MAX ==> n * pow2(1074) <= q.units() < (n + 1) * pow2(1074)
            &&& counts && n == u32::MAX ==> n * pow2(1074) <= q.units()
            &&& n <= u32::MAX
        }),
{
    let risk = product(stop_distance, multiplier);
    let q = quotient(budget, risk);
    if positive(budget) && positive(stop_distance) && positive(risk) && positive(q) {
        let u = magnitude_units(q.mag()) as int;
        let d = pow2(1074) as int;
        vstd::arithmetic::power2::lemma_pow2_pos(1074);
        assert(q.units() == u);
        vstd::arithmetic::div_mod::lemma_fundamental_div_mod(u, d);
        vstd::arithmetic::div_mod::lemma_mod_pos_bound(u, d);
        let whole = u / d;
        assert(whole * d <= u < (whole + 1) * d) by (nonlinear_arith)
            requires u == d * whole + u % d, 0 <= u % d < d;
        if whole > u32::MAX {
            assert(u32::MAX * d <= whole * d) by (nonlinear_arith)
                requires u32::MAX <= whole, d > 0;
        }
    }
}

/// A leg is judged by a hundredth of the account: placeable where that affords a contract at the
/// distance from entry to stop, floored where it affords none, and not at all without a multiplier
/// that is a positive number. The probe counts the legs of each judgement.
pub proof fn legs_are_judged_by_a_hundredth(
    legs: Seq<Leg>,
    leg: Leg,
    account: Float,
    multiplier: Option<Float>,
    as_what: Judgement,
)
    ensures
        ({
            let usable = multiplier is Some && multiplier->0.finite() && multiplier->0.units() > 0;
            let n = affordable(
                product(account, Float { bits: 0x3f84_7ae1_47ae_147b }),
                difference(leg.entry_price, leg.stop_loss).magnitude(),
                multiplier->0,
            );
            let judgement = judge(leg, account, multiplier);
            &&& judgement is Unknown <==> !usable
            &&& judgement is Floored <==> usable && n == 0
            &&& judgement is Placeable <==> usable && n >= 1
        }),
        judged(legs, account, multiplier, as_what) == legs.filter(
            |l: Leg| judge(l, account, multiplier) == as_what,
        ).len(),
    decreases legs.len(),
{
    reveal(Seq::filter);
    if legs.len() > 0 {
        legs_are_judged_by_a_hundredth(legs.drop_last(), leg, account, multiplier, as_what);
    }
}

/// A probe that could not judge some leg says so and how many; else it says how many come to no
/// contract and how many can be placed. Either way it says of how many, and at which account.
pub proof fn a_probe_says_what_it_could_not_judge(p: ProbeResult)
    ensures
        ({
            let total = (p.placeable + p.floored_to_zero + p.unknown_multiplier) as nat;
            let account = fixed(p.account, 0, false);
            &&& p.unknown_multiplier >= 1 ==> p.text() == "granularity probe: CANNOT JUDGE "@
                + decimal(p.unknown_multiplier as nat) + " of "@ + decimal(total) + " fill(s) at $"@
                + account
                + " — no contract multiplier for this instrument, so the probe refuses rather than assuming 1.0"@
            &&& p.unknown_multiplier == 0 ==> p.text() == "granularity probe: "@ + decimal(
                p.floored_to_zero as nat,
            ) + " of "@ + decimal(total)
                + " fill(s) would floor to 0 contracts at a stated $"@ + account + " account ("@
                + decimal(p.placeable as nat) + " placeable)"@
        }),
{
}

/// The caveats always name the sizing bias and the close-out, and the probe exactly where there is
/// one, in this order.
pub proof fn caveats_name_the_sizing_bias(c: Caveats)
    ensures
        ({
            let always = "\nFUTURES CAVEATS\n  "@ + SIZING_CAVEAT@ + "\n  "@ + c.close_out_text()
                + "\n"@;
            &&& c.probe is None ==> c.block() == always
            &&& c.probe is Some ==> c.block() == always + "  "@ + c.probe->0.text() + "\n"@
        }),
{
    reveal_strlit("");
    let always = "\nFUTURES CAVEATS\n  "@ + SIZING_CAVEAT@ + "\n  "@ + c.close_out_text() + "\n"@;
    assert(always + ""@ =~= always);
    if let Some(p) = c.probe {
        assert(always + ("  "@ + p.text() + "\n"@) =~= always + "  "@ + p.text() + "\n"@);
    }
}

} // verus!
