//! Per-model prices.
//!
//! A provider's price table is fetched once in a while; a burn row whose window
//! names a priced model gets a cost fragment such as `$0.4/h`.
use crate::burn::fraction;
use crate::ratio::{
    as_double, double_den, double_exponent, double_num, nearest_even, Integer, Ratio,
};
use crate::text::{opt_str_view, opt_view, same};
use crate::util::{fixed_text, fraction_of, push_fixed};
use vstd::prelude::*;

verus! {

/// USD per token of one model.
pub struct ModelPricing {
    pub prompt_per_token: Ratio,
    pub completion_per_token: Ratio,
    /// Cheaper rate for cached input, where the provider has one.
    pub input_cache_read_per_token: Option<Ratio>,
}

/// Prices of one model as the endpoint gave them: the bits of the double that
/// each decimal text was parsed to, `None` where it is missing or no number.
#[derive(Debug, Clone, Copy)]
pub struct WirePricing {
    pub prompt: Option<u64>,
    pub completion: Option<u64>,
    pub input_cache_read: Option<u64>,
}

/// One model of the endpoint's answer.
#[derive(Debug)]
pub struct WireModelEntry {
    pub id: String,
    pub pricing: WirePricing,
}

/// A parsed price as a fraction: zero unless it is finite and positive.
pub open spec fn price_of(parsed: Option<u64>) -> (int, int) {
    match parsed {
        Some(bits) => if double_exponent(bits) != 0x7ff && double_num(bits) > 0 {
            (double_num(bits), double_den(bits))
        } else {
            (0, 1)
        },
        None => (0, 1),
    }
}

/// A price that was parsed to a double: anything that is not a finite positive
/// number counts as free.
pub fn parse_rate(parsed: Option<u64>) -> (r: Ratio)
    ensures
        (r.num(), r.den()) == price_of(parsed),
{
    if let Some(bits) = parsed {
        if let Some(v) = Ratio::from_double_bits(bits) {
            if v.is_positive() {
                return v;
            }
        }
    }
    Ratio::from_u64(0)
}

/// Prices of a model; a cached-input price of zero is no price.
pub open spec fn pricing_of(p: WirePricing, m: ModelPricing) -> bool {
    &&& (m.prompt_per_token.num(), m.prompt_per_token.den()) == price_of(p.prompt)
    &&& (m.completion_per_token.num(), m.completion_per_token.den()) == price_of(p.completion)
    &&& match m.input_cache_read_per_token {
        Some(v) => price_of(p.input_cache_read).0 > 0 && (v.num(), v.den()) == price_of(
            p.input_cache_read,
        ),
        None => price_of(p.input_cache_read).0 <= 0,
    }
}

/// The prices of one wire entry.
pub fn build_pricing(p: &WirePricing) -> (r: ModelPricing)
    ensures
        pricing_of(*p, r),
{
    let cached = parse_rate(p.input_cache_read);
    ModelPricing {
        prompt_per_token: parse_rate(p.prompt),
        completion_per_token: parse_rate(p.completion),
        input_cache_read_per_token: if cached.is_positive() {
            Some(cached)
        } else {
            None
        },
    }
}

// ---------------------------------------------------------------------------
// Table
// ---------------------------------------------------------------------------

/// Prices by model id; no id occurs twice.
pub struct PriceTable {
    entries: Vec<(String, ModelPricing)>,
}

/// The ids of `s` are pairwise distinct.
spec fn distinct_ids(s: Seq<(String, ModelPricing)>) -> bool {
    forall|i: int, j: int|
        0 <= i < j < s.len() ==> (#[trigger] s[i]).0@ != (#[trigger] s[j]).0@
}

impl PriceTable {
    #[verifier::type_invariant]
    spec fn well_formed(&self) -> bool {
        distinct_ids(self.entries@)
    }

    /// The prices listed under `id`, if any.
    pub closed spec fn lookup(&self, id: Seq<char>) -> Option<ModelPricing> {
        if exists|i: int| 0 <= i < self.entries@.len() && (#[trigger] self.entries@[i]).0@ == id {
            Some(
                self.entries@[choose|i: int|
                    0 <= i < self.entries@.len() && (#[trigger] self.entries@[i]).0@ == id].1,
            )
        } else {
            None
        }
    }

    /// How many models are listed.
    pub closed spec fn count(&self) -> nat {
        self.entries@.len()
    }

    /// An empty table.
    pub fn new() -> (r: PriceTable)
        ensures
            r.count() == 0,
            forall|id: Seq<char>| #[trigger] r.lookup(id) is None,
    {
        PriceTable { entries: Vec::new() }
    }

    /// Whether no model is listed.
    pub fn is_empty(&self) -> (r: bool)
        ensures
            r == (self.count() == 0),
    {
        self.entries.len() == 0
    }

    fn position(&self, id: &str) -> (r: Option<usize>)
        ensures
            match r {
                Some(i) => i < self.entries@.len() && self.entries@[i as int].0@ == id@,
                None => forall|i: int|
                    0 <= i < self.entries@.len() ==> (#[trigger] self.entries@[i]).0@ != id@,
            },
    {
        let mut i: usize = 0;
        while i < self.entries.len()
            invariant
                i <= self.entries@.len(),
                forall|j: int| 0 <= j < i ==> (#[trigger] self.entries@[j]).0@ != id@,
            decreases self.entries@.len() - i,
        {
            if same(self.entries[i].0.as_str(), id) {
                return Some(i);
            }
            i += 1;
        }
        None
    }

    proof fn lemma_lookup(&self, i: int)
        requires
            distinct_ids(self.entries@),
            0 <= i < self.entries@.len(),
        ensures
            self.lookup(self.entries@[i].0@) == Some(self.entries@[i].1),
    {
        let id = self.entries@[i].0@;
        let k = choose|k: int|
            0 <= k < self.entries@.len() && (#[trigger] self.entries@[k]).0@ == id;
        assert(self.entries@[k].0@ == id);
        if k < i {
            assert(self.entries@[k].0@ != self.entries@[i].0@);
        } else if i < k {
            assert(self.entries@[i].0@ != self.entries@[k].0@);
        }
    }

    /// The prices of `id`.
    pub fn get(&self, id: &str) -> (r: Option<&ModelPricing>)
        ensures
            match r {
                Some(m) => self.lookup(id@) == Some(*m),
                None => self.lookup(id@) is None,
            },
    {
        proof {
            use_type_invariant(self);
        }
        match self.position(id) {
            Some(i) => {
                proof {
                    self.lemma_lookup(i as int);
                }
                Some(&self.entries[i].1)
            },
            None => None,
        }
    }

    /// Lists `pricing` under `id`, in place of what stood there.
    pub fn insert(self, id: String, pricing: ModelPricing) -> (r: PriceTable)
        ensures
            r.lookup(id@) == Some(pricing),
            forall|other: Seq<char>| other != id@ ==> #[trigger] r.lookup(other) == self.lookup(
                other,
            ),
            r.count() == (if self.lookup(id@) is Some {
                self.count()
            } else {
                self.count() + 1
            }),
    {
        proof {
            use_type_invariant(&self);
        }
        let at = self.position(id.as_str());
        let ghost before = self;
        let mut entries = self.entries;
        match at {
            Some(i) => {
                entries.set(i, (id, pricing));
                let r = PriceTable { entries };
                proof {
                    before.lemma_lookup(i as int);
                    r.lemma_lookup(i as int);
                    assert forall|other: Seq<char>| other != id@ implies #[trigger] r.lookup(other)
                        == before.lookup(other) by {
                        lemma_same_lookup(before, r, other);
                    }
                }
                r
            },
            None => {
                entries.push((id, pricing));
                let r = PriceTable { entries };
                proof {
                    r.lemma_lookup(entries@.len() - 1);
                    assert forall|other: Seq<char>| other != id@ implies #[trigger] r.lookup(other)
                        == before.lookup(other) by {
                        lemma_same_lookup(before, r, other);
                    }
                }
                r
            },
        }
    }
}

proof fn lemma_same_lookup(a: PriceTable, b: PriceTable, id: Seq<char>)
    requires
        distinct_ids(a.entries@),
        distinct_ids(b.entries@),
        a.entries@.len() <= b.entries@.len(),
        forall|i: int|
            0 <= i < b.entries@.len() && (#[trigger] b.entries@[i]).0@ == id ==> i
                < a.entries@.len() && a.entries@[i] == b.entries@[i],
        forall|i: int|
            0 <= i < a.entries@.len() && (#[trigger] a.entries@[i]).0@ == id ==> b.entries@[i]
                == a.entries@[i],
    ensures
        a.lookup(id) == b.lookup(id),
{
    if a.lookup(id) is Some {
        let i = choose|i: int| 0 <= i < a.entries@.len() && (#[trigger] a.entries@[i]).0@ == id;
        a.lemma_lookup(i);
        b.lemma_lookup(i);
        assert(b.entries@[i].0@ == id);
    }
    if b.lookup(id) is Some {
        let i = choose|i: int| 0 <= i < b.entries@.len() && (#[trigger] b.entries@[i]).0@ == id;
        b.lemma_lookup(i);
        a.lemma_lookup(i);
        assert(a.entries@[i].0@ == id);
    }
}

/// The last of `entries` with a given id, if any carries it.
pub open spec fn last_with_id(entries: Seq<WireModelEntry>, id: Seq<char>) -> Option<WireModelEntry>
    decreases entries.len(),
{
    if entries.len() == 0 {
        None
    } else if entries.last().id@ == id {
        Some(entries.last())
    } else {
        last_with_id(entries.drop_last(), id)
    }
}

/// Whether `table` lists exactly the named models of `entries`, a later entry
/// replacing an earlier one with its id.
pub open spec fn lists(table: PriceTable, entries: Seq<WireModelEntry>) -> bool {
    forall|id: Seq<char>|
        match #[trigger] table.lookup(id) {
            Some(m) => id.len() > 0 && last_with_id(entries, id) is Some && pricing_of(
                last_with_id(entries, id)->0.pricing,
                m,
            ),
            None => id.len() == 0 || last_with_id(entries, id) is None,
        }
}

/// The price table of an endpoint's answer. Entries without an id are skipped.
pub fn build_table(entries: &Vec<WireModelEntry>) -> (r: PriceTable)
    ensures
        lists(r, entries@),
{
    let mut table = PriceTable::new();
    let mut i: usize = 0;
    while i < entries.len()
        invariant
            i <= entries.len(),
            lists(table, entries@.take(i as int)),
        decreases entries.len() - i,
    {
        let ghost before = table;
        proof {
            assert(entries@.take(i + 1).drop_last() =~= entries@.take(i as int));
            assert(entries@.take(i + 1).last() == entries@[i as int]);
        }
        if !entries[i].id.as_str().is_empty() {
            table = table.insert(entries[i].id.clone(), build_pricing(&entries[i].pricing));
            assert forall|id: Seq<char>|
                match #[trigger] table.lookup(id) {
                    Some(m) => id.len() > 0 && last_with_id(entries@.take(i + 1), id) is Some
                        && pricing_of(last_with_id(entries@.take(i + 1), id)->0.pricing, m),
                    None => id.len() == 0 || last_with_id(entries@.take(i + 1), id) is None,
                } by {
                let old_entry = before.lookup(id);
            }
        } else {
            assert forall|id: Seq<char>|
                match #[trigger] table.lookup(id) {
                    Some(m) => id.len() > 0 && last_with_id(entries@.take(i + 1), id) is Some
                        && pricing_of(last_with_id(entries@.take(i + 1), id)->0.pricing, m),
                    None => id.len() == 0 || last_with_id(entries@.take(i + 1), id) is None,
                } by {}
        }
        i += 1;
    }
    assert(entries@.take(entries.len() as int) =~= entries@);
    table
}

/// What came back from the price list's endpoint.
#[derive(Debug)]
pub enum PriceReply {
    /// No reply at all.
    Unreachable,
    /// A status other than success.
    Refused { status: String },
    /// Success, but no price list.
    Malformed,
    Listed { entries: Vec<WireModelEntry> },
}

/// Why there is no price table.
#[derive(Debug)]
pub enum PricingError {
    Unreachable { url: String },
    Status { status: String },
    Decoding { url: String },
}

impl PricingError {
    /// The error as text.
    pub open spec fn text(&self) -> Seq<char> {
        match *self {
            PricingError::Unreachable { url } => "GET "@ + url@,
            PricingError::Status { status } => "pricing endpoint returned HTTP "@ + status@,
            PricingError::Decoding { url } => "decoding pricing JSON from "@ + url@,
        }
    }

    /// The error as text.
    pub fn message(&self) -> (r: String)
        ensures
            r@ == self.text(),
    {
        match self {
            PricingError::Unreachable { url } => "GET ".to_owned().concat(url.as_str()),
            PricingError::Status { status } => "pricing endpoint returned HTTP ".to_owned().concat(
                status.as_str(),
            ),
            PricingError::Decoding { url } => "decoding pricing JSON from ".to_owned().concat(
                url.as_str(),
            ),
        }
    }
}

/// The price table in a reply, or why there is none.
pub fn read_price_reply(url: &str, reply: &PriceReply) -> (r: Result<PriceTable, PricingError>)
    ensures
        match *reply {
            PriceReply::Unreachable => r matches Err(PricingError::Unreachable { url: u }) && u@
                == url@,
            PriceReply::Refused { status } => r matches Err(PricingError::Status { status: s })
                && s@ == status@,
            PriceReply::Malformed => r matches Err(PricingError::Decoding { url: u }) && u@ == url@,
            PriceReply::Listed { entries } => r matches Ok(table) && lists(table, entries@),
        },
{
    match reply {
        PriceReply::Unreachable => Err(PricingError::Unreachable { url: url.to_owned() }),
        PriceReply::Refused { status } => Err(PricingError::Status { status: status.clone() }),
        PriceReply::Malformed => Err(PricingError::Decoding { url: url.to_owned() }),
        PriceReply::Listed { entries } => Ok(build_table(entries)),
    }
}

// ---------------------------------------------------------------------------
// Cost
// ---------------------------------------------------------------------------

/// A share brought into 0 to 1.
pub open spec fn clamp_share(share: (int, int)) -> (int, int) {
    if share.0 < 0 {
        (0, 1)
    } else if share.0 > share.1 {
        (1, 1)
    } else {
        share
    }
}

/// The product of two doubles, as a double.
pub open spec fn double_product(a: Option<(int, int)>, b: Option<(int, int)>) -> Option<
    (int, int),
> {
    match (a, b) {
        (Some(x), Some(y)) => as_double((x.0 * y.0, x.1 * y.1)),
        _ => None,
    }
}

/// The sum of two doubles, as a double.
pub open spec fn double_sum(a: Option<(int, int)>, b: Option<(int, int)>) -> Option<(int, int)> {
    match (a, b) {
        (Some(x), Some(y)) => as_double((x.0 * y.1 + y.0 * x.1, x.1 * y.1)),
        _ => None,
    }
}

/// What is left of one, as a double.
pub open spec fn double_rest(share: Option<(int, int)>) -> Option<(int, int)> {
    match share {
        Some(s) => as_double((s.1 - s.0, s.1)),
        None => None,
    }
}

/// USD per hour of `tokens` per hour, `share` of them prompt tokens, where every
/// step is a finite double.
pub open spec fn usd_per_hour(
    tokens: Option<(int, int)>,
    share: Option<(int, int)>,
    prompt: Option<(int, int)>,
    completion: Option<(int, int)>,
) -> Option<(int, int)> {
    double_sum(
        double_product(double_product(tokens, share), prompt),
        double_product(double_product(tokens, double_rest(share)), completion),
    )
}

/// The cost fragment: nothing without a known model, a positive finite rate
/// and a share, or below a tenth of a cent.
pub open spec fn cost_fragment(
    pricing: Option<ModelPricing>,
    tokens: Option<(int, int)>,
    share: Option<(int, int)>,
) -> Option<Seq<char>> {
    match (pricing, tokens, share) {
        (Some(m), Some(t), Some(s)) => {
            let usd = usd_per_hour(
                as_double(t),
                as_double(clamp_share(s)),
                as_double((m.prompt_per_token.num(), m.prompt_per_token.den())),
                as_double((m.completion_per_token.num(), m.completion_per_token.den())),
            );
            match usd {
                Some(u) => if t.0 <= 0 || 1000 * u.0 < u.1 {
                    None
                } else {
                    Some("$"@ + fixed_text(nearest_even(10_000 * u.0, u.1) as nat, 4) + "/h"@)
                },
                None => None,
            }
        },
        _ => None,
    }
}

/// The model that a window names, if the table lists it.
pub open spec fn priced(table: PriceTable, model: Option<Seq<char>>) -> Option<ModelPricing> {
    match model {
        Some(id) => table.lookup(id),
        None => None,
    }
}

/// The product of two doubles, as a double where it is finite.
fn product(a: &Ratio, b: &Ratio) -> (r: Option<Ratio>)
    ensures
        fraction(r) == double_product(
            Some((a.num(), a.den())),
            Some((b.num(), b.den())),
        ),
{
    a.times(b).to_double()
}

/// USD per hour of `tokens` per hour, `share` of them prompt tokens.
fn hourly_usd(tokens: &Ratio, share: &Ratio, pricing: &ModelPricing) -> (r: Option<Ratio>)
    ensures
        fraction(r) == usd_per_hour(
            as_double((tokens.num(), tokens.den())),
            as_double((share.num(), share.den())),
            as_double((pricing.prompt_per_token.num(), pricing.prompt_per_token.den())),
            as_double((pricing.completion_per_token.num(), pricing.completion_per_token.den())),
        ),
{
    let rate = tokens.to_double()?;
    let part = share.to_double()?;
    let den = part.denominator();
    let rest = Ratio::new(den.minus(&part.numerator()), den).to_double()?;
    let prompt_tokens = product(&rate, &part)?;
    let completion_tokens = product(&rate, &rest)?;
    let prompt = product(&prompt_tokens, &pricing.prompt_per_token.to_double()?)?;
    let completion = product(&completion_tokens, &pricing.completion_per_token.to_double()?)?;
    prompt.plus(&completion).to_double()
}

/// USD per hour of a token rate, as text. `None` for `tokens_per_hour` stands for
/// a rate that is not finite, and for `prompt_share` for one that is not a number.
/// Shares outside 0 to 1 are clamped, so any number above 1 stands for an infinite
/// one.
///
/// Every step of the cost is rounded to the nearest double, and the text is that
/// of the double.
pub fn cost_per_hour(
    table: &PriceTable,
    model: Option<&str>,
    tokens_per_hour: Option<&Ratio>,
    prompt_share: Option<&Ratio>,
) -> (r: Option<String>)
    ensures
        opt_view(r) == cost_fragment(
            priced(*table, opt_str_view(model)),
            fraction_of(tokens_per_hour),
            fraction_of(prompt_share),
        ),
{
    let id = match model {
        Some(id) => id,
        None => return None,
    };
    let pricing = match table.get(id) {
        Some(m) => m,
        None => return None,
    };
    let tokens = match tokens_per_hour {
        Some(t) => t,
        None => return None,
    };
    let share = match prompt_share {
        Some(s) => s,
        None => return None,
    };
    if !tokens.is_positive() {
        return None;
    }
    let num = share.numerator();
    let clamped = if num.less_than(&Integer::zero()) {
        Ratio::from_u64(0)
    } else if share.denominator().less_than(&num) {
        Ratio::from_u64(1)
    } else {
        share.copy()
    };
    let usd = match hourly_usd(tokens, &clamped, pricing) {
        Some(u) => u,
        None => return None,
    };
    let num = usd.numerator();
    let den = usd.denominator();
    if Integer::from_u64(1000).times(&num).less_than(&den) {
        return None;
    }
    let mut out = String::new();
    out.append("$");
    push_fixed(&mut out, &Integer::from_u64(10_000).times(&num).rounded_even(&den), 4);
    out.append("/h");
    assert(out@ =~= "$"@ + fixed_text(nearest_even(10_000 * num@, den@) as nat, 4) + "/h"@);
    Some(out)
}

// ---------------------------------------------------------------------------
// Laws
// ---------------------------------------------------------------------------

/// A price is what was parsed, where that is a positive number, and nothing otherwise;
/// each price of a model comes from its own field.
pub proof fn law_prices_are_what_was_parsed(bits: u64, p: WirePricing, m: ModelPricing)
    ensures
        double_exponent(bits) != 0x7ff && double_num(bits) > 0 ==> price_of(Some(bits)) == (
            double_num(bits),
            double_den(bits),
        ),
        double_exponent(bits) == 0x7ff || double_num(bits) <= 0 ==> price_of(Some(bits)).0 == 0,
        price_of(None).0 == 0,
        pricing_of(p, m) ==> {
            &&& (m.prompt_per_token.num(), m.prompt_per_token.den()) == price_of(p.prompt)
            &&& (m.completion_per_token.num(), m.completion_per_token.den()) == price_of(
                p.completion,
            )
            &&& m.input_cache_read_per_token matches Some(v) ==> (v.num(), v.den()) == price_of(
                p.input_cache_read,
            ) && v.num() > 0
            &&& m.input_cache_read_per_token is None ==> price_of(p.input_cache_read).0 <= 0
        },
{
}

/// A table lists every named model of the answer, at the prices of its last entry, and
/// no other.
pub proof fn law_tables_list_the_last_entry(
    table: PriceTable,
    entries: Seq<WireModelEntry>,
    i: int,
    id: Seq<char>,
)
    requires
        lists(table, entries),
    ensures
        0 <= i < entries.len() && entries[i].id@.len() > 0 && (forall|k: int|
            i < k < entries.len() ==> (#[trigger] entries[k]).id@ != entries[i].id@) ==> (
        table.lookup(entries[i].id@) matches Some(m) && pricing_of(entries[i].pricing, m)),
        (forall|k: int| 0 <= k < entries.len() ==> (#[trigger] entries[k]).id@ != id)
            ==> table.lookup(id) is None,
        table.lookup(Seq::empty()) is None,
{
    if 0 <= i < entries.len() && entries[i].id@.len() > 0 && (forall|k: int|
        i < k < entries.len() ==> (#[trigger] entries[k]).id@ != entries[i].id@) {
        lemma_last_entry(entries, i);
        let found = table.lookup(entries[i].id@);
    }
    if forall|k: int| 0 <= k < entries.len() ==> (#[trigger] entries[k]).id@ != id {
        lemma_no_entry(entries, id);
        let found = table.lookup(id);
    }
    let unnamed = table.lookup(Seq::empty());
}

proof fn lemma_last_entry(entries: Seq<WireModelEntry>, i: int)
    requires
        0 <= i < entries.len(),
        forall|k: int| i < k < entries.len() ==> (#[trigger] entries[k]).id@ != entries[i].id@,
    ensures
        last_with_id(entries, entries[i].id@) == Some(entries[i]),
    decreases entries.len(),
{
    if i < entries.len() - 1 {
        let init = entries.drop_last();
        assert(entries.last().id@ != entries[i].id@);
        assert(init[i] == entries[i]);
        assert forall|k: int| i < k < init.len() implies (#[trigger] init[k]).id@ != init[i].id@ by {
            assert(init[k] == entries[k]);
        }
        lemma_last_entry(init, i);
    }
}

proof fn lemma_no_entry(entries: Seq<WireModelEntry>, id: Seq<char>)
    requires
        forall|k: int| 0 <= k < entries.len() ==> (#[trigger] entries[k]).id@ != id,
    ensures
        last_with_id(entries, id) is None,
    decreases entries.len(),
{
    if entries.len() > 0 {
        let init = entries.drop_last();
        assert(entries.last().id@ != id);
        assert forall|k: int| 0 <= k < init.len() implies (#[trigger] init[k]).id@ != id by {
            assert(init[k] == entries[k]);
        }
        lemma_no_entry(init, id);
    }
}

/// The cost of a rate is that of its prompt tokens and that of the others, each step a
/// double: the share of the rate at the prompt price, and the rest of it at the
/// completion price. Below a tenth of a cent, and without a model, a positive rate or a
/// share, there is none; else it is written with four decimals, to the nearest, without
/// trailing zeros.
pub proof fn law_costs_add_up_prompt_and_completion(
    m: ModelPricing,
    tokens: (int, int),
    share: (int, int),
    n: nat,
)
    requires
        tokens.1 > 0,
        share.1 > 0,
    ensures
        ({
            let s = if share.0 < 0 {
                (0int, 1int)
            } else if share.0 > share.1 {
                (1int, 1int)
            } else {
                share
            };
            let text = cost_fragment(Some(m), Some(tokens), Some(share));
            let t = as_double(tokens);
            let ps = as_double(s);
            let pp = as_double((m.prompt_per_token.num(), m.prompt_per_token.den()));
            let cp = as_double((m.completion_per_token.num(), m.completion_per_token.den()));
            &&& tokens.0 <= 0 ==> text is None
            &&& (t is Some && ps is Some && pp is Some && cp is Some && tokens.0 > 0) ==> {
                let (t, ps, pp, cp) = (t->0, ps->0, pp->0, cp->0);
                let x = as_double((t.0 * ps.0, t.1 * ps.1));
                let rest = as_double((ps.1 - ps.0, ps.1));
                (x is Some && rest is Some) ==> {
                    let (x, rest) = (x->0, rest->0);
                    let y = as_double((t.0 * rest.0, t.1 * rest.1));
                    let a = as_double((x.0 * pp.0, x.1 * pp.1));
                    (y is Some && a is Some) ==> {
                        let (y, a) = (y->0, a->0);
                        let b = as_double((y.0 * cp.0, y.1 * cp.1));
                        b is Some ==> {
                            let b = b->0;
                            let sum = as_double((a.0 * b.1 + b.0 * a.1, a.1 * b.1));
                            &&& sum is None ==> text is None
                            &&& sum matches Some(u) ==> (1000 * u.0 < u.1 ==> text is None) && (1000
                                * u.0 >= u.1 && u.1 > 0 && crate::util::evenly_rounds_to(
                                (10_000 * u.0, u.1),
                                n as int,
                            ) ==> text == Some("$"@ + fixed_text(n, 4) + "/h"@))
                        }
                    }
                }
            }
        }),
        cost_fragment(None, Some(tokens), Some(share)) is None,
        cost_fragment(Some(m), None, Some(share)) is None,
        cost_fragment(Some(m), Some(tokens), None) is None,
{
    let usd = usd_per_hour(
        as_double(tokens),
        as_double(clamp_share(share)),
        as_double((m.prompt_per_token.num(), m.prompt_per_token.den())),
        as_double((m.completion_per_token.num(), m.completion_per_token.den())),
    );
    if let Some(u) = usd {
        if 1000 * u.0 >= u.1 && u.1 > 0 && crate::util::evenly_rounds_to(
            (10_000 * u.0, u.1),
            n as int,
        ) {
            crate::util::lemma_evenly_rounds_to((10_000 * u.0, u.1), n as int);
        }
    }
}

/// Errors name what failed: the endpoint that could not be reached or read, or the
/// status it returned.
pub proof fn law_pricing_errors_name_what_failed(e: PricingError)
    ensures
        e matches PricingError::Unreachable { url } ==> e.text() == "GET "@ + url@,
        e matches PricingError::Status { status } ==> e.text()
            == "pricing endpoint returned HTTP "@ + status@,
        e matches PricingError::Decoding { url } ==> e.text() == "decoding pricing JSON from "@
            + url@,
{
}

/// A window's price is that of the model it names, if the table lists it; a window
/// without a model has none.
pub proof fn law_windows_are_priced_by_their_model(table: PriceTable, id: Seq<char>)
    ensures
        priced(table, Some(id)) == table.lookup(id),
        priced(table, None) is None,
{
}

} // verus!
