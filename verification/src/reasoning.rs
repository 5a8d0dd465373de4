use vstd::prelude::*;
use vstd::string::StringSliceAdditionalSpecFns;
use crate::text::{contains_seq, contains_sub};

verus! {

/// Whether the upstream "thinking" channel is asked for, and with what token
/// budget; derived per request, never stored.
pub struct ThinkingConfig {
    pub enabled: bool,
    pub budget: Option<i64>,
}

/// The resolver's configuration: which model-name fragments mark a model as
/// reasoning-capable, and which mark one that must always reason, with the
/// least budget that such a model accepts.
pub struct ReasoningRules {
    pub enabled_fragments: Vec<Vec<u8>>,
    pub mandatory: Vec<(Vec<u8>, i64)>,
}

impl ReasoningRules {
    /// The fragments that enable reasoning, as sequences.
    pub open spec fn frags(self) -> Seq<Seq<u8>> {
        Seq::new(self.enabled_fragments@.len(), |i: int| self.enabled_fragments@[i]@)
    }

    /// The mandatory-reasoning table, as sequences.
    pub open spec fn mand(self) -> Seq<(Seq<u8>, i64)> {
        Seq::new(self.mandatory@.len(), |i: int| (self.mandatory@[i].0@, self.mandatory@[i].1))
    }
}

/// True when some fragment of `frags` occurs in `model`.
pub open spec fn any_fragment_in(frags: Seq<Seq<u8>>, model: Seq<u8>) -> bool {
    exists|i: int| 0 <= i < frags.len() && contains_seq(model, frags[i])
}

/// The budget of the first mandatory-reasoning entry whose fragment occurs in
/// `model`, if any does.
pub open spec fn mandatory_min(mand: Seq<(Seq<u8>, i64)>, model: Seq<u8>) -> Option<i64>
    decreases mand.len(),
{
    if mand.len() == 0 {
        Option::None
    } else if contains_seq(model, mand[0].0) {
        Option::Some(mand[0].1)
    } else {
        mandatory_min(mand.skip(1), model)
    }
}

/// The reasoning budget for a model and an optional effort hint: `low` is
/// 1024, `medium` 8192, `high` 24576; `none` is 0 unless the model must
/// reason, in which case it is that model's least budget; an absent or
/// unrecognized hint counts as low effort.
pub open spec fn budget_of(mand: Seq<(Seq<u8>, i64)>, model: Seq<u8>, effort: Option<Seq<u8>>) -> i64 {
    match effort {
        Option::Some(e) => if e == "low".spec_bytes() {
            1024
        } else if e == "medium".spec_bytes() {
            8192
        } else if e == "high".spec_bytes() {
            24576
        } else if e == "none".spec_bytes() {
            match mandatory_min(mand, model) {
                Option::Some(m) => m,
                Option::None => 0,
            }
        } else {
            1024
        },
        Option::None => 1024,
    }
}

/// The budget table holds exactly, for every model string and every effort
/// value, recognized or not.
pub proof fn lemma_budget_table(mand: Seq<(Seq<u8>, i64)>, model: Seq<u8>, effort: Option<Seq<u8>>)
    ensures
        budget_of(mand, model, Some("low".spec_bytes())) == 1024,
        budget_of(mand, model, Some("medium".spec_bytes())) == 8192,
        budget_of(mand, model, Some("high".spec_bytes())) == 24576,
        budget_of(mand, model, Some("none".spec_bytes())) == match mandatory_min(mand, model) {
            Option::Some(m) => m,
            Option::None => 0,
        },
        effort is None ==> budget_of(mand, model, effort) == 1024,
        effort matches Some(e) && e != "low".spec_bytes() && e != "medium".spec_bytes() && e
            != "high".spec_bytes() && e != "none".spec_bytes() ==> budget_of(mand, model, effort)
            == 1024,
{
    broadcast use vstd::string::is_ascii_spec_bytes;

    reveal_strlit("low");
    reveal_strlit("medium");
    reveal_strlit("high");
    reveal_strlit("none");
    assert(vstd::string::is_ascii("low"));
    assert(vstd::string::is_ascii("medium"));
    assert(vstd::string::is_ascii("high"));
    assert(vstd::string::is_ascii("none"));
    assert("low".spec_bytes().len() == 3);
    assert("medium".spec_bytes().len() == 6);
    assert("high".spec_bytes().len() == 4);
    assert("none".spec_bytes().len() == 4);
    assert("high".spec_bytes()[0] == 104u8);
    assert("none".spec_bytes()[0] == 110u8);
}

/// The resolver: reasoning is enabled when a configured fragment occurs in
/// the model identifier, and the budget follows the table of `budget_of`.
pub fn resolve_thinking(rules: &ReasoningRules, model: &[u8], effort: Option<&Vec<u8>>) -> (r:
    ThinkingConfig)
    ensures
        r.enabled == any_fragment_in(rules.frags(), model@),
        r.budget == Some(
            budget_of(
                rules.mand(),
                model@,
                match effort {
                    Some(e) => Some(e@),
                    None => None,
                },
            ),
        ),
{
    let mut enabled = false;
    let mut i: usize = 0;
    while i < rules.enabled_fragments.len()
        invariant
            0 <= i <= rules.enabled_fragments@.len(),
            enabled == exists|j: int|
                0 <= j < i && contains_seq(model@, rules.frags()[j]),
        decreases rules.enabled_fragments@.len() - i,
    {
        if contains_sub(model, &rules.enabled_fragments[i]) {
            enabled = true;
            assert(contains_seq(model@, rules.frags()[i as int]));
        }
        i += 1;
    }
    let budget = budget_for(rules, model, effort);
    ThinkingConfig { enabled, budget: Some(budget) }
}

/// The budget half of the resolver.
fn budget_for(rules: &ReasoningRules, model: &[u8], effort: Option<&Vec<u8>>) -> (r: i64)
    ensures
        r == budget_of(
            rules.mand(),
            model@,
            match effort {
                Some(e) => Some(e@),
                None => None,
            },
        ),
{
    match effort {
        None => 1024,
        Some(e) => {
            if crate::text::bytes_eq(e.as_slice(), "low".as_bytes()) {
                1024
            } else if crate::text::bytes_eq(e.as_slice(), "medium".as_bytes()) {
                8192
            } else if crate::text::bytes_eq(e.as_slice(), "high".as_bytes()) {
                24576
            } else if crate::text::bytes_eq(e.as_slice(), "none".as_bytes()) {
                let m = mandatory_lookup(rules, model);
                match m {
                    Some(b) => b,
                    None => 0,
                }
            } else {
                1024
            }
        },
    }
}

/// The first mandatory-reasoning entry whose fragment occurs in `model`.
fn mandatory_lookup(rules: &ReasoningRules, model: &[u8]) -> (r: Option<i64>)
    ensures
        r == mandatory_min(rules.mand(), model@),
{
    let ghost mand = rules.mand();
    proof {
        assert(mand.skip(0) =~= mand);
    }
    let mut i: usize = 0;
    while i < rules.mandatory.len()
        invariant
            0 <= i <= rules.mandatory@.len(),
            mand == rules.mand(),
            mandatory_min(mand, model@) == mandatory_min(mand.skip(i as int), model@),
        decreases rules.mandatory@.len() - i,
    {
        proof {
            assert(mand.skip(i as int)[0] == mand[i as int]);
        }
        if contains_sub(model, &rules.mandatory[i].0) {
            return Some(rules.mandatory[i].1);
        }
        proof {
            assert(mand.skip(i as int).skip(1) =~= mand.skip(i as int + 1));
        }
        i += 1;
    }
    None
}

/// The rules the gateway runs with: the models that can reason, and the one
/// family that must.
pub fn default_rules() -> (r: ReasoningRules)
    ensures
        r.frags() =~= seq![
            "gemini-2.0-flash-thinking".spec_bytes(),
            "gemini-2.5".spec_bytes(),
        ],
        r.mand() =~= seq![("gemini-2.5-pro".spec_bytes(), 128i64)],
{
    let mut frags: Vec<Vec<u8>> = Vec::new();
    frags.push(vstd::slice::slice_to_vec("gemini-2.0-flash-thinking".as_bytes()));
    frags.push(vstd::slice::slice_to_vec("gemini-2.5".as_bytes()));
    let mut mandatory: Vec<(Vec<u8>, i64)> = Vec::new();
    mandatory.push((vstd::slice::slice_to_vec("gemini-2.5-pro".as_bytes()), 128));
    ReasoningRules { enabled_fragments: frags, mandatory }
}

} // verus!
