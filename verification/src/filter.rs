//! The filter predicates: a conjunction of an optional assignee-equality
//! predicate and an optional state-classification include-set, evaluated
//! per item after decoding and before counting toward the limit; and the
//! normalization of an exclusion set to its complement.

use vstd::prelude::*;
use crate::item::Item;
use crate::shared::IssueState;

verus! {

/// A conjunction of optional predicates: an item passes only when it
/// satisfies every configured one; an unset predicate is vacuously true.
/// The driver only ever evaluates include-sets: an "exclude these states"
/// request is normalized first with [`effective_states`].
#[derive(Clone, Debug, PartialEq, Eq)]
pub struct FilterSpec {
    /// Case-sensitive exact match against the assignee's display name.
    pub assignee: Option<String>,
    /// The allowed state classifications.
    pub states: Option<Vec<IssueState>>,
}

impl FilterSpec {
    /// A filter with every predicate unset; it lets every item pass.
    pub fn none() -> (r: FilterSpec)
        ensures
            r.assignee is None,
            r.states is None,
    {
        FilterSpec { assignee: None, states: None }
    }
}

/// Whether one item satisfies every configured predicate.
pub open spec fn spec_passes(item: Item, filter: FilterSpec) -> bool {
    &&& (filter.assignee matches Some(a) ==> item.assignee matches Some(ia) && ia@ == a@)
    &&& (filter.states matches Some(ss) ==> ss@.contains(item.state))
}

/// The sub-sequence of `items` that passes `filter`, in the original order.
pub open spec fn spec_filtered(items: Seq<Item>, filter: FilterSpec) -> Seq<Item>
    decreases items.len(),
{
    if items.len() == 0 {
        Seq::empty()
    } else {
        let rest = spec_filtered(items.drop_last(), filter);
        if spec_passes(items.last(), filter) {
            rest.push(items.last())
        } else {
            rest
        }
    }
}

/// Appending one item to the input extends the filtered output by that item
/// exactly when it passes.
pub proof fn lemma_filtered_push(items: Seq<Item>, filter: FilterSpec, x: Item)
    ensures
        spec_filtered(items.push(x), filter) == if spec_passes(x, filter) {
            spec_filtered(items, filter).push(x)
        } else {
            spec_filtered(items, filter)
        },
{
    assert(items.push(x).drop_last() =~= items);
    assert(items.push(x).last() == x);
}

/// Filtering distributes over concatenation.
pub proof fn lemma_filtered_app(a: Seq<Item>, b: Seq<Item>, filter: FilterSpec)
    ensures
        spec_filtered(a + b, filter) == spec_filtered(a, filter) + spec_filtered(b, filter),
    decreases b.len(),
{
    if b.len() == 0 {
        assert(a + b =~= a);
        assert(spec_filtered(a, filter) + spec_filtered(b, filter) =~= spec_filtered(a, filter));
    } else {
        lemma_filtered_app(a, b.drop_last(), filter);
        assert((a + b).drop_last() =~= a + b.drop_last());
        assert((a + b).last() == b.last());
        if spec_passes(b.last(), filter) {
            assert(spec_filtered(a, filter) + spec_filtered(b.drop_last(), filter).push(b.last())
                =~= (spec_filtered(a, filter) + spec_filtered(b.drop_last(), filter)).push(
                b.last(),
            ));
        }
    }
}

/// Whether `item` satisfies every configured predicate of `filter`.
pub fn passes(item: &Item, filter: &FilterSpec) -> (r: bool)
    ensures
        r == spec_passes(*item, *filter),
{
    let assignee_ok = match (&filter.assignee, &item.assignee) {
        (Some(a), Some(ia)) => *ia == *a,
        (Some(_), None) => false,
        (None, _) => true,
    };
    let state_ok = match &filter.states {
        Some(ss) => contains_state(ss, item.state),
        None => true,
    };
    assignee_ok && state_ok
}

/// Whether `s` is a member of `states`.
fn contains_state(states: &Vec<IssueState>, s: IssueState) -> (r: bool)
    ensures
        r == states@.contains(s),
{
    let mut i: usize = 0;
    while i < states.len()
        invariant
            i <= states.len(),
            forall|j: int| 0 <= j < i ==> states@[j] != s,
        decreases states.len() - i,
    {
        if states[i] == s {
            proof {
                assert(states@[i as int] == s);
            }
            return true;
        }
        i += 1;
    }
    false
}

/// The passing items of `items`, in the original order.
pub fn apply_filter(items: Vec<Item>, filter: &FilterSpec) -> (r: Vec<Item>)
    ensures
        r@ == spec_filtered(items@, *filter),
{
    let ghost orig = items@;
    let mut items = items;
    let mut out: Vec<Item> = Vec::new();
    let ghost k: int = 0;
    while items.len() > 0
        invariant
            0 <= k <= orig.len(),
            k == orig.len() - items.len(),
            items@ =~= orig.skip(k),
            out@ == spec_filtered(orig.take(k), *filter),
        decreases items.len(),
    {
        let it = items.remove(0);
        proof {
            assert(it == orig[k]);
            assert(items@ =~= orig.skip(k + 1));
            assert(orig.take(k + 1) =~= orig.take(k).push(orig[k]));
            lemma_filtered_push(orig.take(k), *filter, orig[k]);
        }
        if passes(&it, filter) {
            out.push(it);
        }
        proof {
            k = k + 1;
        }
    }
    proof {
        assert(orig.take(k) =~= orig);
    }
    out
}

/// The members of the five-tag universe that are not in `exclude`, in the
/// universe's order.
pub open spec fn spec_complement(exclude: Seq<IssueState>) -> Seq<IssueState> {
    spec_exclude(IssueState::spec_all(), exclude)
}

/// The members of `src` that are not in `exclude`, in order.
pub open spec fn spec_exclude(src: Seq<IssueState>, exclude: Seq<IssueState>) -> Seq<IssueState>
    decreases src.len(),
{
    if src.len() == 0 {
        Seq::empty()
    } else {
        let rest = spec_exclude(src.drop_last(), exclude);
        if !exclude.contains(src.last()) {
            rest.push(src.last())
        } else {
            rest
        }
    }
}

/// A member of `src` survives exclusion exactly when it is not excluded.
pub proof fn lemma_exclude_membership(src: Seq<IssueState>, exclude: Seq<IssueState>, s: IssueState)
    ensures
        spec_exclude(src, exclude).contains(s) <==> (src.contains(s) && !exclude.contains(s)),
    decreases src.len(),
{
    if src.len() > 0 {
        lemma_exclude_membership(src.drop_last(), exclude, s);
        let rest = spec_exclude(src.drop_last(), exclude);
        if !exclude.contains(src.last()) {
            assert forall|x: IssueState| rest.push(src.last()).contains(x) implies rest.contains(
                x,
            ) || x == src.last() by {
                let i = choose|i: int|
                    0 <= i < rest.push(src.last()).len() && rest.push(src.last())[i] == x;
                if i < rest.len() {
                    assert(rest[i] == x);
                }
            }
            if rest.contains(s) || s == src.last() {
                if s == src.last() {
                    assert(rest.push(src.last()).last() == s);
                } else {
                    let i = choose|i: int| 0 <= i < rest.len() && rest[i] == s;
                    assert(rest.push(src.last())[i] == s);
                }
            }
        }
        if src.contains(s) {
            let i = choose|i: int| 0 <= i < src.len() && src[i] == s;
            if i < src.len() - 1 {
                assert(src.drop_last()[i] == s);
            }
        }
        if src.drop_last().contains(s) {
            let i = choose|i: int| 0 <= i < src.drop_last().len() && src.drop_last()[i] == s;
            assert(src[i] == s);
        }
    }
}

/// Complement normalization: a classification belongs to the effective
/// include-set derived from an exclusion list exactly when it is not
/// excluded.
pub proof fn lemma_complement_membership(exclude: Seq<IssueState>, s: IssueState)
    ensures
        spec_complement(exclude).contains(s) <==> !exclude.contains(s),
{
    IssueState::lemma_all_complete(s);
    lemma_exclude_membership(IssueState::spec_all(), exclude, s);
}

/// The effective include-set handed to the driver, as the combination of an
/// optional include list and an optional exclude list prescribes: both
/// unset leaves the predicate unset; an include list alone is used as
/// given; an exclude list alone is complemented against the five-tag
/// universe; both together keep the included states that are not excluded.
pub open spec fn spec_effective_states(
    state: Option<Seq<IssueState>>,
    not_state: Option<Seq<IssueState>>,
) -> Option<Seq<IssueState>> {
    match (state, not_state) {
        (None, None) => None,
        (Some(s), None) => Some(s),
        (None, Some(ns)) => Some(spec_complement(ns)),
        (Some(s), Some(ns)) => Some(spec_exclude(s, ns)),
    }
}

/// Normalize the caller's include and exclude lists to the single
/// include-set the driver evaluates.
pub fn effective_states(
    state: Option<Vec<IssueState>>,
    not_state: Option<Vec<IssueState>>,
) -> (r: Option<Vec<IssueState>>)
    ensures
        match spec_effective_states(
            match state {
                Some(s) => Some(s@),
                None => None,
            },
            match not_state {
                Some(ns) => Some(ns@),
                None => None,
            },
        ) {
            Some(s) => r matches Some(v) && v@ == s,
            None => r is None,
        },
{
    match (state, not_state) {
        (None, None) => None,
        (Some(s), None) => Some(s),
        (None, Some(ns)) => Some(exclude_states(IssueState::all(), &ns)),
        (Some(s), Some(ns)) => Some(exclude_states(s, &ns)),
    }
}

/// The members of `src` that are not in `exclude`, in order.
fn exclude_states(src: Vec<IssueState>, exclude: &Vec<IssueState>) -> (r: Vec<IssueState>)
    ensures
        r@ == spec_exclude(src@, exclude@),
{
    let mut out: Vec<IssueState> = Vec::new();
    let mut i: usize = 0;
    while i < src.len()
        invariant
            i <= src.len(),
            out@ == spec_exclude(src@.take(i as int), exclude@),
        decreases src.len() - i,
    {
        proof {
            assert(src@.take(i + 1).drop_last() =~= src@.take(i as int));
            assert(src@.take(i + 1).last() == src@[i as int]);
        }
        if !contains_state(exclude, src[i]) {
            out.push(src[i]);
        }
        i += 1;
    }
    proof {
        assert(src@.take(src@.len() as int) =~= src@);
    }
    out
}

} // verus!
