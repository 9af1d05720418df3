//! The pagination driver: it turns one logical request ("list up to N items
//! matching the filters, sorted by F") into a bounded sequence of page
//! requests, accumulates the passing items in server order, and decides
//! deterministically when to stop.
//!
//! The driver is a state machine: [`Driver::start`] yields the first
//! decision, [`Driver::absorb`] consumes one decoded page and yields the
//! next. The surrounding application performs each requested round-trip and
//! feeds the page back; [`paginate`] runs the same machine to completion
//! against an in-memory sequence of page outcomes.

use vstd::prelude::*;
use crate::client::RequestError;
use crate::filter::{FilterSpec, spec_filtered, apply_filter};
use crate::item::Item;
use crate::shared::SortBy;

verus! {

/// The standard page size requested when no limit calls for less.
pub const PER_PAGE: usize = 100;

/// An opaque, server-issued pagination token. It is passed back to the
/// server unmodified, and never constructed from parts or inspected.
#[derive(Clone, Debug, PartialEq, Eq)]
pub struct Cursor {
    token: String,
}

impl View for Cursor {
    type V = Seq<char>;

    closed spec fn view(&self) -> Seq<char> {
        self.token@
    }
}

impl Cursor {
    /// Wrap a token exactly as the server issued it.
    pub fn from_token(token: String) -> (r: Cursor)
        ensures
            r@ == token@,
    {
        Cursor { token }
    }

    /// The token, verbatim, for the transport to send back.
    pub fn token(&self) -> (r: &String)
        ensures
            r@ == self@,
    {
        &self.token
    }
}

/// The decoded result of one page request: the items in server order, plus
/// the continuation metadata. When `has_next_page` is false the cursor is
/// irrelevant and the driver never dereferences it for a further request.
#[derive(Debug)]
pub struct Page {
    pub items: Vec<Item>,
    pub has_next_page: bool,
    pub end_cursor: Option<Cursor>,
}

/// One round-trip the driver asks the transport to issue.
#[derive(Debug)]
pub struct PageRequest {
    /// How many items to request.
    pub first: usize,
    /// The cursor to resume after; `None` for the first page.
    pub after: Option<Cursor>,
}

/// An optional upper bound on the number of items the caller wants; `None`
/// means "fetch all pages available".
pub type FetchLimit = Option<usize>;

/// Configuration of one paginate call, with named optional fields.
#[derive(Debug)]
pub struct PaginateConfig {
    /// The page size to request when no limit calls for less.
    pub page_size_hint: usize,
    /// The soft cap on the number of items wanted.
    pub limit: FetchLimit,
    /// The server-side sort key, passed through opaquely by the driver.
    pub sort_by: SortBy,
    /// The per-item predicates, applied before counting toward the limit.
    pub filter: FilterSpec,
}

/// The page size to request next: the hint, shrunk to the remaining need
/// when a limit is set — never more than needed.
pub open spec fn spec_request_size(hint: usize, limit: FetchLimit, have: nat) -> int {
    match limit {
        None => hint as int,
        Some(n) => {
            let remaining: int = if n >= have {
                n - have
            } else {
                0
            };
            if remaining < hint {
                remaining
            } else {
                hint as int
            }
        },
    }
}

/// Whether a configured limit has been met or passed by `have` items.
pub open spec fn limit_reached(limit: FetchLimit, have: nat) -> bool {
    limit matches Some(n) && have >= n
}

/// The page size for the next request, given how many items are already
/// accumulated.
pub fn request_size(hint: usize, limit: &FetchLimit, have: usize) -> (r: usize)
    ensures
        r as int == spec_request_size(hint, *limit, have as nat),
{
    match limit {
        None => hint,
        Some(n) => {
            let remaining: usize = if *n >= have {
                *n - have
            } else {
                0
            };
            if remaining < hint {
                remaining
            } else {
                hint
            }
        },
    }
}

/// What the driver asks for next.
#[derive(Debug)]
pub enum Step {
    /// Issue this request and feed the decoded page back to the driver.
    Fetch(PageRequest),
    /// Pagination is complete; take the result with [`Driver::into_items`].
    Finished,
}

/// The pagination driver's state between round-trips: the accumulator of
/// passing items, in arrival order.
#[derive(Debug)]
pub struct Driver {
    acc: Vec<Item>,
}

impl Driver {
    /// The items accumulated so far, in arrival order.
    pub closed spec fn items(&self) -> Seq<Item> {
        self.acc@
    }

    /// A driver that has consumed nothing.
    pub fn new() -> (r: Driver)
        ensures
            r.items() == Seq::<Item>::empty(),
    {
        Driver { acc: Vec::new() }
    }

    /// The decision before any round-trip: a limit of zero short-circuits
    /// with no request at all; otherwise the first page is requested with
    /// no cursor and a size already shrunk to the limit.
    pub fn start(config: &PaginateConfig) -> (r: Step)
        ensures
            (r is Finished) <==> config.limit == Some(0usize),
            r matches Step::Fetch(req) ==> req.after is None && req.first as int
                == spec_request_size(config.page_size_hint, config.limit, 0),
    {
        let stop = match &config.limit {
            Some(n) => *n == 0,
            None => false,
        };
        if stop {
            Step::Finished
        } else {
            let first = request_size(config.page_size_hint, &config.limit, 0);
            Step::Fetch(PageRequest { first, after: None })
        }
    }

    /// Absorb one decoded page: append its passing items, in server order,
    /// then decide. The driver stops at the natural end of the result set
    /// (`has_next_page` false), or once a configured limit is met — without
    /// truncating, so a run may over-return by at most the passing items of
    /// the page that crossed the limit. Otherwise it asks for the next page
    /// after this page's cursor.
    pub fn absorb(&mut self, page: Page, config: &PaginateConfig) -> (r: Step)
        ensures
            final(self).items() == old(self).items() + spec_filtered(page.items@, config.filter),
            (r is Finished) <==> (!page.has_next_page || limit_reached(
                config.limit,
                final(self).items().len(),
            )),
            r matches Step::Fetch(req) ==> {
                &&& req.after == page.end_cursor
                &&& req.first as int == spec_request_size(
                    config.page_size_hint,
                    config.limit,
                    final(self).items().len(),
                )
            },
    {
        let Page { items, has_next_page, end_cursor } = page;
        let mut passing = apply_filter(items, &config.filter);
        self.acc.append(&mut passing);
        if !has_next_page {
            return Step::Finished;
        }
        let reached = match &config.limit {
            Some(n) => self.acc.len() >= *n,
            None => false,
        };
        if reached {
            Step::Finished
        } else {
            let first = request_size(config.page_size_hint, &config.limit, self.acc.len());
            Step::Fetch(PageRequest { first, after: end_cursor })
        }
    }

    /// Surrender the accumulated items, in arrival order.
    pub fn into_items(self) -> (r: Vec<Item>)
        ensures
            r@ == self.items(),
    {
        self.acc
    }
}

/// The mathematical outcome of driving pagination against a sequence of
/// page outcomes.
pub enum DriveOutcome {
    /// Pagination stopped regularly with these items.
    Items(Seq<Item>),
    /// A page failed; the whole run fails with that error and no partial
    /// result.
    Failed(RequestError),
    /// The source ended before the driver was done.
    Starved,
}

/// Drive pagination over `script`, whose entry `k` answers the `k`-th
/// request, with `acc` already accumulated. Mirrors the loop: filter and
/// append, stop on the natural end of the result set, stop once a limit is
/// met, otherwise continue with the next page.
pub open spec fn spec_drive(
    script: Seq<Result<Page, RequestError>>,
    limit: FetchLimit,
    filter: FilterSpec,
    acc: Seq<Item>,
) -> DriveOutcome
    decreases script.len(),
{
    if script.len() == 0 {
        DriveOutcome::Starved
    } else {
        match script[0] {
            Result::Err(e) => DriveOutcome::Failed(e),
            Result::Ok(page) => {
                let acc2 = acc + spec_filtered(page.items@, filter);
                if !page.has_next_page {
                    DriveOutcome::Items(acc2)
                } else if limit_reached(limit, acc2.len()) {
                    DriveOutcome::Items(acc2)
                } else {
                    spec_drive(script.drop_first(), limit, filter, acc2)
                }
            },
        }
    }
}

/// The outcome of the full paginate algorithm on a given page source: a
/// limit of zero short-circuits before any request; otherwise the driver
/// runs from an empty accumulator.
pub open spec fn spec_paginate(
    script: Seq<Result<Page, RequestError>>,
    config: PaginateConfig,
) -> DriveOutcome {
    if config.limit == Some(0usize) {
        DriveOutcome::Items(Seq::empty())
    } else {
        spec_drive(script, config.limit, config.filter, Seq::empty())
    }
}

/// Run the pagination algorithm to completion against an in-memory
/// sequence of page outcomes: the transport-free core of `paginate`.
/// Entry `k` of `script` answers the `k`-th request the driver issues; a
/// request past the end of the script is answered with a transport error.
pub fn paginate(config: &PaginateConfig, script: Vec<Result<Page, RequestError>>) -> (r: Result<
    Vec<Item>,
    RequestError,
>)
    ensures
        match spec_paginate(script@, *config) {
            DriveOutcome::Items(s) => r matches Ok(v) && v@ == s,
            DriveOutcome::Failed(e) => r matches Err(e2) && e2 == e,
            DriveOutcome::Starved => r matches Err(e2) && e2 matches RequestError::Transport(m)
                && m@ == "page source ended before pagination finished"@,
        },
{
    let ghost goal = spec_paginate(script@, *config);
    let mut rest = script;
    let mut driver = Driver::new();
    match Driver::start(config) {
        Step::Finished => {
            return Ok(driver.into_items());
        },
        Step::Fetch(_req) => {},
    }
    loop
        invariant
            goal == spec_paginate(script@, *config),
            goal == spec_drive(rest@, config.limit, config.filter, driver.items()),
        decreases rest@.len(),
    {
        if rest.len() == 0 {
            return Err(
                RequestError::Transport("page source ended before pagination finished".to_owned()),
            );
        }
        let ghost pre_script = rest@;
        let entry = rest.remove(0);
        proof {
            assert(rest@ =~= pre_script.drop_first());
        }
        match entry {
            Result::Err(e) => {
                return Err(e);
            },
            Result::Ok(page) => {
                let step = driver.absorb(page, config);
                match step {
                    Step::Finished => {
                        return Ok(driver.into_items());
                    },
                    Step::Fetch(_req) => {},
                }
            },
        }
    }
}

/// The items of the leading pages of a script, concatenated in fetch
/// order. Meaningful for prefixes whose entries all arrived successfully.
pub open spec fn script_items(script: Seq<Result<Page, RequestError>>) -> Seq<Item>
    decreases script.len(),
{
    if script.len() == 0 {
        Seq::empty()
    } else {
        script[0]->Ok_0.items@ + script_items(script.drop_first())
    }
}

/// Termination at the natural end of the result set: when every page up to
/// and including the first one reporting `has_next_page == false` arrives
/// successfully and no limit is set, the drive stops there and returns the
/// passing items of exactly those pages, appended to the accumulator in
/// fetch order.
pub proof fn lemma_drive_stops_at_exhaustion(
    script: Seq<Result<Page, RequestError>>,
    filter: FilterSpec,
    acc: Seq<Item>,
    k: int,
)
    requires
        0 <= k < script.len(),
        forall|j: int| 0 <= j <= k ==> (#[trigger] script[j]) is Ok,
        forall|j: int| 0 <= j < k ==> (#[trigger] script[j])->Ok_0.has_next_page,
        !script[k]->Ok_0.has_next_page,
    ensures
        spec_drive(script, None, filter, acc) == DriveOutcome::Items(
            acc + spec_filtered(script_items(script.take(k + 1)), filter),
        ),
    decreases k,
{
    let page = script[0]->Ok_0;
    let acc2 = acc + spec_filtered(page.items@, filter);
    if k == 0 {
        assert(script.take(1)[0] == script[0]);
        assert(script.take(1).drop_first() =~= Seq::<Result<Page, RequestError>>::empty());
        assert(script_items(Seq::<Result<Page, RequestError>>::empty()) == Seq::<Item>::empty());
        assert(script_items(script.take(1)) =~= page.items@);
    } else {
        assert forall|j: int| 0 <= j <= k - 1 implies (#[trigger] script.drop_first()[j]) is Ok by {
            assert(script.drop_first()[j] == script[j + 1]);
        }
        assert forall|j: int|
            0 <= j < k - 1 implies (#[trigger] script.drop_first()[j])->Ok_0.has_next_page by {
            assert(script.drop_first()[j] == script[j + 1]);
        }
        assert(script.drop_first()[k - 1] == script[k]);
        lemma_drive_stops_at_exhaustion(script.drop_first(), filter, acc2, k - 1);
        assert(script.drop_first().take(k) =~= script.take(k + 1).drop_first());
        assert(script.take(k + 1)[0] == script[0]);
        crate::filter::lemma_filtered_app(
            page.items@,
            script_items(script.take(k + 1).drop_first()),
            filter,
        );
        assert(acc2 + spec_filtered(script_items(script.take(k + 1).drop_first()), filter) =~= acc
            + spec_filtered(script_items(script.take(k + 1)), filter));
    }
}

/// Termination: when some page up to `k` reports no further page and every
/// page up to `k` arrives successfully, the drive stops regularly,
/// whatever the limit.
pub proof fn lemma_drive_succeeds(
    script: Seq<Result<Page, RequestError>>,
    limit: FetchLimit,
    filter: FilterSpec,
    acc: Seq<Item>,
    k: int,
)
    requires
        0 <= k < script.len(),
        forall|j: int| 0 <= j <= k ==> (#[trigger] script[j]) is Ok,
        !script[k]->Ok_0.has_next_page,
    ensures
        spec_drive(script, limit, filter, acc) is Items,
    decreases k,
{
    let page = script[0]->Ok_0;
    let acc2 = acc + spec_filtered(page.items@, filter);
    if k > 0 && page.has_next_page && !limit_reached(limit, acc2.len()) {
        assert forall|j: int| 0 <= j <= k - 1 implies (#[trigger] script.drop_first()[j]) is Ok by {
            assert(script.drop_first()[j] == script[j + 1]);
        }
        assert(script.drop_first()[k - 1] == script[k]);
        lemma_drive_succeeds(script.drop_first(), limit, filter, acc2, k - 1);
    }
}

/// Error short-circuit: while pages keep arriving successfully with more to
/// come and no limit is in play, the first failing page makes the whole
/// drive fail with that error — nothing accumulated is returned.
pub proof fn lemma_error_short_circuit(
    script: Seq<Result<Page, RequestError>>,
    filter: FilterSpec,
    acc: Seq<Item>,
    k: int,
)
    requires
        0 <= k < script.len(),
        forall|j: int|
            0 <= j < k ==> (#[trigger] script[j]) is Ok && script[j]->Ok_0.has_next_page,
        script[k] is Err,
    ensures
        spec_drive(script, None, filter, acc) == DriveOutcome::Failed(script[k]->Err_0),
    decreases k,
{
    if k > 0 {
        let page = script[0]->Ok_0;
        let acc2 = acc + spec_filtered(page.items@, filter);
        assert forall|j: int|
            0 <= j < k - 1 implies (#[trigger] script.drop_first()[j]) is Ok
                && script.drop_first()[j]->Ok_0.has_next_page by {
            assert(script.drop_first()[j] == script[j + 1]);
        }
        assert(script.drop_first()[k - 1] == script[k]);
        lemma_error_short_circuit(script.drop_first(), filter, acc2, k - 1);
    }
}

/// How many pages the drive consumes from a script before stopping, with
/// `have` items already accumulated. Mirrors the drive's own recursion.
pub open spec fn spec_consumed(
    script: Seq<Result<Page, RequestError>>,
    limit: FetchLimit,
    filter: FilterSpec,
    have: nat,
) -> int
    decreases script.len(),
{
    if script.len() == 0 {
        0
    } else {
        match script[0] {
            Result::Err(_) => 1,
            Result::Ok(page) => {
                let have2 = have + spec_filtered(page.items@, filter).len();
                if !page.has_next_page || limit_reached(limit, have2) {
                    1
                } else {
                    1 + spec_consumed(script.drop_first(), limit, filter, have2)
                }
            },
        }
    }
}

/// Order preservation: a successful drive returns the starting accumulator
/// extended with exactly the filter of the concatenation of the pages it
/// consumed, in fetch order — a filter-preserving sub-sequence of what was
/// fetched, never reordered.
pub proof fn lemma_output_is_filtered_prefix(
    script: Seq<Result<Page, RequestError>>,
    limit: FetchLimit,
    filter: FilterSpec,
    acc: Seq<Item>,
)
    requires
        spec_drive(script, limit, filter, acc) is Items,
    ensures
        ({
            let m = spec_consumed(script, limit, filter, acc.len());
            &&& 1 <= m <= script.len()
            &&& (forall|j: int| 0 <= j < m ==> (#[trigger] script[j]) is Ok)
            &&& spec_drive(script, limit, filter, acc) == DriveOutcome::Items(
                acc + spec_filtered(script_items(script.take(m)), filter),
            )
        }),
    decreases script.len(),
{
    let m = spec_consumed(script, limit, filter, acc.len());
    let page = script[0]->Ok_0;
    let acc2 = acc + spec_filtered(page.items@, filter);
    if !page.has_next_page || limit_reached(limit, acc2.len()) {
        assert(script.take(1)[0] == script[0]);
        assert(script.take(1).drop_first() =~= Seq::<Result<Page, RequestError>>::empty());
        assert(script_items(Seq::<Result<Page, RequestError>>::empty()) == Seq::<Item>::empty());
        assert(script_items(script.take(1)) =~= page.items@);
    } else {
        lemma_output_is_filtered_prefix(script.drop_first(), limit, filter, acc2);
        let m2 = spec_consumed(script.drop_first(), limit, filter, acc2.len());
        assert(m == 1 + m2);
        assert(script.drop_first().take(m2) =~= script.take(m).drop_first());
        assert(script.take(m)[0] == script[0]);
        crate::filter::lemma_filtered_app(
            page.items@,
            script_items(script.take(m).drop_first()),
            filter,
        );
        assert(acc2 + spec_filtered(script_items(script.take(m).drop_first()), filter) =~= acc
            + spec_filtered(script_items(script.take(m)), filter));
        assert forall|j: int| 0 <= j < m implies (#[trigger] script[j]) is Ok by {
            if j > 0 {
                assert(script.drop_first()[j - 1] is Ok);
            }
        }
    }
}

/// A limit is a floor under filtering, not a ceiling: when the pages
/// available before the source's natural end carry at least `n` passing
/// items beyond the accumulator, a drive with limit `n` stops regularly
/// with at least `n` items.
pub proof fn lemma_limit_is_floor(
    script: Seq<Result<Page, RequestError>>,
    n: usize,
    filter: FilterSpec,
    acc: Seq<Item>,
    k: int,
)
    requires
        0 <= k < script.len(),
        forall|j: int| 0 <= j <= k ==> (#[trigger] script[j]) is Ok,
        forall|j: int| 0 <= j < k ==> (#[trigger] script[j])->Ok_0.has_next_page,
        !script[k]->Ok_0.has_next_page,
        acc.len() + spec_filtered(script_items(script.take(k + 1)), filter).len() >= n,
    ensures
        spec_drive(script, Some(n), filter, acc) matches DriveOutcome::Items(s) && s.len() >= n,
    decreases k,
{
    let page = script[0]->Ok_0;
    let acc2 = acc + spec_filtered(page.items@, filter);
    if k == 0 {
        assert(script.take(1)[0] == script[0]);
        assert(script.take(1).drop_first() =~= Seq::<Result<Page, RequestError>>::empty());
        assert(script_items(Seq::<Result<Page, RequestError>>::empty()) == Seq::<Item>::empty());
        assert(script_items(script.take(1)) =~= page.items@);
    } else if limit_reached(Some(n), acc2.len()) {
    } else {
        assert forall|j: int| 0 <= j <= k - 1 implies (#[trigger] script.drop_first()[j]) is Ok by {
            assert(script.drop_first()[j] == script[j + 1]);
        }
        assert forall|j: int|
            0 <= j < k - 1 implies (#[trigger] script.drop_first()[j])->Ok_0.has_next_page by {
            assert(script.drop_first()[j] == script[j + 1]);
        }
        assert(script.drop_first()[k - 1] == script[k]);
        assert(script.drop_first().take(k) =~= script.take(k + 1).drop_first());
        assert(script.take(k + 1)[0] == script[0]);
        crate::filter::lemma_filtered_app(
            page.items@,
            script_items(script.take(k + 1).drop_first()),
            filter,
        );
        lemma_limit_is_floor(script.drop_first(), n, filter, acc2, k - 1);
    }
}

/// The over-return is bounded by the single page that crossed the limit:
/// starting below limit `n`, a successful drive holds fewer than `n` items
/// plus the passing items of the last page it consumed.
pub proof fn lemma_limit_overshoot_bounded(
    script: Seq<Result<Page, RequestError>>,
    n: usize,
    filter: FilterSpec,
    acc: Seq<Item>,
)
    requires
        acc.len() < n,
        spec_drive(script, Some(n), filter, acc) is Items,
    ensures
        ({
            let m = spec_consumed(script, Some(n), filter, acc.len());
            &&& 1 <= m <= script.len()
            &&& spec_drive(script, Some(n), filter, acc) matches DriveOutcome::Items(s) && s.len()
                < n + spec_filtered(script[m - 1]->Ok_0.items@, filter).len()
        }),
    decreases script.len(),
{
    let m = spec_consumed(script, Some(n), filter, acc.len());
    let page = script[0]->Ok_0;
    let acc2 = acc + spec_filtered(page.items@, filter);
    if !page.has_next_page || limit_reached(Some(n), acc2.len()) {
    } else {
        lemma_limit_overshoot_bounded(script.drop_first(), n, filter, acc2);
        let m2 = spec_consumed(script.drop_first(), Some(n), filter, acc2.len());
        assert(m == 1 + m2);
        assert(script.drop_first()[m2 - 1] == script[m - 1]);
    }
}

/// A limit is a floor at the paginate level: when the pages available
/// before the source's natural end carry at least as many passing items as
/// the limit, pagination stops regularly with at least that many items.
pub proof fn lemma_paginate_limit_floor(
    script: Seq<Result<Page, RequestError>>,
    config: PaginateConfig,
    k: int,
)
    requires
        config.limit is Some,
        0 <= k < script.len(),
        forall|j: int| 0 <= j <= k ==> (#[trigger] script[j]) is Ok,
        forall|j: int| 0 <= j < k ==> (#[trigger] script[j])->Ok_0.has_next_page,
        !script[k]->Ok_0.has_next_page,
        spec_filtered(script_items(script.take(k + 1)), config.filter).len()
            >= config.limit->Some_0,
    ensures
        spec_paginate(script, config) matches DriveOutcome::Items(s) && s.len()
            >= config.limit->Some_0,
{
    let n = config.limit->Some_0;
    if n > 0 {
        lemma_limit_is_floor(script, n, config.filter, Seq::empty(), k);
    }
}

/// Pagination with no limit returns all passing items of all pages up to
/// and including the first that reports no further page, in fetch order.
pub proof fn lemma_paginate_full_sweep(
    script: Seq<Result<Page, RequestError>>,
    config: PaginateConfig,
    k: int,
)
    requires
        config.limit is None,
        0 <= k < script.len(),
        forall|j: int| 0 <= j <= k ==> (#[trigger] script[j]) is Ok,
        forall|j: int| 0 <= j < k ==> (#[trigger] script[j])->Ok_0.has_next_page,
        !script[k]->Ok_0.has_next_page,
    ensures
        spec_paginate(script, config) == DriveOutcome::Items(
            spec_filtered(script_items(script.take(k + 1)), config.filter),
        ),
{
    lemma_drive_stops_at_exhaustion(script, config.filter, Seq::empty(), k);
    assert(Seq::<Item>::empty() + spec_filtered(script_items(script.take(k + 1)), config.filter)
        =~= spec_filtered(script_items(script.take(k + 1)), config.filter));
}

} // verus!
