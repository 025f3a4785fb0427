//! Statistics of the usage of the proxy.

use itertools::Itertools;
use vstd::prelude::*;
use vstd::string::*;

use crate::json::{is_plain, quoted_list, text_list_json};
use crate::lookup::{all_entries, look_up, new_map, numbers, put, TextMap};
use crate::text::{
    decimal, decimal_text, law_decimal_stands_for_the_number,
    law_signed_decimal_stands_for_the_number, signed_decimal, signed_decimal_text,
};

verus! {

/// How fine the statistics are.
#[derive(Debug, Clone, Copy, PartialEq, Eq, Structural)]
pub enum StatType {
    /// Summed over all methods.
    Aggregated,
    /// By method.
    Detailed,
}

/// Why statistics cannot be queried.
#[derive(Debug, Clone, Copy, PartialEq, Eq, Structural)]
pub enum StatsError {
    /// The range of time is empty.
    EqualDates,
    /// No bucket of the database is configured.
    NoBucket,
}

/// Which statistics are asked for.
pub struct StatsParams {
    /// The user, or zero for all users.
    pub user_id: u64,
    /// The chain, or zero for all chains.
    pub chain_id: u64,
    /// The beginning of the range of time, in seconds of Unix time.
    pub query_start: i64,
    /// The end of the range of time, in seconds of Unix time.
    pub query_stop: i64,
    /// The length of a window of time over which is summed, in seconds.
    pub query_window_seconds: u64,
    pub stat_type: StatType,
}

/// A sum that the database computed: of a field, over the window of time that ends at `time`.
pub struct AggregatedRpcAccounting {
    pub field: String,
    /// The sum, as the bits of a double precision number.
    pub value: u64,
    /// Seconds of Unix time, and nanoseconds.
    pub time: (i64, u32),
}

/// The sums of a window of time.
pub struct Datapoint {
    /// The time of the window, in seconds of Unix time.
    pub query_window_timestamp: i64,
    /// The sums by name, as the bits of double precision numbers.
    pub totals: TextMap,
}

/// The answer to a query.
pub struct UserStats {
    pub num_items: usize,
    pub result: Vec<Datapoint>,
    pub query_window_seconds: u64,
    pub query_start: i64,
    pub chain_id: u64,
}

/// The message of an error.
pub open spec fn stats_error_message(e: StatsError) -> Seq<char> {
    match e {
        StatsError::EqualDates => {
            "Start and Stop date cannot be equal. Please specify a (different) start date."@
        },
        StatsError::NoBucket => "No influxdb bucket was provided"@,
    }
}

impl StatsError {
    /// The message of the error.
    pub fn message(&self) -> (r: String)
        ensures
            r@ == stats_error_message(*self),
    {
        match self {
            StatsError::EqualDates => {
                "Start and Stop date cannot be equal. Please specify a (different) start date.".to_owned()
            },
            StatsError::NoBucket => "No influxdb bucket was provided".to_owned(),
        }
    }
}

/// The measurement that holds the data of a user, or of all users.
pub open spec fn measurement(user_id: u64) -> Seq<char> {
    if user_id == 0 {
        "global_proxy"@
    } else {
        "opt_in_proxy"@
    }
}

/// The stage of the query that picks the chain.
pub open spec fn chain_filter(chain_id: u64) -> Seq<char> {
    if chain_id == 0 {
        Seq::empty()
    } else {
        "|> filter(fn: (r) => r[\"chain_id\"] == \""@ + decimal(chain_id as nat) + "\")"@
    }
}

/// The columns that the data are grouped by. Without a certain chain, the chain is one of them.
pub open spec fn group_columns(chain_id: u64) -> Seq<Seq<char>> {
    if chain_id == 0 {
        seq!["_measurement"@, "_field"@, "chain_id"@]
    } else {
        seq!["_measurement"@, "_field"@]
    }
}

/// The stage of the query that groups the data.
pub open spec fn grouping(stat_type: StatType, chain_id: u64) -> Seq<char> {
    match stat_type {
        StatType::Aggregated => {
            "|> group(columns: "@ + (seq!['['] + quoted_list(group_columns(chain_id)) + seq![']'])
                + ")"@
        },
        StatType::Detailed => Seq::empty(),
    }
}

/// The stage of the query that picks the fields.
pub open spec fn field_filter(stat_type: StatType) -> Seq<char> {
    match stat_type {
        StatType::Aggregated => {
            "|> filter(fn: (r) => r[\"_field\"] == \"frontend_requests\" or r[\"_field\"] == \"backend_requests\" or r[\"_field\"] == \"cache_hits\" or r[\"_field\"] == \"cache_misses\" or r[\"_field\"] == \"no_servers\" or r[\"_field\"] == \"sum_request_bytes\" or r[\"_field\"] == \"sum_response_bytes\" or r[\"_field\"] == \"sum_response_millis\")"@
        },
        StatType::Detailed => Seq::empty(),
    }
}

/// The query for the database.
pub open spec fn flux_query(p: StatsParams, bucket: Seq<char>) -> Seq<char> {
    "\n        from(bucket: \""@ + bucket + "\")\n            |> range(start: "@ + signed_decimal(
        p.query_start as int,
    ) + ", stop: "@ + signed_decimal(p.query_stop as int)
        + ")\n            |> filter(fn: (r) => r[\"_measurement\"] == \""@ + measurement(p.user_id)
        + "\")\n            "@ + field_filter(p.stat_type) + "\n            "@ + chain_filter(
        p.chain_id,
    ) + "\n            "@ + grouping(p.stat_type, p.chain_id)
        + "\n            |> aggregateWindow(every: "@ + decimal(p.query_window_seconds as nat)
        + "s, fn: sum, createEmpty: false)\n            |> yield(name: \"sum\")\n    "@
}

fn chain_filter_text(chain_id: u64) -> (r: String)
    ensures
        r@ == chain_filter(chain_id),
{
    if chain_id == 0 {
        String::new()
    } else {
        "|> filter(fn: (r) => r[\"chain_id\"] == \"".to_owned().concat(
            decimal_text(chain_id).as_str(),
        ).concat("\")")
    }
}

fn grouping_text(stat_type: StatType, chain_id: u64) -> (r: String)
    ensures
        r@ == grouping(stat_type, chain_id),
{
    match stat_type {
        StatType::Aggregated => {
            let mut columns: Vec<String> = vec!["_measurement".to_owned(), "_field".to_owned()];
            if chain_id == 0 {
                columns.push("chain_id".to_owned());
            }
            proof {
                reveal_strlit("_measurement");
                reveal_strlit("_field");
                reveal_strlit("chain_id");
                assert(is_plain("_measurement"@));
                assert(is_plain("_field"@));
                assert(is_plain("chain_id"@));
                assert(columns@.map_values(|t: String| t@) =~= group_columns(chain_id));
            }
            "|> group(columns: ".to_owned().concat(text_list_json(&columns).as_str()).concat(")")
        },
        StatType::Detailed => String::new(),
    }
}

fn field_filter_text(stat_type: StatType) -> (r: String)
    ensures
        r@ == field_filter(stat_type),
{
    match stat_type {
        StatType::Aggregated => {
            "|> filter(fn: (r) => r[\"_field\"] == \"frontend_requests\" or r[\"_field\"] == \"backend_requests\" or r[\"_field\"] == \"cache_hits\" or r[\"_field\"] == \"cache_misses\" or r[\"_field\"] == \"no_servers\" or r[\"_field\"] == \"sum_request_bytes\" or r[\"_field\"] == \"sum_response_bytes\" or r[\"_field\"] == \"sum_response_millis\")".to_owned()
        },
        StatType::Detailed => String::new(),
    }
}

/// The query for the database that gives the statistics that are asked for. An empty range of
/// time is refused, and so is a missing bucket.
pub fn query_user_stats(p: &StatsParams, bucket: &Option<String>) -> (r: Result<
    String,
    StatsError,
>)
    ensures
        r matches Err(StatsError::EqualDates) <==> p.query_start == p.query_stop,
        r matches Err(StatsError::NoBucket) <==> p.query_start != p.query_stop && bucket is None,
        r matches Ok(query) ==> bucket matches Some(name) && query@ == flux_query(*p, name@),
{
    if p.query_start == p.query_stop {
        return Err(StatsError::EqualDates);
    }
    let measurement = if p.user_id == 0 {
        "global_proxy"
    } else {
        "opt_in_proxy"
    };
    match bucket {
        None => Err(StatsError::NoBucket),
        Some(name) => Ok(
            "\n        from(bucket: \"".to_owned().concat(name.as_str()).concat(
                "\")\n            |> range(start: ",
            ).concat(signed_decimal_text(p.query_start).as_str()).concat(", stop: ").concat(
                signed_decimal_text(p.query_stop).as_str(),
            ).concat(")\n            |> filter(fn: (r) => r[\"_measurement\"] == \"").concat(
                measurement,
            ).concat("\")\n            ").concat(field_filter_text(p.stat_type).as_str()).concat(
                "\n            ",
            ).concat(chain_filter_text(p.chain_id).as_str()).concat("\n            ").concat(
                grouping_text(p.stat_type, p.chain_id).as_str(),
            ).concat("\n            |> aggregateWindow(every: ").concat(
                decimal_text(p.query_window_seconds).as_str(),
            ).concat(
                "s, fn: sum, createEmpty: false)\n            |> yield(name: \"sum\")\n    ",
            ),
        ),
    }
}

/// The runs of consecutive sums that have the same time.
pub open spec fn runs(rows: Seq<AggregatedRpcAccounting>) -> Seq<Seq<AggregatedRpcAccounting>>
    decreases rows.len(),
{
    if rows.len() == 0 {
        Seq::empty()
    } else {
        let before = runs(rows.drop_last());
        if before.len() > 0 && before.last().last().time == rows.last().time {
            before.update(before.len() - 1, before.last().push(rows.last()))
        } else {
            before.push(seq![rows.last()])
        }
    }
}

/// `itertools::Itertools::group_by` on the time: consecutive sums with the same time come into
/// one group, in their order.
#[verifier::external_body]
fn group_by_time(rows: Vec<AggregatedRpcAccounting>) -> (groups: Vec<Vec<AggregatedRpcAccounting>>)
    ensures
        groups@.map_values(|g: Vec<AggregatedRpcAccounting>| g@) == runs(rows@),
{
    rows.into_iter().group_by(|row| row.time).into_iter().map(|(_, run)| run.collect()).collect()
}

/// The sums of a run by name. The name is that of the field after `total_`, and of two sums of
/// one field the later counts.
pub open spec fn totals_of(run: Seq<AggregatedRpcAccounting>) -> Map<Seq<char>, u64>
    decreases run.len(),
{
    if run.len() == 0 {
        Map::empty()
    } else {
        totals_of(run.drop_last()).insert("total_"@ + run.last().field@, run.last().value)
    }
}

impl Datapoint {
    /// The sums by name.
    pub open spec fn sums(self) -> Map<Seq<char>, u64> {
        numbers(self.totals)
    }

    /// The sum of the given name, as the bits of a double precision number.
    pub fn total(&self, name: &String) -> (r: Option<u64>)
        ensures
            r is Some <==> self.sums().contains_key(name@),
            r matches Some(value) ==> value == self.sums()[name@],
    {
        look_up(&self.totals, name)
    }

    /// Every sum with its name, each once, in any order.
    pub fn all_totals(&self) -> (list: Vec<(String, u64)>)
        ensures
            forall|i: int|
                0 <= i < list@.len() ==> self.sums().contains_key((#[trigger] list@[i]).0@)
                    && self.sums()[list@[i].0@] == list@[i].1,
            forall|k: Seq<char>| #[trigger]
                self.sums().contains_key(k) ==> exists|i: int|
                    0 <= i < list@.len() && (#[trigger] list@[i]).0@ == k,
            forall|i: int, j: int|
                0 <= i < j < list@.len() ==> (#[trigger] list@[i]).0@ != (
                #[trigger] list@[j]).0@,
    {
        all_entries(&self.totals)
    }
}

/// `d` holds the time and the sums of `run`.
pub open spec fn is_datapoint(d: Datapoint, run: Seq<AggregatedRpcAccounting>) -> bool {
    &&& d.query_window_timestamp == run[0].time.0
    &&& d.sums() == totals_of(run)
}

/// Puts the sums of a run next to each other.
fn datapoint(run: &Vec<AggregatedRpcAccounting>) -> (d: Datapoint)
    requires
        run@.len() > 0,
    ensures
        is_datapoint(d, run@),
{
    let mut totals = new_map();
    let mut i: usize = 0;
    assert(numbers(totals) =~= totals_of(run@.take(0)));
    while i < run.len()
        invariant
            i <= run@.len(),
            numbers(totals) == totals_of(run@.take(i as int)),
        decreases run@.len() - i,
    {
        assert(run@.take(i as int + 1).drop_last() =~= run@.take(i as int));
        put(&mut totals, "total_".to_owned().concat(run[i].field.as_str()), run[i].value);
        i = i + 1;
    }
    assert(run@.take(i as int) =~= run@);
    Datapoint { query_window_timestamp: run[0].time.0, totals }
}

/// The answer to a query, given the sums that the database computed: one datapoint for each run
/// of sums with the same time.
pub fn user_stats(p: &StatsParams, rows: Vec<AggregatedRpcAccounting>) -> (r: UserStats)
    ensures
        r.num_items == runs(rows@).len(),
        r.result@.len() == runs(rows@).len(),
        forall|i: int|
            0 <= i < runs(rows@).len() ==> is_datapoint(#[trigger] r.result@[i], runs(rows@)[i]),
        r.query_window_seconds == p.query_window_seconds,
        r.query_start == p.query_start,
        r.chain_id == p.chain_id,
{
    let ghost expected = runs(rows@);
    proof {
        lemma_runs(rows@);
    }
    let groups = group_by_time(rows);
    let mut result: Vec<Datapoint> = Vec::new();
    let mut i: usize = 0;
    while i < groups.len()
        invariant
            i <= groups@.len(),
            groups@.map_values(|g: Vec<AggregatedRpcAccounting>| g@) == expected,
            forall|j: int| 0 <= j < expected.len() ==> (#[trigger] expected[j]).len() > 0,
            result@.len() == i,
            forall|j: int| 0 <= j < i ==> is_datapoint(#[trigger] result@[j], expected[j]),
        decreases groups@.len() - i,
    {
        assert(expected[i as int] == groups@[i as int]@);
        result.push(datapoint(&groups[i]));
        i = i + 1;
    }
    UserStats {
        num_items: result.len(),
        result,
        query_window_seconds: p.query_window_seconds,
        query_start: p.query_start,
        chain_id: p.chain_id,
    }
}

/// No run is empty, and all sums of a run have the same time.
pub open spec fn are_runs(runs: Seq<Seq<AggregatedRpcAccounting>>) -> bool {
    &&& forall|i: int| 0 <= i < runs.len() ==> (#[trigger] runs[i]).len() > 0
    &&& forall|i: int, j: int|
        0 <= i < runs.len() && 0 <= j < runs[i].len() ==> (#[trigger] runs[i][j]).time
            == runs[i][0].time
    &&& forall|i: int|
        0 < i < runs.len() ==> (#[trigger] runs[i])[0].time != runs[i - 1][0].time
}

proof fn lemma_runs(rows: Seq<AggregatedRpcAccounting>)
    ensures
        are_runs(runs(rows)),
        runs(rows).flatten() == rows,
    decreases rows.len(),
{
    let r = runs(rows);
    if rows.len() == 0 {
        assert(r.flatten() =~= rows);
    } else {
        let before = runs(rows.drop_last());
        let last = rows.last();
        lemma_runs(rows.drop_last());
        assert(rows =~= rows.drop_last().push(last));
        if before.len() > 0 && before.last().last().time == last.time {
            let n = before.len() - 1;
            assert(before =~= before.take(n).push(before.last()));
            assert(r =~= before.take(n).push(before.last().push(last)));
            before.take(n).lemma_flatten_push(before.last());
            before.take(n).lemma_flatten_push(before.last().push(last));
            assert(r.flatten() =~= rows);
        } else {
            before.lemma_flatten_push(seq![last]);
            assert(r.flatten() =~= rows);
        }
    }
}

/// Grouping neither drops nor reorders sums: the runs one after the other are all the sums. All
/// sums of a run have the same time, and neighbouring runs have different times.
pub proof fn law_runs_hold_all_sums(rows: Seq<AggregatedRpcAccounting>)
    ensures
        runs(rows).flatten() == rows,
        are_runs(runs(rows)),
{
    lemma_runs(rows);
}

/// Each sum of a run is among the totals under its name, unless a later sum of the run has the
/// same field.
pub proof fn law_totals_hold_each_field(run: Seq<AggregatedRpcAccounting>, i: int)
    requires
        0 <= i < run.len(),
        forall|j: int| i < j < run.len() ==> (#[trigger] run[j]).field@ != run[i].field@,
    ensures
        totals_of(run).contains_key("total_"@ + run[i].field@),
        totals_of(run)["total_"@ + run[i].field@] == run[i].value,
    decreases run.len(),
{
    let name = "total_"@ + run[i].field@;
    if i < run.len() - 1 {
        let shorter = run.drop_last();
        law_totals_hold_each_field(shorter, i);
        let other = "total_"@ + run.last().field@;
        if other == name {
            assert(run.last().field@ =~= other.skip("total_"@.len() as int));
            assert(run[i].field@ =~= name.skip("total_"@.len() as int));
        }
    }
}

/// No total has the name under which the time of a datapoint is given.
pub proof fn law_no_total_is_named_like_the_time(run: Seq<AggregatedRpcAccounting>)
    ensures
        !totals_of(run).contains_key("query_window_timestamp"@),
    decreases run.len(),
{
    if run.len() > 0 {
        law_no_total_is_named_like_the_time(run.drop_last());
        reveal_strlit("total_");
        reveal_strlit("query_window_timestamp");
        assert(("total_"@ + run.last().field@)[0] == 't');
    }
}

/// The query begins with the bucket and the range of time that were asked for, and with the
/// measurement of all users if no user was asked for and that of single users if one was.
pub proof fn law_query_is_for_the_bucket_the_range_and_the_user(p: StatsParams, bucket: Seq<char>)
    ensures
        p.user_id == 0 ==> ("\n        from(bucket: \""@ + bucket + "\")\n            |> range(start: "@
            + signed_decimal(p.query_start as int) + ", stop: "@ + signed_decimal(p.query_stop as int)
            + ")\n            |> filter(fn: (r) => r[\"_measurement\"] == \""@ + "global_proxy"@
            + "\")\n            "@).is_prefix_of(flux_query(p, bucket)),
        p.user_id != 0 ==> ("\n        from(bucket: \""@ + bucket + "\")\n            |> range(start: "@
            + signed_decimal(p.query_start as int) + ", stop: "@ + signed_decimal(p.query_stop as int)
            + ")\n            |> filter(fn: (r) => r[\"_measurement\"] == \""@ + "opt_in_proxy"@
            + "\")\n            "@).is_prefix_of(flux_query(p, bucket)),
{
    let window = p.query_window_seconds as nat;
    let start = "\n        from(bucket: \""@ + bucket + "\")\n            |> range(start: "@ + signed_decimal(
        p.query_start as int,
    ) + ", stop: "@ + signed_decimal(p.query_stop as int)
        + ")\n            |> filter(fn: (r) => r[\"_measurement\"] == \""@ + measurement(p.user_id)
        + "\")\n            "@;
    let a = start + field_filter(p.stat_type);
    let b = a + "\n            "@;
    let c = b + chain_filter(p.chain_id);
    let d = c + "\n            "@;
    let e = d + grouping(p.stat_type, p.chain_id);
    let f = e + "\n            |> aggregateWindow(every: "@;
    let g = f + decimal(window);
    let q = g + "s, fn: sum, createEmpty: false)\n            |> yield(name: \"sum\")\n    "@;
    assert(q == flux_query(p, bucket));
    lemma_longer(start, a, field_filter(p.stat_type));
    lemma_longer(start, b, "\n            "@);
    lemma_longer(start, c, chain_filter(p.chain_id));
    lemma_longer(start, d, "\n            "@);
    lemma_longer(start, e, grouping(p.stat_type, p.chain_id));
    lemma_longer(start, f, "\n            |> aggregateWindow(every: "@);
    lemma_longer(start, g, decimal(window));
    lemma_longer(start, q, "s, fn: sum, createEmpty: false)\n            |> yield(name: \"sum\")\n    "@);
}

/// `start` is still the beginning of a text to which `more` was added at the end.
proof fn lemma_longer(start: Seq<char>, text: Seq<char>, more: Seq<char>)
    requires
        exists|before: Seq<char>|
            text == #[trigger] (before + more) && start.is_prefix_of(before),
    ensures
        start.is_prefix_of(text),
{
    let before = choose|before: Seq<char>|
        text == #[trigger] (before + more) && start.is_prefix_of(before);
    assert(start =~= text.subrange(0, start.len() as int)) by {
        assert(start =~= before.subrange(0, start.len() as int));
        assert forall|i: int| 0 <= i < start.len() implies start[i] == text[i] by {
            assert(before.subrange(0, start.len() as int)[i] == before[i]);
        }
    }
}

/// The query ends by summing over windows of the length that was asked for.
pub proof fn law_query_sums_over_the_window(p: StatsParams, bucket: Seq<char>)
    ensures
        forall|window: nat|
            window == p.query_window_seconds ==> ("\n            |> aggregateWindow(every: "@
                + #[trigger] decimal(window)
                + "s, fn: sum, createEmpty: false)\n            |> yield(name: \"sum\")\n    "@).is_suffix_of(
                flux_query(p, bucket),
            ),
{
    let window = p.query_window_seconds as nat;
    lemma_query_from_the_front(p, bucket);
    let q = flux_query(p, bucket);
    let end = "\n            |> aggregateWindow(every: "@ + decimal(window)
        + "s, fn: sum, createEmpty: false)\n            |> yield(name: \"sum\")\n    "@;
    lemma_associate(
        "\n            |> aggregateWindow(every: "@,
        decimal(window),
        "s, fn: sum, createEmpty: false)\n            |> yield(name: \"sum\")\n    "@,
    );
    lemma_suffix_of_sum(grouping(p.stat_type, p.chain_id), end);
    lemma_suffix_of_longer(end, "\n            "@, grouping(p.stat_type, p.chain_id) + query_from_window(p));
    lemma_suffix_of_longer(end, chain_filter(p.chain_id), query_from_group(p));
    lemma_suffix_of_longer(end, "\n            "@, chain_filter(p.chain_id) + query_from_group(p));
    lemma_suffix_of_longer(end, field_filter(p.stat_type), query_from_chain(p));
    lemma_suffix_of_longer(end, "\")\n            "@, field_filter(p.stat_type) + query_from_chain(p));
    lemma_suffix_of_longer(end, measurement(p.user_id), query_from_field(p));
    lemma_suffix_of_longer(end, ")\n            |> filter(fn: (r) => r[\"_measurement\"] == \""@, measurement(p.user_id) + query_from_field(p));
    lemma_suffix_of_longer(end, signed_decimal(p.query_stop as int), query_from_measurement(p));
    lemma_suffix_of_longer(
        end,
        ", stop: "@,
        signed_decimal(p.query_stop as int) + query_from_measurement(p),
    );
    lemma_suffix_of_longer(end, signed_decimal(p.query_start as int), query_from_stop(p));
    lemma_suffix_of_longer(end, query_head(bucket), query_from_start(p));
}

proof fn lemma_suffix_of_sum(a: Seq<char>, b: Seq<char>)
    ensures
        b.is_suffix_of(a + b),
{
    assert(b =~= (a + b).subrange((a + b).len() - b.len(), (a + b).len() as int));
}

proof fn lemma_suffix_of_longer(end: Seq<char>, more: Seq<char>, text: Seq<char>)
    requires
        end.is_suffix_of(text),
    ensures
        end.is_suffix_of(more + text),
{
    let whole = more + text;
    let k = text.len() - end.len();
    assert(end =~= text.subrange(k, text.len() as int));
    assert forall|i: int| 0 <= i < end.len() implies end[i] == whole[more.len() + k + i] by {
        assert(text.subrange(k, text.len() as int)[i] == text[k + i]);
    }
    assert(end =~= whole.subrange(whole.len() - end.len(), whole.len() as int));
}

proof fn lemma_associate(a: Seq<char>, b: Seq<char>, c: Seq<char>)
    ensures
        (a + b) + c == a + (b + c),
{
    assert((a + b) + c =~= a + (b + c));
}

/// A certain chain is picked by its whole number. The aggregated statistics are of the eight
/// fields, grouped by measurement and field, and by chain if no certain one is asked for.
pub proof fn law_query_picks_chain_and_fields(p: StatsParams, bucket: Seq<char>)
    ensures
        p.chain_id != 0 ==> exists|before: Seq<char>, after: Seq<char>|
            flux_query(p, bucket) == #[trigger] (before + ("|> filter(fn: (r) => r[\"chain_id\"] == \""@
                + decimal(p.chain_id as nat) + "\")"@) + after),
        p.stat_type == StatType::Aggregated ==> exists|before: Seq<char>, after: Seq<char>|
            flux_query(p, bucket) == #[trigger] (before
                + "|> filter(fn: (r) => r[\"_field\"] == \"frontend_requests\" or r[\"_field\"] == \"backend_requests\" or r[\"_field\"] == \"cache_hits\" or r[\"_field\"] == \"cache_misses\" or r[\"_field\"] == \"no_servers\" or r[\"_field\"] == \"sum_request_bytes\" or r[\"_field\"] == \"sum_response_bytes\" or r[\"_field\"] == \"sum_response_millis\")"@
                + after),
        p.stat_type == StatType::Aggregated && p.chain_id == 0 ==> exists|
            before: Seq<char>,
            after: Seq<char>,
        |
            flux_query(p, bucket) == #[trigger] (before
                + "|> group(columns: [\"_measurement\",\"_field\",\"chain_id\"])"@ + after),
        p.stat_type == StatType::Aggregated && p.chain_id != 0 ==> exists|
            before: Seq<char>,
            after: Seq<char>,
        |
            flux_query(p, bucket) == #[trigger] (before
                + "|> group(columns: [\"_measurement\",\"_field\"])"@ + after),
{
    lemma_query_from_the_front(p, bucket);
    lemma_grouping_text(p.stat_type, p.chain_id);
    let head = query_head(bucket);
    let b1 = head + signed_decimal(p.query_start as int);
    let b2 = b1 + ", stop: "@;
    let b3 = b2 + signed_decimal(p.query_stop as int);
    let b4 = b3 + ")\n            |> filter(fn: (r) => r[\"_measurement\"] == \""@;
    let b5 = b4 + measurement(p.user_id);
    let b6 = b5 + "\")\n            "@;
    let b7 = b6 + field_filter(p.stat_type);
    let b8 = b7 + "\n            "@;
    let b9 = b8 + chain_filter(p.chain_id);
    let b10 = b9 + "\n            "@;
    lemma_associate(head, signed_decimal(p.query_start as int), query_from_stop(p));
    lemma_associate(
        b1,
        ", stop: "@,
        signed_decimal(p.query_stop as int) + query_from_measurement(p),
    );
    lemma_associate(b2, signed_decimal(p.query_stop as int), query_from_measurement(p));
    lemma_associate(b3, ")\n            |> filter(fn: (r) => r[\"_measurement\"] == \""@, measurement(p.user_id) + query_from_field(p));
    lemma_associate(b4, measurement(p.user_id), query_from_field(p));
    lemma_associate(b5, "\")\n            "@, field_filter(p.stat_type) + query_from_chain(p));
    lemma_associate(b6, field_filter(p.stat_type), query_from_chain(p));
    lemma_associate(b7, "\n            "@, chain_filter(p.chain_id) + query_from_group(p));
    lemma_associate(b8, chain_filter(p.chain_id), query_from_group(p));
    lemma_associate(b9, "\n            "@, grouping(p.stat_type, p.chain_id) + query_from_window(p));
    lemma_associate(b10, grouping(p.stat_type, p.chain_id), query_from_window(p));
    assert(flux_query(p, bucket) == b6 + field_filter(p.stat_type) + query_from_chain(p));
    assert(flux_query(p, bucket) == b8 + chain_filter(p.chain_id) + query_from_group(p));
    assert(flux_query(p, bucket) == b10 + grouping(p.stat_type, p.chain_id) + query_from_window(p));
}

proof fn lemma_grouping_text(stat_type: StatType, chain_id: u64)
    ensures
        stat_type == StatType::Aggregated && chain_id == 0 ==> grouping(stat_type, chain_id)
            == "|> group(columns: [\"_measurement\",\"_field\",\"chain_id\"])"@,
        stat_type == StatType::Aggregated && chain_id != 0 ==> grouping(stat_type, chain_id)
            == "|> group(columns: [\"_measurement\",\"_field\"])"@,
{
    reveal_strlit("|> group(columns: [\"_measurement\",\"_field\",\"chain_id\"])");
    reveal_strlit("|> group(columns: [\"_measurement\",\"_field\"])");
    reveal_strlit("|> group(columns: ");
    reveal_strlit(")");
    reveal_strlit("_measurement");
    reveal_strlit("_field");
    reveal_strlit("chain_id");
    reveal_with_fuel(quoted_list, 4);
    let two = seq!["_measurement"@, "_field"@];
    let three = seq!["_measurement"@, "_field"@, "chain_id"@];
    assert(three.drop_last() =~= two);
    assert(two.drop_last() =~= seq!["_measurement"@]);
    if stat_type == StatType::Aggregated {
        if chain_id == 0 {
            assert(grouping(stat_type, chain_id)
                =~= "|> group(columns: [\"_measurement\",\"_field\",\"chain_id\"])"@);
        } else {
            assert(grouping(stat_type, chain_id)
                =~= "|> group(columns: [\"_measurement\",\"_field\"])"@);
        }
    }
}

spec fn query_head(bucket: Seq<char>) -> Seq<char> {
    "\n        from(bucket: \""@ + bucket + "\")\n            |> range(start: "@
}

spec fn query_from_start(p: StatsParams) -> Seq<char> {
    signed_decimal(p.query_start as int) + query_from_stop(p)
}

spec fn query_from_stop(p: StatsParams) -> Seq<char> {
    ", stop: "@ + (signed_decimal(p.query_stop as int) + query_from_measurement(p))
}

spec fn query_from_measurement(p: StatsParams) -> Seq<char> {
    ")\n            |> filter(fn: (r) => r[\"_measurement\"] == \""@ + (measurement(p.user_id)
        + query_from_field(p))
}

spec fn query_from_field(p: StatsParams) -> Seq<char> {
    "\")\n            "@ + (field_filter(p.stat_type) + query_from_chain(p))
}

spec fn query_from_chain(p: StatsParams) -> Seq<char> {
    "\n            "@ + (chain_filter(p.chain_id) + query_from_group(p))
}

spec fn query_from_group(p: StatsParams) -> Seq<char> {
    "\n            "@ + (grouping(p.stat_type, p.chain_id) + query_from_window(p))
}

spec fn query_from_window(p: StatsParams) -> Seq<char> {
    let window = p.query_window_seconds as nat;
    "\n            |> aggregateWindow(every: "@ + (decimal(window)
        + "s, fn: sum, createEmpty: false)\n            |> yield(name: \"sum\")\n    "@)
}

/// The query is its parts, put together from the end to the front.
proof fn lemma_query_from_the_front(p: StatsParams, bucket: Seq<char>)
    ensures
        flux_query(p, bucket) == query_head(bucket) + query_from_start(p),
{
    let window = p.query_window_seconds as nat;
    let b0 = query_head(bucket);
    let b1 = b0 + signed_decimal(p.query_start as int);
    let b2 = b1 + ", stop: "@;
    let b3 = b2 + signed_decimal(p.query_stop as int);
    let b4 = b3 + ")\n            |> filter(fn: (r) => r[\"_measurement\"] == \""@;
    let b5 = b4 + measurement(p.user_id);
    let b6 = b5 + "\")\n            "@;
    let b7 = b6 + field_filter(p.stat_type);
    let b8 = b7 + "\n            "@;
    let b9 = b8 + chain_filter(p.chain_id);
    let b10 = b9 + "\n            "@;
    let b11 = b10 + grouping(p.stat_type, p.chain_id);
    let b12 = b11 + "\n            |> aggregateWindow(every: "@;
    let b13 = b12 + decimal(window);
    let end = "s, fn: sum, createEmpty: false)\n            |> yield(name: \"sum\")\n    "@;
    assert(flux_query(p, bucket) == b13 + end);
    lemma_associate(b12, decimal(window), end);
    lemma_associate(b11, "\n            |> aggregateWindow(every: "@, decimal(window) + end);
    assert(flux_query(p, bucket) == b11 + query_from_window(p));
    lemma_associate(b10, grouping(p.stat_type, p.chain_id), query_from_window(p));
    lemma_associate(b9, "\n            "@, grouping(p.stat_type, p.chain_id) + query_from_window(p));
    assert(flux_query(p, bucket) == b9 + query_from_group(p));
    lemma_associate(b8, chain_filter(p.chain_id), query_from_group(p));
    lemma_associate(b7, "\n            "@, chain_filter(p.chain_id) + query_from_group(p));
    assert(flux_query(p, bucket) == b7 + query_from_chain(p));
    lemma_associate(b6, field_filter(p.stat_type), query_from_chain(p));
    lemma_associate(b5, "\")\n            "@, field_filter(p.stat_type) + query_from_chain(p));
    assert(flux_query(p, bucket) == b5 + query_from_field(p));
    lemma_associate(b4, measurement(p.user_id), query_from_field(p));
    lemma_associate(b3, ")\n            |> filter(fn: (r) => r[\"_measurement\"] == \""@, measurement(p.user_id) + query_from_field(p));
    assert(flux_query(p, bucket) == b3 + query_from_measurement(p));
    lemma_associate(b2, signed_decimal(p.query_stop as int), query_from_measurement(p));
    lemma_associate(
        b1,
        ", stop: "@,
        signed_decimal(p.query_stop as int) + query_from_measurement(p),
    );
    assert(flux_query(p, bucket) == b1 + query_from_stop(p));
    lemma_associate(b0, signed_decimal(p.query_start as int), query_from_stop(p));
}

proof fn lemma_cancel(a: Seq<char>, x: Seq<char>, y: Seq<char>)
    requires
        a + x == a + y,
    ensures
        x == y,
{
    assert((a + x).len() == a.len() + x.len());
    assert((a + y).len() == a.len() + y.len());
    assert forall|i: int| 0 <= i < x.len() implies x[i] == y[i] by {
        assert((a + x)[a.len() + i] == x[i]);
        assert((a + y)[a.len() + i] == y[i]);
    }
    assert(x =~= y);
}

/// The character can stand in the notation of an integer.
spec fn in_number(c: char) -> bool {
    c == '-' || '0' as int <= c as int <= '9' as int
}

/// Of two equal texts that begin with numbers, the numbers and what follows are equal.
proof fn lemma_numbers_end(a: Seq<char>, x: Seq<char>, b: Seq<char>, y: Seq<char>)
    requires
        a + x == b + y,
        forall|i: int| 0 <= i < a.len() ==> in_number(#[trigger] a[i]),
        forall|i: int| 0 <= i < b.len() ==> in_number(#[trigger] b[i]),
        x.len() > 0,
        y.len() > 0,
        !in_number(x[0]),
        !in_number(y[0]),
    ensures
        a == b,
        x == y,
{
    assert((a + x)[a.len() as int] == x[0]);
    assert((b + y)[b.len() as int] == y[0]);
    if a.len() < b.len() {
        assert((b + y)[a.len() as int] == b[a.len() as int]);
    } else if b.len() < a.len() {
        assert((a + x)[b.len() as int] == a[b.len() as int]);
    }
    assert forall|i: int| 0 <= i < a.len() implies a[i] == b[i] by {
        assert((a + x)[i] == a[i]);
        assert((b + y)[i] == b[i]);
    }
    assert(a =~= b);
    lemma_cancel(a, x, y);
}

proof fn lemma_signed_decimal_is_number(i: int)
    ensures
        forall|k: int| 0 <= k < signed_decimal(i).len() ==> in_number(#[trigger] signed_decimal(i)[k]),
{
    law_signed_decimal_stands_for_the_number(i);
}

proof fn lemma_decimal_is_number(n: nat)
    ensures
        forall|k: int| 0 <= k < decimal(n).len() ==> in_number(#[trigger] decimal(n)[k]),
{
    law_decimal_stands_for_the_number(n);
}

/// The query tells all that was asked for: two queries of one bucket are equal only if the range
/// of time, the window, the chain and the kind of statistics are equal and both are of all users
/// or both are of one; and they are equal then.
pub proof fn law_query_tells_what_was_asked(p: StatsParams, q: StatsParams, bucket: Seq<char>)
    ensures
        flux_query(p, bucket) == flux_query(q, bucket) <==> {
            &&& p.query_start == q.query_start
            &&& p.query_stop == q.query_stop
            &&& p.query_window_seconds == q.query_window_seconds
            &&& p.chain_id == q.chain_id
            &&& p.stat_type == q.stat_type
            &&& p.user_id == 0 <==> q.user_id == 0
        },
{
    if flux_query(p, bucket) == flux_query(q, bucket) {
        lemma_query_from_the_front(p, bucket);
        lemma_query_from_the_front(q, bucket);
        lemma_cancel(query_head(bucket), query_from_start(p), query_from_start(q));
        reveal_strlit(", stop: ");
        reveal_strlit(")\n            |> filter(fn: (r) => r[\"_measurement\"] == \"");
        lemma_signed_decimal_is_number(p.query_start as int);
        lemma_signed_decimal_is_number(q.query_start as int);
        lemma_numbers_end(
            signed_decimal(p.query_start as int),
            query_from_stop(p),
            signed_decimal(q.query_start as int),
            query_from_stop(q),
        );
        law_signed_decimal_stands_for_the_number(p.query_start as int);
        law_signed_decimal_stands_for_the_number(q.query_start as int);
        lemma_cancel(
            ", stop: "@,
            signed_decimal(p.query_stop as int) + query_from_measurement(p),
            signed_decimal(q.query_stop as int) + query_from_measurement(q),
        );
        lemma_signed_decimal_is_number(p.query_stop as int);
        lemma_signed_decimal_is_number(q.query_stop as int);
        lemma_numbers_end(
            signed_decimal(p.query_stop as int),
            query_from_measurement(p),
            signed_decimal(q.query_stop as int),
            query_from_measurement(q),
        );
        law_signed_decimal_stands_for_the_number(p.query_stop as int);
        law_signed_decimal_stands_for_the_number(q.query_stop as int);
        lemma_cancel(
            ")\n            |> filter(fn: (r) => r[\"_measurement\"] == \""@,
            measurement(p.user_id) + query_from_field(p),
            measurement(q.user_id) + query_from_field(q),
        );
        lemma_rest_tells_what_was_asked(p, q);
    }
}

proof fn lemma_rest_tells_what_was_asked(p: StatsParams, q: StatsParams)
    requires
        measurement(p.user_id) + query_from_field(p) == measurement(q.user_id) + query_from_field(q),
    ensures
        p.query_window_seconds == q.query_window_seconds,
        p.chain_id == q.chain_id,
        p.stat_type == q.stat_type,
        p.user_id == 0 <==> q.user_id == 0,
{
    let window = p.query_window_seconds as nat;
    reveal_strlit("global_proxy");
    reveal_strlit("opt_in_proxy");
    assert((measurement(p.user_id) + query_from_field(p))[0] == measurement(p.user_id)[0]);
    assert((measurement(q.user_id) + query_from_field(q))[0] == measurement(q.user_id)[0]);
    lemma_cancel(measurement(p.user_id), query_from_field(p), query_from_field(q));
    lemma_cancel(
        "\")\n            "@,
        field_filter(p.stat_type) + query_from_chain(p),
        field_filter(q.stat_type) + query_from_chain(q),
    );
    lemma_stat_type_shows(p, q);
    lemma_cancel(field_filter(p.stat_type), query_from_chain(p), query_from_chain(q));
    lemma_cancel(
        "\n            "@,
        chain_filter(p.chain_id) + query_from_group(p),
        chain_filter(q.chain_id) + query_from_group(q),
    );
    lemma_chain_shows(p, q);
    lemma_cancel(chain_filter(p.chain_id), query_from_group(p), query_from_group(q));
    lemma_cancel(
        "\n            "@,
        grouping(p.stat_type, p.chain_id) + query_from_window(p),
        grouping(q.stat_type, q.chain_id) + query_from_window(q),
    );
    lemma_cancel(
        grouping(p.stat_type, p.chain_id),
        query_from_window(p),
        query_from_window(q),
    );
    let end = "s, fn: sum, createEmpty: false)\n            |> yield(name: \"sum\")\n    "@;
    lemma_cancel(
        "\n            |> aggregateWindow(every: "@,
        decimal(window) + end,
        decimal(q.query_window_seconds as nat) + end,
    );
    reveal_strlit("s, fn: sum, createEmpty: false)\n            |> yield(name: \"sum\")\n    ");
    lemma_decimal_is_number(p.query_window_seconds as nat);
    lemma_decimal_is_number(q.query_window_seconds as nat);
    lemma_numbers_end(
        decimal(window),
        end,
        decimal(q.query_window_seconds as nat),
        end,
    );
    law_decimal_stands_for_the_number(p.query_window_seconds as nat);
    law_decimal_stands_for_the_number(q.query_window_seconds as nat);
}

proof fn lemma_stat_type_shows(p: StatsParams, q: StatsParams)
    requires
        field_filter(p.stat_type) + query_from_chain(p) == field_filter(q.stat_type)
            + query_from_chain(q),
    ensures
        p.stat_type == q.stat_type,
{
    reveal_strlit(
        "|> filter(fn: (r) => r[\"_field\"] == \"frontend_requests\" or r[\"_field\"] == \"backend_requests\" or r[\"_field\"] == \"cache_hits\" or r[\"_field\"] == \"cache_misses\" or r[\"_field\"] == \"no_servers\" or r[\"_field\"] == \"sum_request_bytes\" or r[\"_field\"] == \"sum_response_bytes\" or r[\"_field\"] == \"sum_response_millis\")",
    );
    reveal_strlit("\n            ");
    lemma_first_of_filter(p);
    lemma_first_of_filter(q);
}

proof fn lemma_first_of_filter(p: StatsParams)
    ensures
        (field_filter(p.stat_type) + query_from_chain(p))[0] == (match p.stat_type {
            StatType::Aggregated => '|',
            StatType::Detailed => '\n',
        }),
{
    reveal_strlit(
        "|> filter(fn: (r) => r[\"_field\"] == \"frontend_requests\" or r[\"_field\"] == \"backend_requests\" or r[\"_field\"] == \"cache_hits\" or r[\"_field\"] == \"cache_misses\" or r[\"_field\"] == \"no_servers\" or r[\"_field\"] == \"sum_request_bytes\" or r[\"_field\"] == \"sum_response_bytes\" or r[\"_field\"] == \"sum_response_millis\")",
    );
    reveal_strlit("\n            ");
    assert(query_from_chain(p)[0] == '\n');
    match p.stat_type {
        StatType::Aggregated => {
            assert((field_filter(p.stat_type) + query_from_chain(p))[0] == field_filter(
                p.stat_type,
            )[0]);
        },
        StatType::Detailed => {
            assert((field_filter(p.stat_type) + query_from_chain(p))[0] == query_from_chain(p)[0]);
        },
    }
}

proof fn lemma_first_of_chain(p: StatsParams)
    ensures
        (chain_filter(p.chain_id) + query_from_group(p))[0] == (if p.chain_id == 0 {
            '\n'
        } else {
            '|'
        }),
{
    reveal_strlit("|> filter(fn: (r) => r[\"chain_id\"] == \"");
    reveal_strlit("\n            ");
    assert(query_from_group(p)[0] == '\n');
    let text = chain_filter(p.chain_id) + query_from_group(p);
    if p.chain_id == 0 {
        assert(text[0] == query_from_group(p)[0]);
    } else {
        assert(chain_filter(p.chain_id)[0] == '|');
        assert(text[0] == chain_filter(p.chain_id)[0]);
    }
}

proof fn lemma_chain_shows(p: StatsParams, q: StatsParams)
    requires
        chain_filter(p.chain_id) + query_from_group(p) == chain_filter(q.chain_id)
            + query_from_group(q),
    ensures
        p.chain_id == q.chain_id,
{
    lemma_first_of_chain(p);
    lemma_first_of_chain(q);
    if p.chain_id != 0 {
        let a = "|> filter(fn: (r) => r[\"chain_id\"] == \""@;
        let dp = decimal(p.chain_id as nat);
        let dq = decimal(q.chain_id as nat);
        let c = "\")"@;
        lemma_associate(a, dp, c);
        lemma_associate(a, dq, c);
        lemma_associate(a, dp + c, query_from_group(p));
        lemma_associate(a, dq + c, query_from_group(q));
        lemma_cancel(a, (dp + c) + query_from_group(p), (dq + c) + query_from_group(q));
        lemma_associate(dp, c, query_from_group(p));
        lemma_associate(dq, c, query_from_group(q));
        reveal_strlit("\")");
        lemma_decimal_is_number(p.chain_id as nat);
        lemma_decimal_is_number(q.chain_id as nat);
        lemma_numbers_end(dp, c + query_from_group(p), dq, c + query_from_group(q));
        law_decimal_stands_for_the_number(p.chain_id as nat);
        law_decimal_stands_for_the_number(q.chain_id as nat);
    }
}

/// Without a certain chain, and if not aggregated, the query has no stage that picks a chain or
/// fields and none that groups: between its beginning and its end there are only empty lines. A
/// certain chain adds just the stage that picks it.
pub proof fn law_detailed_query_only_picks_the_chain(p: StatsParams, bucket: Seq<char>)
    requires
        p.stat_type == StatType::Detailed,
    ensures
        ({
            let start = "\n        from(bucket: \""@ + bucket + "\")\n            |> range(start: "@
                    + signed_decimal(p.query_start as int) + ", stop: "@ + signed_decimal(
                    p.query_stop as int,
                ) + ")\n            |> filter(fn: (r) => r[\"_measurement\"] == \""@ + (if p.user_id == 0 {
                    "global_proxy"@
                } else {
                    "opt_in_proxy"@
                }) + "\")\n            "@;
            let end = "\n            |> aggregateWindow(every: "@ + decimal(
                    p.query_window_seconds as nat,
                ) + "s, fn: sum, createEmpty: false)\n            |> yield(name: \"sum\")\n    "@;
            flux_query(p, bucket) == start + "\n            "@ + (if p.chain_id == 0 {
                    Seq::<char>::empty()
                } else {
                    "|> filter(fn: (r) => r[\"chain_id\"] == \""@ + decimal(p.chain_id as nat) + "\")"@
                }) + "\n            "@ + end
        }),
{
    let window = p.query_window_seconds as nat;
    let start = query_head(bucket) + signed_decimal(p.query_start as int) + ", stop: "@
        + signed_decimal(p.query_stop as int)
        + ")\n            |> filter(fn: (r) => r[\"_measurement\"] == \""@ + measurement(p.user_id)
        + "\")\n            "@;
    let w1 = "\n            |> aggregateWindow(every: "@;
    let d = decimal(window);
    let w2 = "s, fn: sum, createEmpty: false)\n            |> yield(name: \"sum\")\n    "@;
    let end = w1 + d + w2;
    let none = Seq::<char>::empty();
    assert(start + none =~= start);
    let line = start + "\n            "@ + chain_filter(p.chain_id) + "\n            "@;
    assert(line + none =~= line);
    assert(flux_query(p, bucket) == line + w1 + d + w2);
    lemma_associate(line, w1, d);
    lemma_associate(line, w1 + d, w2);
    assert(flux_query(p, bucket) == start + "\n            "@ + (if p.chain_id == 0 {
        none
    } else {
        "|> filter(fn: (r) => r[\"chain_id\"] == \""@ + decimal(p.chain_id as nat) + "\")"@
    }) + "\n            "@ + end);
}

/// An aggregated query is the detailed query of the same parameters with two stages more: one
/// that picks the fields, and one that groups.
pub proof fn law_aggregated_query_has_two_stages_more(
    p: StatsParams,
    detailed: StatsParams,
    bucket: Seq<char>,
)
    requires
        p.stat_type == StatType::Aggregated,
        detailed == (StatsParams { stat_type: StatType::Detailed, ..p }),
    ensures
        exists|a: Seq<char>, b: Seq<char>, c: Seq<char>|
            {
                &&& flux_query(detailed, bucket) == #[trigger] (a + b + c)
                &&& flux_query(p, bucket) == a
                    + "|> filter(fn: (r) => r[\"_field\"] == \"frontend_requests\" or r[\"_field\"] == \"backend_requests\" or r[\"_field\"] == \"cache_hits\" or r[\"_field\"] == \"cache_misses\" or r[\"_field\"] == \"no_servers\" or r[\"_field\"] == \"sum_request_bytes\" or r[\"_field\"] == \"sum_response_bytes\" or r[\"_field\"] == \"sum_response_millis\")"@
                    + b + (if p.chain_id == 0 {
                    "|> group(columns: [\"_measurement\",\"_field\",\"chain_id\"])"@
                } else {
                    "|> group(columns: [\"_measurement\",\"_field\"])"@
                }) + c
            },
{
    let window = p.query_window_seconds as nat;
    lemma_grouping_text(p.stat_type, p.chain_id);
    let a = query_head(bucket) + signed_decimal(p.query_start as int) + ", stop: "@
        + signed_decimal(p.query_stop as int)
        + ")\n            |> filter(fn: (r) => r[\"_measurement\"] == \""@ + measurement(p.user_id)
        + "\")\n            "@;
    let nl = "\n            "@;
    let chain = chain_filter(p.chain_id);
    let b = nl + chain + nl;
    let w1 = "\n            |> aggregateWindow(every: "@;
    let d = decimal(window);
    let w2 = "s, fn: sum, createEmpty: false)\n            |> yield(name: \"sum\")\n    "@;
    let c = w1 + d + w2;
    let ff = field_filter(p.stat_type);
    let g = grouping(p.stat_type, p.chain_id);
    let none = Seq::<char>::empty();
    assert(a + none =~= a);
    assert((a + nl + chain + nl) + none =~= a + nl + chain + nl);
    assert(flux_query(detailed, bucket) == a + nl + chain + nl + w1 + d + w2);
    assert(flux_query(p, bucket) == a + ff + nl + chain + nl + g + w1 + d + w2);
    lemma_three(a, nl, chain, nl);
    lemma_three(a + b, w1, d, w2);
    lemma_three(a + ff, nl, chain, nl);
    lemma_three(a + ff + b + g, w1, d, w2);
    assert(flux_query(detailed, bucket) == a + b + c);
}

proof fn lemma_three(a: Seq<char>, x: Seq<char>, y: Seq<char>, z: Seq<char>)
    ensures
        a + x + y + z == a + (x + y + z),
{
    lemma_associate(a, x, y);
    lemma_associate(a, x + y, z);
}

/// Queries of different buckets differ.
pub proof fn law_query_tells_the_bucket(p: StatsParams, a: Seq<char>, b: Seq<char>)
    requires
        flux_query(p, a) == flux_query(p, b),
    ensures
        a == b,
{
    lemma_query_from_the_front(p, a);
    lemma_query_from_the_front(p, b);
    let h1 = "\n        from(bucket: \""@;
    let h2 = "\")\n            |> range(start: "@;
    let rest = query_from_start(p);
    assert(flux_query(p, a).len() == h1.len() + a.len() + h2.len() + rest.len());
    assert(flux_query(p, b).len() == h1.len() + b.len() + h2.len() + rest.len());
    assert forall|i: int| 0 <= i < a.len() implies a[i] == b[i] by {
        assert((h1 + a + h2 + rest)[h1.len() + i] == a[i]);
        assert((h1 + b + h2 + rest)[h1.len() + i] == b[i]);
    }
    assert(a =~= b);
}

/// The totals have no name but those of the fields of the run, after `total_`.
pub proof fn law_totals_hold_nothing_else(run: Seq<AggregatedRpcAccounting>, name: Seq<char>)
    requires
        totals_of(run).contains_key(name),
    ensures
        exists|i: int| 0 <= i < run.len() && name == "total_"@ + (#[trigger] run[i]).field@,
    decreases run.len(),
{
    if run.len() > 0 {
        let last = run.len() - 1;
        if name == "total_"@ + run.last().field@ {
            assert(name == "total_"@ + run[last].field@);
        } else {
            law_totals_hold_nothing_else(run.drop_last(), name);
            let i = choose|i: int|
                0 <= i < run.drop_last().len() && name == "total_"@ + (
                #[trigger] run.drop_last()[i]).field@;
            assert(run.drop_last()[i] == run[i]);
        }
    }
}

/// A datapoint has the time of every sum of its run, and each sum under the name of its field
/// after `total_`, unless a later sum of the run has the same field. It has no other names.
pub proof fn law_datapoint_holds_its_run(
    rows: Seq<AggregatedRpcAccounting>,
    k: int,
    d: Datapoint,
    i: int,
)
    requires
        0 <= k < runs(rows).len(),
        is_datapoint(d, runs(rows)[k]),
        0 <= i < runs(rows)[k].len(),
    ensures
        d.query_window_timestamp == runs(rows)[k][i].time.0,
        (forall|j: int|
            i < j < runs(rows)[k].len() ==> (#[trigger] runs(rows)[k][j]).field@
                != runs(rows)[k][i].field@) ==> {
            &&& numbers(d.totals).contains_key("total_"@ + runs(rows)[k][i].field@)
            &&& numbers(d.totals)["total_"@ + runs(rows)[k][i].field@] == runs(rows)[k][i].value
        },
        forall|name: Seq<char>| #[trigger]
            numbers(d.totals).contains_key(name) ==> exists|j: int|
                0 <= j < runs(rows)[k].len() && name == "total_"@ + (
                #[trigger] runs(rows)[k][j]).field@,
{
    lemma_runs(rows);
    let run = runs(rows)[k];
    assert(run[i].time == run[0].time);
    if forall|j: int| i < j < run.len() ==> (#[trigger] run[j]).field@ != run[i].field@ {
        law_totals_hold_each_field(run, i);
    }
    assert forall|name: Seq<char>| #[trigger]
        numbers(d.totals).contains_key(name) implies exists|j: int|
        0 <= j < run.len() && name == "total_"@ + (#[trigger] run[j]).field@ by {
        law_totals_hold_nothing_else(run, name);
    }
}

} // verus!
